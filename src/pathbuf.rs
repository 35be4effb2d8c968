use vstd::prelude::*;
use vstd::string::*;

use crate::text::{views, contains_char, ends_with_char, starts_with_char, str_eq};

verus! {

/// Why a request path segment was refused.
#[derive(Debug, Clone, Copy, PartialEq, Eq, Structural)]
pub enum SegmentError {
    /// The segment begins with a forbidden character.
    BadStart(char),
    /// The segment ends with a forbidden character.
    BadEnd(char),
    /// The segment holds a forbidden character.
    BadChar(char),
}

pub open spec fn dot() -> Seq<char> {
    seq!['.']
}

pub open spec fn dot_dot() -> Seq<char> {
    seq!['.', '.']
}

/// A segment that names an entry: neither empty nor `.` nor `..`, and free of `/`.
pub open spec fn is_plain(seg: Seq<char>) -> bool {
    &&& seg.len() > 0
    &&& seg != dot()
    &&& seg != dot_dot()
    &&& !seg.contains('/')
}

/// The effect of one segment on the segments accepted so far: `..` drops the last one
/// (and does nothing at the root), an empty segment or `.` does nothing, and any
/// other segment is appended.
pub open spec fn step(acc: Seq<Seq<char>>, seg: Seq<char>) -> Seq<Seq<char>> {
    if seg == dot_dot() {
        if acc.len() > 0 {
            acc.drop_last()
        } else {
            acc
        }
    } else if seg.len() == 0 || seg == dot() {
        acc
    } else {
        acc.push(seg)
    }
}

/// The segments accepted after applying `segs`, in order, to `acc`.
pub open spec fn resolve(acc: Seq<Seq<char>>, segs: Seq<Seq<char>>) -> Seq<Seq<char>>
    decreases segs.len(),
{
    if segs.len() == 0 {
        acc
    } else {
        resolve(step(acc, segs[0]), segs.drop_first())
    }
}

/// The error a request segment gives, if any. `backslash_sep` tells whether the
/// platform separates paths with `\` as well.
pub open spec fn segment_error(seg: Seq<char>, backslash_sep: bool) -> Option<SegmentError> {
    if seg == dot_dot() {
        None
    } else if seg.len() > 0 && seg[0] == '*' {
        Some(SegmentError::BadStart('*'))
    } else if seg.len() > 0 && seg.last() == ':' {
        Some(SegmentError::BadEnd(':'))
    } else if seg.len() > 0 && seg.last() == '>' {
        Some(SegmentError::BadEnd('>'))
    } else if seg.len() > 0 && seg.last() == '<' {
        Some(SegmentError::BadEnd('<'))
    } else if seg.contains('/') {
        Some(SegmentError::BadChar('/'))
    } else if backslash_sep && seg.contains('\\') {
        Some(SegmentError::BadChar('\\'))
    } else {
        None
    }
}

/// The error of the first refused segment of `segs`, if any.
pub open spec fn first_error(segs: Seq<Seq<char>>, backslash_sep: bool) -> Option<SegmentError>
    decreases segs.len(),
{
    if segs.len() == 0 {
        None
    } else if segment_error(segs[0], backslash_sep) is Some {
        segment_error(segs[0], backslash_sep)
    } else {
        first_error(segs.drop_first(), backslash_sep)
    }
}

/// The root-relative path that request segments resolve to, or the error of the
/// first refused segment.
pub open spec fn normalized(segs: Seq<Seq<char>>, backslash_sep: bool) -> Result<
    Seq<Seq<char>>,
    SegmentError,
> {
    match first_error(segs, backslash_sep) {
        Some(e) => Err(e),
        None => Ok(resolve(Seq::empty(), segs)),
    }
}

/// Index of the first `/` in `s`, or -1.
pub open spec fn first_slash(s: Seq<char>) -> int
    decreases s.len(),
{
    if s.len() == 0 {
        -1
    } else if s[0] == '/' {
        0
    } else if first_slash(s.drop_first()) < 0 {
        -1
    } else {
        first_slash(s.drop_first()) + 1
    }
}

/// The parts of a path string between its `/` separators (empty parts included).
pub open spec fn components(s: Seq<char>) -> Seq<Seq<char>>
    decreases s.len(),
{
    let i = first_slash(s);
    if 0 <= i < s.len() {
        seq![s.subrange(0, i)] + components(s.subrange(i + 1, s.len() as int))
    } else {
        seq![s]
    }
}

/// Segments joined by `/`.
pub open spec fn join(segs: Seq<Seq<char>>) -> Seq<char>
    decreases segs.len(),
{
    if segs.len() == 0 {
        Seq::empty()
    } else if segs.len() == 1 {
        segs[0]
    } else {
        join(segs.drop_last()) + seq!['/'] + segs.last()
    }
}

proof fn lemma_first_slash(s: Seq<char>, k: int)
    requires
        -1 <= k < s.len(),
        k >= 0 ==> s[k] == '/',
        forall|j: int| 0 <= j < s.len() && (k < 0 || j < k) ==> s[j] != '/',
    ensures
        first_slash(s) == k,
    decreases s.len(),
{
    if s.len() > 0 && s[0] != '/' {
        let t = s.drop_first();
        assert forall|j: int| 0 <= j < t.len() && (k - 1 < 0 || j < k - 1) implies t[j] != '/' by {
            assert(t[j] == s[j + 1]);
        }
        if k > 0 {
            assert(t[k - 1] == s[k]);
            lemma_first_slash(t, k - 1);
        } else {
            lemma_first_slash(t, -1);
        }
    }
}

/// A path string whose first `/` stands at `k` has the part before it as its first
/// component.
proof fn lemma_components_split(s: Seq<char>, k: int)
    requires
        0 <= k < s.len(),
        s[k] == '/',
        forall|j: int| 0 <= j < k ==> s[j] != '/',
    ensures
        components(s) == seq![s.subrange(0, k)] + components(s.subrange(k + 1, s.len() as int)),
{
    lemma_first_slash(s, k);
}

/// A string without `/` is a single component.
proof fn lemma_components_single(s: Seq<char>)
    requires
        !s.contains('/'),
    ensures
        components(s) == seq![s],
{
    assert forall|j: int| 0 <= j < s.len() implies s[j] != '/' by {
        if s[j] == '/' {
            assert(s.contains('/'));
        }
    }
    lemma_first_slash(s, -1);
}

proof fn lemma_resolve_cons(acc: Seq<Seq<char>>, seg: Seq<char>, rest: Seq<Seq<char>>)
    ensures
        resolve(acc, seq![seg] + rest) == resolve(step(acc, seg), rest),
{
    let l = seq![seg] + rest;
    assert(l[0] == seg);
    assert(l.drop_first() =~= rest);
}


/// What a resolution result says, with the path given by its segments.
pub open spec fn outcome(r: Result<CustomPathBuf, SegmentError>) -> Result<Seq<Seq<char>>, SegmentError> {
    match r {
        Ok(p) => Ok(p@),
        Err(e) => Err(e),
    }
}

/// Relies on std::path::is_separator: whether `\` separates paths on this platform.
#[verifier::external_body]
fn backslash_is_separator() -> bool {
    std::path::is_separator('\\')
}

/// The error `segment_error` gives for `seg`.
pub fn check_segment(seg: &str, backslash_sep: bool) -> (r: Option<SegmentError>)
    ensures
        r == segment_error(seg@, backslash_sep),
{
    proof {
        reveal_strlit("..");
        assert(".."@ =~= dot_dot());
    }
    if str_eq(seg, "..") {
        None
    } else if starts_with_char(seg, '*') {
        Some(SegmentError::BadStart('*'))
    } else if ends_with_char(seg, ':') {
        Some(SegmentError::BadEnd(':'))
    } else if ends_with_char(seg, '>') {
        Some(SegmentError::BadEnd('>'))
    } else if ends_with_char(seg, '<') {
        Some(SegmentError::BadEnd('<'))
    } else if contains_char(seg, '/') {
        Some(SegmentError::BadChar('/'))
    } else if backslash_sep && contains_char(seg, '\\') {
        Some(SegmentError::BadChar('\\'))
    } else {
        None
    }
}

proof fn lemma_resolve_plain(acc: Seq<Seq<char>>, segs: Seq<Seq<char>>, backslash_sep: bool)
    requires
        forall|i: int| 0 <= i < acc.len() ==> is_plain(#[trigger] acc[i]),
        first_error(segs, backslash_sep) is None,
    ensures
        forall|i: int|
            0 <= i < resolve(acc, segs).len() ==> is_plain(#[trigger] resolve(acc, segs)[i]),
    decreases segs.len(),
{
    if segs.len() > 0 {
        let next = step(acc, segs[0]);
        assert forall|i: int| 0 <= i < next.len() implies is_plain(#[trigger] next[i]) by {
            if i < acc.len() {
                assert(next[i] == acc[i]);
            }
        }
        lemma_resolve_plain(next, segs.drop_first(), backslash_sep);
        assert(resolve(acc, segs) == resolve(next, segs.drop_first()));
    } else {
        assert(resolve(acc, segs) == acc);
    }
}

/// Resolution never leaves the root: whatever request segments are given, `..`
/// beyond the root included, every segment of the resolved path names an entry
/// (none is `..`, `.`, empty or holds `/`), so the path lies at or below the root.
pub proof fn lemma_resolution_stays_within_root(segs: Seq<Seq<char>>, backslash_sep: bool)
    ensures
        normalized(segs, backslash_sep) matches Ok(p) ==> forall|i: int|
            0 <= i < p.len() ==> is_plain(#[trigger] p[i]),
{
    if first_error(segs, backslash_sep) is None {
        lemma_resolve_plain(Seq::empty(), segs, backslash_sep);
    }
}

/// A path relative to the served root, kept as the sequence of its segments.
#[derive(Debug)]
pub struct CustomPathBuf {
    segments: Vec<String>,
}

impl View for CustomPathBuf {
    type V = Seq<Seq<char>>;

    closed spec fn view(&self) -> Seq<Seq<char>> {
        self.segments@.map_values(|s: String| s@)
    }
}

impl CustomPathBuf {
    /// Every segment names an entry, so the path never leaves the root.
    pub open spec fn wf(&self) -> bool {
        forall|i: int| 0 <= i < self@.len() ==> is_plain(#[trigger] self@[i])
    }

    /// The root itself.
    pub fn new() -> (r: Self)
        ensures
            r@ == Seq::<Seq<char>>::empty(),
            r.wf(),
    {
        let r = CustomPathBuf { segments: Vec::new() };
        assert(r@ =~= Seq::<Seq<char>>::empty());
        r
    }

    /// Drops the last segment; at the root nothing changes.
    pub fn pop(&mut self)
        requires
            old(self).wf(),
        ensures
            final(self)@ == (if old(self)@.len() > 0 {
                old(self)@.drop_last()
            } else {
                old(self)@
            }),
            final(self).wf(),
    {
        if self.segments.len() > 0 {
            self.segments.pop();
            assert(self@ =~= old(self)@.drop_last());
        }
    }

    /// Applies a relative path: its `/`-separated parts are taken one by one as
    /// `step` says.
    pub fn push(&mut self, suffix: &str)
        requires
            old(self).wf(),
        ensures
            final(self)@ == resolve(old(self)@, components(suffix@)),
            final(self).wf(),
    {
        let n = suffix.unicode_len();
        let mut start: usize = 0;
        let mut i: usize = 0;
        assert(suffix@.subrange(0, n as int) =~= suffix@);
        while i < n
            invariant
                start <= i <= n,
                n == suffix@.len(),
                self.wf(),
                forall|j: int| start <= j < i ==> suffix@[j] != '/',
                resolve(old(self)@, components(suffix@)) == resolve(
                    self@,
                    components(suffix@.subrange(start as int, n as int)),
                ),
            decreases n - i,
        {
            if suffix.get_char(i) == '/' {
                let part = suffix.substring_char(start, i);
                let ghost rest = suffix@.subrange(start as int, n as int);
                proof {
                    let k = i - start;
                    assert forall|j: int| 0 <= j < k implies rest[j] != '/' by {
                        assert(rest[j] == suffix@[start + j]);
                    }
                    assert(rest[k] == suffix@[i as int]);
                    lemma_components_split(rest, k);
                    assert(rest.subrange(0, k) =~= part@);
                    assert(rest.subrange(k + 1, rest.len() as int) =~= suffix@.subrange(
                        i + 1,
                        n as int,
                    ));
                    lemma_resolve_cons(self@, part@, components(suffix@.subrange(i + 1, n as int)));
                    assert(!part@.contains('/'));
                }
                self.push_segment(part);
                start = i + 1;
            }
            i = i + 1;
        }
        let part = suffix.substring_char(start, n);
        proof {
            assert(!part@.contains('/'));
            lemma_components_single(part@);
            lemma_resolve_cons(self@, part@, Seq::empty());
            assert(seq![part@] + Seq::<Seq<char>>::empty() =~= seq![part@]);
            assert(resolve(step(self@, part@), Seq::empty()) == step(self@, part@));
        }
        self.push_segment(part);
    }

    /// The path that a relative path string names, with `..` never rising above the
    /// root.
    pub fn from(path: &str) -> (r: Self)
        ensures
            r@ == resolve(Seq::empty(), components(path@)),
            r.wf(),
    {
        let mut r = CustomPathBuf::new();
        r.push(path);
        r
    }

    /// Same as `from`.
    pub fn from_str(path: &str) -> (r: Self)
        ensures
            r@ == resolve(Seq::empty(), components(path@)),
            r.wf(),
    {
        CustomPathBuf::from(path)
    }

    /// The path as a string: the segments joined by `/`, empty for the root.
    pub fn path(&self) -> (r: String)
        ensures
            r@ == join(self@),
    {
        let mut r = String::new();
        let n = self.segments.len();
        let mut i: usize = 0;
        proof {
            reveal_strlit("/");
            assert("/"@ =~= seq!['/']);
        }
        while i < n
            invariant
                n == self@.len(),
                i <= n,
                r@ == join(self@.subrange(0, i as int)),
                "/"@ == seq!['/'],
            decreases n - i,
        {
            let ghost pre = self@.subrange(0, i as int);
            let ghost next = self@.subrange(0, i + 1);
            assert(next.drop_last() =~= pre);
            assert(next.last() == self.segments@[i as int]@);
            if i > 0 {
                r.append("/");
            }
            r.append(self.segments[i].as_str());
            i = i + 1;
        }
        assert(self@.subrange(0, n as int) =~= self@);
        r
    }

    /// Resolves decoded request segments against the root: `..` removes the last
    /// accepted segment (and does nothing at the root), empty segments and `.` are
    /// ignored, dot-files are accepted, and the first segment that `segment_error`
    /// refuses makes the whole request fail with its error.
    pub fn normalize(segments: &Vec<String>, backslash_sep: bool) -> (r: Result<
        CustomPathBuf,
        SegmentError,
    >)
        ensures
            outcome(r) == normalized(views(segments@), backslash_sep),
            r matches Ok(p) ==> p.wf(),
    {
        let ghost all = views(segments@);
        let n = segments.len();
        let mut p = CustomPathBuf::new();
        let mut i: usize = 0;
        assert(all.subrange(0, n as int) =~= all);
        while i < n
            invariant
                n == segments@.len(),
                all == views(segments@),
                i <= n,
                p.wf(),
                first_error(all, backslash_sep) == first_error(
                    all.subrange(i as int, n as int),
                    backslash_sep,
                ),
                resolve(Seq::empty(), all) == resolve(p@, all.subrange(i as int, n as int)),
            decreases n - i,
        {
            let seg = segments[i].as_str();
            let ghost rest = all.subrange(i as int, n as int);
            assert(rest[0] == seg@);
            assert(rest.drop_first() =~= all.subrange(i + 1, n as int));
            match check_segment(seg, backslash_sep) {
                Some(e) => {
                    return Err(e);
                },
                None => {
                    proof {
                        reveal_strlit("..");
                        assert(".."@ =~= dot_dot());
                        if seg@.contains('/') {
                            assert(seg@ == dot_dot());
                            assert(false);
                        }
                    }
                    p.push_segment(seg);
                },
            }
            i = i + 1;
        }
        Ok(p)
    }

    /// Resolves decoded request segments as `normalize` does, refusing `\` where the
    /// platform takes it for a separator.
    pub fn from_segments(segments: &Vec<String>) -> (r: Result<CustomPathBuf, SegmentError>)
        ensures
            outcome(r) == normalized(views(segments@), true) || outcome(r)
                == normalized(views(segments@), false),
            r matches Ok(p) ==> p.wf(),
    {
        CustomPathBuf::normalize(segments, backslash_is_separator())
    }

    /// Applies one segment as `step` says.
    fn push_segment(&mut self, seg: &str)
        requires
            old(self).wf(),
            !seg@.contains('/'),
        ensures
            final(self)@ == step(old(self)@, seg@),
            final(self).wf(),
    {
        proof {
            reveal_strlit("..");
            reveal_strlit(".");
            assert(".."@ =~= dot_dot());
            assert("."@ =~= dot());
        }
        if str_eq(seg, "..") {
            assert(seg@ =~= dot_dot());
            self.pop();
        } else if seg.unicode_len() == 0 || str_eq(seg, ".") {
            assert(seg@.len() == 0 || seg@ =~= dot());
        } else {
            assert(seg@ != dot_dot() && seg@ != dot());
            self.segments.push(String::from_str(seg));
            assert(self@ =~= old(self)@.push(seg@));
        }
    }
}

} // verus!
