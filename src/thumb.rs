use vstd::prelude::*;
use vstd::string::*;

use crate::pathbuf::dot_dot;
use crate::text::{
    child_path, find_last, join_child, last_index_of, lemma_last_index_of, slice_to_string,
    str_eq, views,
};

verus! {

/// Why no preview path can be derived from a file path.
#[derive(Debug, Clone, Copy, PartialEq, Eq, Structural)]
pub enum ThumbPathError {
    /// The path does not end in a file name.
    NoFileName,
}

/// The name of the per-directory cache of preview images.
pub open spec fn cache_dir() -> Seq<char> {
    seq!['.', 't', 'h']
}

/// How many leading characters of `p` stand before its first component: the root
/// `/`, or a leading `.` component; such a part is never trimmed away.
pub open spec fn body_start(p: Seq<char>) -> int {
    if p.len() > 0 && p[0] == '/' {
        1
    } else if p.len() > 0 && p[0] == '.' && (p.len() == 1 || p[1] == '/') {
        1
    } else {
        0
    }
}

/// `p` without its trailing separators and trailing `.` components, cutting no
/// further than `b` characters.
pub open spec fn trim_end(p: Seq<char>, b: int) -> Seq<char>
    decreases p.len(),
{
    if p.len() == 0 || p.len() <= b {
        p
    } else if p.last() == '/' {
        trim_end(p.drop_last(), b)
    } else if p.len() >= 2 && p[p.len() - 2] == '/' && p.last() == '.' {
        trim_end(p.drop_last(), b)
    } else {
        p
    }
}

/// Where the last component of the trimmed path `t` begins.
pub open spec fn name_start(t: Seq<char>, b: int) -> int {
    let k = last_index_of(t, '/');
    if k >= b {
        k + 1
    } else {
        b
    }
}

/// Where what stands before the last component of the trimmed path `t` ends.
pub open spec fn parent_end(t: Seq<char>, b: int) -> int {
    let k = last_index_of(t, '/');
    if k >= b {
        k
    } else {
        b
    }
}

/// The file name of path `p`: its last component once trailing separators and `.`
/// components are dropped, unless there is none or it is `..`.
pub open spec fn file_name_of(p: Seq<char>) -> Option<Seq<char>> {
    let b = body_start(p);
    let t = trim_end(p, b);
    if t.len() <= b {
        None
    } else if t.subrange(name_start(t, b), t.len() as int) == dot_dot() {
        None
    } else {
        Some(t.subrange(name_start(t, b), t.len() as int))
    }
}

/// The directory that holds the last component of `p`, without trailing separators
/// or `.` components.
pub open spec fn parent_of(p: Seq<char>) -> Seq<char> {
    let b = body_start(p);
    let t = trim_end(p, b);
    trim_end(t.subrange(0, parent_end(t, b)), b)
}

/// Whether path `p` ends in a file name.
pub open spec fn has_file_name(p: Seq<char>) -> bool {
    file_name_of(p) is Some
}

/// `rel` appended to path `dir`, with a separator between them unless `dir` is
/// empty or already ends in one.
pub open spec fn sep_join(dir: Seq<char>, rel: Seq<char>) -> Seq<char> {
    if dir.len() > 0 && dir.last() != '/' {
        dir + seq!['/'] + rel
    } else {
        dir + rel
    }
}

/// The preview of file `p` in the `format` of the previews:
/// `<parent>/.th/<name>.<format>`.
pub open spec fn thumb_path_of(p: Seq<char>, format: Seq<char>) -> Seq<char> {
    sep_join(
        parent_of(p),
        cache_dir() + seq!['/'] + file_name_of(p)->Some_0 + seq!['.'] + format,
    )
}

/// The length of `trim_end` of the first `len` characters of `p`.
fn trimmed_len(p: &str, b: usize, len: usize) -> (r: usize)
    requires
        len <= p@.len(),
    ensures
        r <= len,
        trim_end(p@.subrange(0, len as int), b as int) == p@.subrange(0, r as int),
{
    let mut m: usize = len;
    while m > b && (p.get_char(m - 1) == '/' || (m >= 2 && p.get_char(m - 2) == '/'
        && p.get_char(m - 1) == '.'))
        invariant
            m <= len <= p@.len(),
            trim_end(p@.subrange(0, len as int), b as int) == trim_end(
                p@.subrange(0, m as int),
                b as int,
            ),
        decreases m,
    {
        let ghost s = p@.subrange(0, m as int);
        assert(s.drop_last() =~= p@.subrange(0, m - 1));
        m = m - 1;
    }
    m
}

/// The extension of a file name: what follows its last `.`, unless that dot opens
/// the name or the name is `..`.
pub open spec fn ext_of(name: Seq<char>) -> Option<Seq<char>> {
    let d = last_index_of(name, '.');
    if d <= 0 || name == dot_dot() {
        None
    } else {
        Some(name.subrange(d + 1, name.len() as int))
    }
}

/// Whether a file of the cache is a preview in `format`.
pub open spec fn is_thumb_name(name: Seq<char>, format: Seq<char>) -> bool {
    ext_of(name) == Some(format)
}

/// The previews in `format` among the names of a cache directory, in their order.
pub open spec fn candidates(names: Seq<Seq<char>>, format: Seq<char>) -> Seq<Seq<char>> {
    names.filter(|n: Seq<char>| is_thumb_name(n, format))
}

/// The path of preview `name` in the cache of folder `folder`.
pub open spec fn folder_thumb_path(folder: Seq<char>, name: Seq<char>) -> Seq<char> {
    child_path(child_path(folder, cache_dir()), name)
}

/// Derives the path of a file's preview: `/dir/file.jpg` gives
/// `/dir/.th/file.jpg.avif` for the format `avif`. Name and parent are taken as
/// std's `Path` takes them: trailing separators and `.` components are dropped, so
/// `/dir/` names `dir` in `/`.
pub fn file_path_to_thumb(file: &str, format: &str) -> (r: Result<String, ThumbPathError>)
    ensures
        has_file_name(file@) ==> r == Ok::<String, ThumbPathError>(r->Ok_0) && r->Ok_0@
            == thumb_path_of(file@, format@),
        !has_file_name(file@) ==> r == Err::<String, ThumbPathError>(ThumbPathError::NoFileName),
{
    let n = file.unicode_len();
    let b: usize = if n > 0 && file.get_char(0) == '/' {
        1
    } else if n > 0 && file.get_char(0) == '.' && (n == 1 || file.get_char(1) == '/') {
        1
    } else {
        0
    };
    assert(b as int == body_start(file@));
    assert(file@.subrange(0, n as int) =~= file@);
    let m = trimmed_len(file, b, n);
    if m <= b {
        return Err(ThumbPathError::NoFileName);
    }
    let t = file.substring_char(0, m);
    proof {
        lemma_last_index_of(t@, '/');
    }
    let (start, rest): (usize, usize) = match find_last(t, '/') {
        Some(k) => if k >= b {
            (k + 1, k)
        } else {
            (b, b)
        },
        None => (b, b),
    };
    assert(start as int == name_start(t@, b as int));
    assert(rest as int == parent_end(t@, b as int));
    let name = t.substring_char(start, m);
    proof {
        reveal_strlit("..");
        assert(".."@ =~= dot_dot());
    }
    if str_eq(name, "..") {
        return Err(ThumbPathError::NoFileName);
    }
    assert(t@.subrange(0, rest as int) =~= file@.subrange(0, rest as int));
    let pl = trimmed_len(file, b, rest);
    let mut r = slice_to_string(file, 0, pl);
    assert(r@ == parent_of(file@));
    proof {
        reveal_strlit("/");
        reveal_strlit(".th/");
        reveal_strlit(".");
        assert("/"@ =~= seq!['/']);
        assert(".th/"@ =~= cache_dir() + seq!['/']);
    }
    if pl > 0 && file.get_char(pl - 1) != '/' {
        r.append("/");
    }
    r.append(".th/");
    r.append(name);
    r.append(".");
    r.append(format);
    assert(r@ =~= thumb_path_of(file@, format@));
    Ok(r)
}

/// The extension of a file name, as `ext_of` says.
pub fn extension_of(name: &str) -> (r: Option<String>)
    ensures
        match r {
            Some(e) => ext_of(name@) == Some(e@),
            None => ext_of(name@) is None,
        },
{
    proof {
        reveal_strlit("..");
        assert(".."@ =~= dot_dot());
        lemma_last_index_of(name@, '.');
    }
    let n = name.unicode_len();
    match find_last(name, '.') {
        Some(d) => {
            if d == 0 || str_eq(name, "..") {
                None
            } else {
                Some(slice_to_string(name, d + 1, n))
            }
        },
        None => None,
    }
}

/// The names among `names` that are previews in `format`, in their order.
pub fn thumb_candidates(names: &Vec<String>, format: &str) -> (r: Vec<String>)
    ensures
        views(r@) == candidates(views(names@), format@),
{
    let ghost pred = |n: Seq<char>| is_thumb_name(n, format@);
    let mut r: Vec<String> = Vec::new();
    let n = names.len();
    let mut i: usize = 0;
    let f = String::from_str(format);
    while i < n
        invariant
            n == names@.len(),
            i <= n,
            f@ == format@,
            pred == (|n: Seq<char>| is_thumb_name(n, format@)),
            views(r@) == views(names@).subrange(0, i as int).filter(pred),
        decreases n - i,
    {
        let name = &names[i];
        let ghost pre = views(names@).subrange(0, i as int);
        proof {
            assert(views(names@).subrange(0, i + 1) =~= pre.push(name@));
            pre.lemma_filter_push(name@, pred);
        }
        let keep = match extension_of(name.as_str()) {
            Some(e) => e == f,
            None => false,
        };
        if keep {
            r.push(name.clone());
            assert(views(r@) =~= pre.filter(pred).push(name@));
        }
        i = i + 1;
    }
    assert(views(names@).subrange(0, n as int) =~= views(names@));
    r
}

/// The preview of folder `folder` at index `choice` among the previews in `format`
/// that its cache holds (`cache_names`), or `None` when there are not that many.
pub fn pick_folder_thumb(folder: &str, cache_names: &Vec<String>, format: &str, choice: usize) -> (r:
    Option<String>)
    ensures
        ({
            let c = candidates(views(cache_names@), format@);
            if choice < c.len() {
                r matches Some(t) && t@ == folder_thumb_path(folder@, c[choice as int])
            } else {
                r is None
            }
        }),
{
    let c = thumb_candidates(cache_names, format);
    if choice < c.len() {
        assert(c@[choice as int]@ == views(c@)[choice as int]);
        Some(cache_entry_path(folder, c[choice].as_str()))
    } else {
        None
    }
}

/// Relies on rand's IteratorRandom::choose over the range `0..n`, drawn with the
/// thread-local generator: `None` for an empty range, else one index below `n`.
#[verifier::external_body]
fn random_index(n: usize) -> (r: Option<usize>)
    ensures
        r is None <==> n == 0,
        r is Some ==> r->0 < n,
{
    rand::seq::IteratorRandom::choose(0..n, &mut rand::thread_rng())
}

/// A preview for folder `folder`, drawn at random, uniformly, among the previews in
/// `format` that its cache holds; `None` when it holds none. Each call draws anew.
pub fn random_folder_thumb(folder: &str, cache_names: &Vec<String>, format: &str) -> (r: Option<
    String,
>)
    ensures
        ({
            let c = candidates(views(cache_names@), format@);
            &&& r is None <==> c.len() == 0
            &&& r matches Some(t) ==> exists|j: int|
                0 <= j < c.len() && t@ == folder_thumb_path(folder@, #[trigger] c[j])
        }),
{
    let c = thumb_candidates(cache_names, format);
    match random_index(c.len()) {
        Some(i) => {
            let r = pick_folder_thumb(folder, cache_names, format, i);
            assert(r matches Some(t) && t@ == folder_thumb_path(folder@, views(c@)[i as int]));
            r
        },
        None => None,
    }
}

/// The path of `name` in the cache of folder `folder`.
fn cache_entry_path(folder: &str, name: &str) -> (r: String)
    ensures
        r@ == folder_thumb_path(folder@, name@),
{
    proof {
        reveal_strlit(".th");
        assert(".th"@ =~= cache_dir());
    }
    let cache = join_child(folder, ".th");
    join_child(cache.as_str(), name)
}

} // verus!
