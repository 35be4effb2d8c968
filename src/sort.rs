use vstd::prelude::*;
use vstd::string::*;

use crate::dir::DirEntry;

verus! {

/// What `str::to_lowercase` makes of a string.
pub uninterp spec fn lower_of(s: Seq<char>) -> Seq<char>;

/// Relies on str::to_lowercase: the lowercase form of a string, which depends on its
/// characters alone.
#[verifier::external_body]
fn lowercase(s: &str) -> (r: String)
    ensures
        r@ == lower_of(s@),
{
    s.to_lowercase()
}

/// `a` comes no later than `b` in the lexicographic order of code points.
pub open spec fn lex_le(a: Seq<char>, b: Seq<char>) -> bool
    decreases a.len(),
{
    if a.len() == 0 {
        true
    } else if b.len() == 0 {
        false
    } else if a[0] as u32 != b[0] as u32 {
        (a[0] as u32) < (b[0] as u32)
    } else {
        lex_le(a.drop_first(), b.drop_first())
    }
}

/// The key entries are ordered by: the name in lowercase.
pub open spec fn name_key(e: DirEntry) -> Seq<char> {
    lower_of(e.name@)
}

/// Entries stand in ascending order of their keys.
pub open spec fn sorted_by_name(s: Seq<DirEntry>) -> bool {
    forall|a: int, b: int| 0 <= a < b < s.len() ==> lex_le(name_key(s[a]), name_key(s[b]))
}

/// The entries of `s` whose key is `k`, in their order.
pub open spec fn name_group(s: Seq<DirEntry>, k: Seq<char>) -> Seq<DirEntry> {
    s.filter(|e: DirEntry| name_key(e) == k)
}

/// `out` is `inp` sorted by key, stably: it is in order, and the entries of each
/// key stand in `out` as they stood in `inp`.
pub open spec fn stable_sorted(out: Seq<DirEntry>, inp: Seq<DirEntry>) -> bool {
    &&& out.len() == inp.len()
    &&& sorted_by_name(out)
    &&& forall|k: Seq<char>| #[trigger] name_group(out, k) == name_group(inp, k)
}

/// Entries paired with the keys they are ordered by, position by position.
pub open spec fn keyed(keys: Seq<String>, v: Seq<DirEntry>) -> Seq<(Seq<char>, DirEntry)> {
    Seq::new(v.len(), |i: int| (keys[i]@, v[i]))
}

/// Pairs stand in ascending order of their keys.
pub open spec fn sorted_by_key(s: Seq<(Seq<char>, DirEntry)>) -> bool {
    forall|a: int, b: int| 0 <= a < b < s.len() ==> lex_le(s[a].0, s[b].0)
}

/// Whether a pair has key `k`.
pub open spec fn has_key(k: Seq<char>) -> spec_fn((Seq<char>, DirEntry)) -> bool {
    |p: (Seq<char>, DirEntry)| p.0 == k
}

/// The pairs of `s` whose key is `k`, in their order.
pub open spec fn key_group(s: Seq<(Seq<char>, DirEntry)>, k: Seq<char>) -> Seq<(Seq<char>, DirEntry)> {
    s.filter(has_key(k))
}

/// `out` is `inp` sorted by key, stably: it is in order, and the pairs of each key
/// stand in `out` as they stood in `inp`.
pub open spec fn stable_sorted_by_key(
    out: Seq<(Seq<char>, DirEntry)>,
    inp: Seq<(Seq<char>, DirEntry)>,
) -> bool {
    &&& out.len() == inp.len()
    &&& sorted_by_key(out)
    &&& forall|k: Seq<char>| #[trigger] key_group(out, k) == key_group(inp, k)
}

/// The entries of a sequence of pairs.
pub open spec fn entries_of(s: Seq<(Seq<char>, DirEntry)>) -> Seq<DirEntry> {
    s.map_values(|p: (Seq<char>, DirEntry)| p.1)
}

pub proof fn lemma_lex_le_refl(a: Seq<char>)
    ensures
        lex_le(a, a),
    decreases a.len(),
{
    if a.len() > 0 {
        lemma_lex_le_refl(a.drop_first());
    }
}

pub proof fn lemma_lex_le_total(a: Seq<char>, b: Seq<char>)
    ensures
        lex_le(a, b) || lex_le(b, a),
    decreases a.len(),
{
    if a.len() > 0 && b.len() > 0 && a[0] as u32 == b[0] as u32 {
        lemma_lex_le_total(a.drop_first(), b.drop_first());
    }
}

pub proof fn lemma_lex_le_trans(a: Seq<char>, b: Seq<char>, c: Seq<char>)
    requires
        lex_le(a, b),
        lex_le(b, c),
    ensures
        lex_le(a, c),
    decreases a.len(),
{
    if a.len() > 0 && b.len() > 0 && c.len() > 0 && a[0] as u32 == b[0] as u32 && b[0] as u32
        == c[0] as u32 {
        lemma_lex_le_trans(a.drop_first(), b.drop_first(), c.drop_first());
    }
}

/// Whether `a` comes no later than `b` in the order of `lex_le`.
fn key_le(a: &str, b: &str) -> (r: bool)
    ensures
        r == lex_le(a@, b@),
{
    let na = a.unicode_len();
    let nb = b.unicode_len();
    let mut i: usize = 0;
    assert(a@.subrange(0, na as int) =~= a@);
    assert(b@.subrange(0, nb as int) =~= b@);
    while i < na && i < nb
        invariant
            na == a@.len(),
            nb == b@.len(),
            i <= na,
            i <= nb,
            lex_le(a@, b@) == lex_le(
                a@.subrange(i as int, na as int),
                b@.subrange(i as int, nb as int),
            ),
        decreases na - i,
    {
        let ca = a.get_char(i);
        let cb = b.get_char(i);
        let ghost sa = a@.subrange(i as int, na as int);
        let ghost sb = b@.subrange(i as int, nb as int);
        assert(sa[0] == ca && sb[0] == cb);
        if ca as u32 != cb as u32 {
            return (ca as u32) < (cb as u32);
        }
        assert(sa.drop_first() =~= a@.subrange(i + 1, na as int));
        assert(sb.drop_first() =~= b@.subrange(i + 1, nb as int));
        i = i + 1;
    }
    i == na
}

proof fn lemma_group_single(x: (Seq<char>, DirEntry), k: Seq<char>)
    ensures
        key_group(seq![x], k) == (if x.0 == k {
            seq![x]
        } else {
            Seq::<(Seq<char>, DirEntry)>::empty()
        }),
{
    let kp = has_key(k);
    let z = Seq::<(Seq<char>, DirEntry)>::empty();
    z.lemma_filter_len(kp);
    z.lemma_filter_push(x, kp);
    assert(z.filter(kp) =~= z);
    assert(z.push(x) =~= seq![x]);
    assert(z.filter(kp).push(x) =~= seq![x]);
}

/// Putting `x` at `pos` of `s`, ahead of pairs whose key differs from its own,
/// leaves each key group as putting it at the end would.
proof fn lemma_group_insert(
    s: Seq<(Seq<char>, DirEntry)>,
    pos: int,
    x: (Seq<char>, DirEntry),
    k: Seq<char>,
)
    requires
        0 <= pos <= s.len(),
        forall|j: int| pos <= j < s.len() ==> (#[trigger] s[j]).0 != x.0,
    ensures
        key_group(s.insert(pos, x), k) == key_group(s.push(x), k),
{
    let kp = has_key(k);
    let a = s.subrange(0, pos);
    let b = s.subrange(pos, s.len() as int);
    let z = Seq::<(Seq<char>, DirEntry)>::empty();
    assert(s.insert(pos, x) =~= a + (seq![x] + b));
    assert(s.push(x) =~= (a + b) + seq![x]);
    Seq::filter_distributes_over_add(a, seq![x] + b, kp);
    Seq::filter_distributes_over_add(seq![x], b, kp);
    Seq::filter_distributes_over_add(a + b, seq![x], kp);
    Seq::filter_distributes_over_add(a, b, kp);
    lemma_group_single(x, k);
    if x.0 == k {
        assert forall|j: int| 0 <= j < b.len() implies !kp(b[j]) by {
            assert(b[j] == s[pos + j]);
        }
        assert(b.all(|q: (Seq<char>, DirEntry)| !kp(q)));
        b.lemma_all_neg_filter_empty(kp);
        assert(b.filter(kp) =~= z);
        assert(a.filter(kp) + (seq![x] + b.filter(kp)) =~= (a.filter(kp) + b.filter(kp)) + seq![x]);
    } else {
        assert(seq![x].filter(kp) =~= z);
        assert(a.filter(kp) + (z + b.filter(kp)) =~= (a.filter(kp) + b.filter(kp)) + z);
    }
}

/// Where every key is the lowercase name of its entry, grouping by key and then
/// taking the entries is grouping the entries by name key.
proof fn lemma_groups_agree(s: Seq<(Seq<char>, DirEntry)>, k: Seq<char>)
    requires
        forall|i: int| 0 <= i < s.len() ==> (#[trigger] s[i]).0 == name_key(s[i].1),
    ensures
        entries_of(key_group(s, k)) == name_group(entries_of(s), k),
    decreases s.len(),
{
    let kp = has_key(k);
    let np = |e: DirEntry| name_key(e) == k;
    if s.len() == 0 {
        s.lemma_filter_len(kp);
        entries_of(s).lemma_filter_len(np);
        assert(entries_of(key_group(s, k)) =~= name_group(entries_of(s), k));
    } else {
        let init = s.drop_last();
        let x = s.last();
        assert forall|i: int| 0 <= i < init.len() implies (#[trigger] init[i]).0 == name_key(
            init[i].1,
        ) by {
            assert(init[i] == s[i]);
        }
        lemma_groups_agree(init, k);
        assert(s =~= init.push(x));
        init.lemma_filter_push(x, kp);
        assert(entries_of(s) =~= entries_of(init).push(x.1));
        entries_of(init).lemma_filter_push(x.1, np);
        assert(entries_of(key_group(init, k).push(x)) =~= entries_of(key_group(init, k)).push(x.1));
    }
}

/// Sorts entries by the keys given beside them (`keys[i]` for `v[i]`), moving each
/// key with its entry and keeping entries of equal keys in their order.
pub fn sort_by_keys(v: &mut Vec<DirEntry>, keys: &mut Vec<String>)
    requires
        old(keys)@.len() == old(v)@.len(),
    ensures
        final(keys)@.len() == final(v)@.len(),
        stable_sorted_by_key(keyed(final(keys)@, final(v)@), keyed(old(keys)@, old(v)@)),
{
    let ghost start = keyed(keys@, v@);
    let n = v.len();
    let mut i: usize = 0;
    assert(keyed(keys@, v@).subrange(0, 0) =~= start.subrange(0, 0));
    while i < n
        invariant
            n == v@.len(),
            keys@.len() == n,
            start.len() == n,
            start == keyed(old(keys)@, old(v)@),
            i <= n,
            forall|t: int| i <= t < n ==> (#[trigger] keyed(keys@, v@)[t]) == start[t],
            sorted_by_key(keyed(keys@, v@).subrange(0, i as int)),
            forall|k: Seq<char>|
                #[trigger] key_group(keyed(keys@, v@).subrange(0, i as int), k) == key_group(
                    start.subrange(0, i as int),
                    k,
                ),
        decreases n - i,
    {
        let ghost before = keyed(keys@, v@);
        let ghost prefix = before.subrange(0, i as int);
        let e = v.remove(i);
        let k = keys.remove(i);
        let ghost x = (k@, e);
        assert(x == before[i as int]);
        assert(keyed(keys@, v@) =~= before.remove(i as int));
        let mut pos: usize = 0;
        while pos < i && key_le(keys[pos].as_str(), k.as_str())
            invariant
                pos <= i,
                i < n,
                keys@.len() == n - 1,
                v@.len() == n - 1,
                keyed(keys@, v@) == before.remove(i as int),
                forall|t: int| 0 <= t < pos ==> lex_le((#[trigger] keys@[t])@, k@),
            decreases i - pos,
        {
            pos = pos + 1;
        }
        proof {
            let cur = keyed(keys@, v@);
            assert forall|t: int| 0 <= t < i implies cur[t] == prefix[t] by {}
            if pos < i {
                assert(keys@[pos as int]@ == prefix[pos as int].0);
                assert(!lex_le(prefix[pos as int].0, x.0));
            }
            assert forall|t: int| pos <= t < i implies (#[trigger] prefix[t]).0 != x.0 by {
                assert(lex_le(prefix[pos as int].0, prefix[t].0) || t == pos);
                if prefix[t].0 == x.0 {
                    lemma_lex_le_refl(x.0);
                    assert(lex_le(prefix[pos as int].0, x.0));
                }
            }
            assert forall|t: int| 0 <= t < pos implies lex_le(prefix[t].0, x.0) by {
                assert(keys@[t]@ == prefix[t].0);
            }
        }
        let ghost mid = keyed(keys@, v@);
        v.insert(pos, e);
        keys.insert(pos, k);
        proof {
            assert(keyed(keys@, v@) =~= mid.insert(pos as int, x));
            let grown = keyed(keys@, v@).subrange(0, i + 1);
            assert(grown =~= prefix.insert(pos as int, x));
            assert(start.subrange(0, i + 1) =~= start.subrange(0, i as int).push(x));
            assert forall|kk: Seq<char>|
                #[trigger] key_group(grown, kk) == key_group(start.subrange(0, i + 1), kk) by {
                lemma_group_insert(prefix, pos as int, x, kk);
                let kp = has_key(kk);
                prefix.lemma_filter_push(x, kp);
                start.subrange(0, i as int).lemma_filter_push(x, kp);
                assert(key_group(prefix, kk) == key_group(start.subrange(0, i as int), kk));
            }
            assert forall|a: int, b: int| 0 <= a < b < grown.len() implies lex_le(
                grown[a].0,
                grown[b].0,
            ) by {
                if b < pos {
                    assert(grown[a] == prefix[a] && grown[b] == prefix[b]);
                } else if b == pos {
                    assert(grown[a] == prefix[a]);
                } else if a == pos {
                    assert(grown[b] == prefix[b - 1]);
                    if pos < i {
                        lemma_lex_le_total(prefix[pos as int].0, x.0);
                        if b - 1 > pos {
                            lemma_lex_le_trans(x.0, prefix[pos as int].0, prefix[b - 1].0);
                        }
                    }
                } else if a < pos {
                    assert(grown[a] == prefix[a] && grown[b] == prefix[b - 1]);
                } else {
                    assert(grown[a] == prefix[a - 1] && grown[b] == prefix[b - 1]);
                }
            }
            assert forall|t: int| i + 1 <= t < n implies (#[trigger] keyed(keys@, v@)[t])
                == start[t] by {
                assert(keyed(keys@, v@)[t] == before[t]);
            }
        }
        i = i + 1;
    }
    assert(keyed(keys@, v@).subrange(0, n as int) =~= keyed(keys@, v@));
    assert(start.subrange(0, n as int) =~= start);
}

/// Sorts entries by name, ignoring case, keeping entries of equal keys in their
/// order.
pub fn sort_by_name(v: &mut Vec<DirEntry>)
    ensures
        stable_sorted(final(v)@, old(v)@),
{
    let n = v.len();
    let mut keys: Vec<String> = Vec::new();
    let mut j: usize = 0;
    while j < n
        invariant
            n == v@.len(),
            v@ == old(v)@,
            j <= n,
            keys@.len() == j,
            forall|t: int| 0 <= t < j ==> (#[trigger] keys@[t])@ == name_key(v@[t]),
        decreases n - j,
    {
        keys.push(lowercase(v[j].name.as_str()));
        j = j + 1;
    }
    let ghost before = keyed(keys@, v@);
    sort_by_keys(v, &mut keys);
    proof {
        let after = keyed(keys@, v@);
        assert(entries_of(before) =~= old(v)@);
        assert(entries_of(after) =~= v@);
        assert forall|i: int| 0 <= i < after.len() implies (#[trigger] after[i]).0 == name_key(
            after[i].1,
        ) by {
            let k = after[i].0;
            let kp = has_key(k);
            after.lemma_filter_contains(kp, i);
            assert(key_group(after, k) == key_group(before, k));
            before.lemma_filter_contains_rev(kp, after[i]);
        }
        assert forall|a: int, b: int| 0 <= a < b < v@.len() implies lex_le(
            name_key(v@[a]),
            name_key(v@[b]),
        ) by {
            assert(after[a].0 == name_key(v@[a]) && after[b].0 == name_key(v@[b]));
        }
        assert forall|k: Seq<char>| #[trigger] name_group(v@, k) == name_group(old(v)@, k) by {
            lemma_groups_agree(after, k);
            lemma_groups_agree(before, k);
        }
    }
}

} // verus!
