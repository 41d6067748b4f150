//! Sorting the scanned paths: by their UTF-8 bytes, lexicographically (the
//! order of `str`), keeping paths with the same bytes in their first order.

use vstd::prelude::*;
use vstd::utf8::encode_utf8;

verus! {

/// A path found by the scan.
pub struct FilePath {
    pub path: String,
    pub is_dir: bool,
}

/// `a` comes before `b`, or equals it, in lexicographic byte order.
pub open spec fn lex_le(a: Seq<u8>, b: Seq<u8>) -> bool
    decreases a.len(),
{
    if a.len() == 0 {
        true
    } else if b.len() == 0 {
        false
    } else if a[0] != b[0] {
        a[0] < b[0]
    } else {
        lex_le(a.drop_first(), b.drop_first())
    }
}

/// The bytes a path is ordered by.
pub open spec fn path_key(f: FilePath) -> Seq<u8> {
    encode_utf8(f.path@)
}

/// Every path comes before, or with, each path after it.
pub open spec fn sorted_by_path(s: Seq<FilePath>) -> bool {
    forall|i: int, j: int| 0 <= i < j < s.len() ==> lex_le(path_key(#[trigger] s[i]), path_key(#[trigger] s[j]))
}

/// The paths of `s` whose bytes are `key`, in their order in `s`.
pub open spec fn with_key(s: Seq<FilePath>, key: Seq<u8>) -> Seq<FilePath> {
    s.filter(|f: FilePath| path_key(f) == key)
}

/// `out` holds the paths of `input` sorted, paths with equal bytes keeping
/// their order: for every key, the same paths in the same order.
pub open spec fn stable_sorted_of(out: Seq<FilePath>, input: Seq<FilePath>) -> bool {
    &&& sorted_by_path(out)
    &&& forall|key: Seq<u8>| #[trigger] with_key(out, key) == with_key(input, key)
}

pub proof fn lemma_lex_le_reflexive(a: Seq<u8>)
    ensures
        lex_le(a, a),
    decreases a.len(),
{
    if a.len() > 0 {
        lemma_lex_le_reflexive(a.drop_first());
    }
}

pub proof fn lemma_lex_le_total(a: Seq<u8>, b: Seq<u8>)
    ensures
        lex_le(a, b) || lex_le(b, a),
    decreases a.len(),
{
    if a.len() > 0 && b.len() > 0 && a[0] == b[0] {
        lemma_lex_le_total(a.drop_first(), b.drop_first());
    }
}

pub proof fn lemma_lex_le_transitive(a: Seq<u8>, b: Seq<u8>, c: Seq<u8>)
    requires
        lex_le(a, b),
        lex_le(b, c),
    ensures
        lex_le(a, c),
    decreases a.len(),
{
    if a.len() > 0 && b.len() > 0 && c.len() > 0 && a[0] == b[0] && b[0] == c[0] {
        lemma_lex_le_transitive(a.drop_first(), b.drop_first(), c.drop_first());
    }
}

pub proof fn lemma_lex_le_antisymmetric(a: Seq<u8>, b: Seq<u8>)
    requires
        lex_le(a, b),
        lex_le(b, a),
    ensures
        a == b,
    decreases a.len(),
{
    if a.len() > 0 && b.len() > 0 {
        lemma_lex_le_antisymmetric(a.drop_first(), b.drop_first());
        assert(a =~= seq![a[0]] + a.drop_first());
        assert(b =~= seq![b[0]] + b.drop_first());
    }
}

/// Past a common prefix, the order is that of the rests.
proof fn lemma_lex_le_skip(a: Seq<u8>, b: Seq<u8>, i: int)
    requires
        0 <= i <= a.len(),
        i <= b.len(),
        a.subrange(0, i) == b.subrange(0, i),
    ensures
        lex_le(a, b) == lex_le(a.skip(i), b.skip(i)),
    decreases i,
{
    if i > 0 {
        assert(a[0] == a.subrange(0, i)[0]);
        assert(b[0] == b.subrange(0, i)[0]);
        assert(a.drop_first().subrange(0, i - 1) =~= a.subrange(0, i).drop_first());
        assert(b.drop_first().subrange(0, i - 1) =~= b.subrange(0, i).drop_first());
        lemma_lex_le_skip(a.drop_first(), b.drop_first(), i - 1);
        assert(a.drop_first().skip(i - 1) =~= a.skip(i));
        assert(b.drop_first().skip(i - 1) =~= b.skip(i));
    } else {
        assert(a.skip(0) =~= a);
        assert(b.skip(0) =~= b);
    }
}

/// The order of byte strings is decided at their first difference, by
/// unsigned byte value: where `a` and `b` agree on their first `i` bytes and
/// differ at byte `i`, `a` comes first exactly when its byte there is the
/// smaller.
pub proof fn lemma_lex_le_first_difference(a: Seq<u8>, b: Seq<u8>, i: int)
    requires
        0 <= i < a.len(),
        i < b.len(),
        a.subrange(0, i) == b.subrange(0, i),
        a[i] != b[i],
    ensures
        lex_le(a, b) == (a[i] < b[i]),
{
    lemma_lex_le_skip(a, b, i);
    assert(a.skip(i)[0] == a[i]);
    assert(b.skip(i)[0] == b[i]);
}

/// A byte string comes before every string it begins, and after none that
/// is shorter and begins it.
pub proof fn lemma_lex_le_prefix(a: Seq<u8>, b: Seq<u8>)
    requires
        a.len() <= b.len(),
        a == b.subrange(0, a.len() as int),
    ensures
        lex_le(a, b),
        a.len() < b.len() ==> !lex_le(b, a),
{
    assert(a.subrange(0, a.len() as int) =~= a);
    lemma_lex_le_skip(a, b, a.len() as int);
    lemma_lex_le_skip(b, a, a.len() as int);
    assert(a.skip(a.len() as int) =~= Seq::<u8>::empty());
}

/// Lexicographic comparison of two byte strings.
pub fn bytes_le(a: &[u8], b: &[u8]) -> (r: bool)
    ensures
        r == lex_le(a@, b@),
{
    let mut i: usize = 0;
    while i < a.len() && i < b.len()
        invariant
            i <= a@.len(),
            i <= b@.len(),
            a@.subrange(0, i as int) == b@.subrange(0, i as int),
        decreases a@.len() - i,
    {
        if a[i] != b[i] {
            proof {
                lemma_lex_le_skip(a@, b@, i as int);
                assert(a@.skip(i as int)[0] == a@[i as int]);
                assert(b@.skip(i as int)[0] == b@[i as int]);
            }
            return a[i] < b[i];
        }
        assert(a@.subrange(0, i + 1) =~= a@.subrange(0, i as int).push(a@[i as int]));
        assert(b@.subrange(0, i + 1) =~= b@.subrange(0, i as int).push(b@[i as int]));
        i = i + 1;
    }
    proof {
        lemma_lex_le_skip(a@, b@, i as int);
    }
    i == a.len()
}

/// Whether the path of `a` comes strictly after the path of `b`.
fn path_after(a: &FilePath, b: &FilePath) -> (r: bool)
    ensures
        r == !lex_le(path_key(*a), path_key(*b)),
{
    !bytes_le(a.path.as_str().as_bytes(), b.path.as_str().as_bytes())
}

proof fn lemma_with_key_push(s: Seq<FilePath>, x: FilePath, key: Seq<u8>)
    ensures
        with_key(s.push(x), key) == if path_key(x) == key {
            with_key(s, key).push(x)
        } else {
            with_key(s, key)
        },
{
    s.lemma_filter_push(x, |f: FilePath| path_key(f) == key);
}

proof fn lemma_with_key_add(a: Seq<FilePath>, b: Seq<FilePath>, key: Seq<u8>)
    ensures
        with_key(a + b, key) == with_key(a, key) + with_key(b, key),
{
    Seq::filter_distributes_over_add(a, b, |f: FilePath| path_key(f) == key);
}

/// Sorts `list` by path bytes, keeping the order of equal paths.
pub fn sort_by_path(list: &mut Vec<FilePath>)
    ensures
        stable_sorted_of(final(list)@, old(list)@),
{
    let ghost orig = list@;
    let n = list.len();
    let mut i: usize = 0;
    while i < n
        invariant
            n == list@.len(),
            orig.len() == n,
            i <= n,
            sorted_by_path(list@.subrange(0, i as int)),
            forall|key: Seq<u8>| #[trigger] with_key(list@.subrange(0, i as int), key) == with_key(orig.subrange(0, i as int), key),
            list@.subrange(i as int, n as int) == orig.subrange(i as int, n as int),
        decreases n - i,
    {
        let ghost prefix = list@.subrange(0, i as int);
        let ghost x = list@[i as int];
        assert(x == orig[i as int]) by {
            assert(list@.subrange(i as int, n as int)[0] == orig.subrange(i as int, n as int)[0]);
        }
        // find the place of list[i] among the sorted ones before it
        let mut p: usize = i;
        while p > 0 && path_after(&list[p - 1], &list[i])
            invariant
                n == list@.len(),
                i < n,
                p <= i,
                list@.subrange(0, i as int) == prefix,
                list@[i as int] == x,
                forall|j: int| p <= j < i ==> !lex_le(#[trigger] path_key(prefix[j]), path_key(x)),
            decreases p,
        {
            p = p - 1;
        }
        proof {
            // the ones before p come before x, the ones from p come after it
            if p > 0 {
                assert(lex_le(path_key(prefix[p - 1]), path_key(x)));
                assert forall|j: int| 0 <= j < p implies lex_le(#[trigger] path_key(prefix[j]), path_key(x)) by {
                    if j < p - 1 {
                        assert(lex_le(path_key(prefix[j]), path_key(prefix[p - 1])));
                        lemma_lex_le_transitive(path_key(prefix[j]), path_key(prefix[p - 1]), path_key(x));
                    }
                }
            }
            assert forall|j: int| p <= j < i implies lex_le(path_key(x), #[trigger] path_key(prefix[j])) by {
                lemma_lex_le_total(path_key(x), path_key(prefix[j]));
            }
        }
        let ghost before = list@;
        let item = list.remove(i);
        list.insert(p, item);
        proof {
            let new_prefix = prefix.insert(p as int, x);
            assert(list@.subrange(0, i + 1) =~= new_prefix);
            assert(list@.subrange(i + 1, n as int) =~= orig.subrange(i + 1, n as int)) by {
                assert forall|j: int| i + 1 <= j < n implies list@[j] == orig[j] by {
                    assert(list@[j] == before[j]);
                    assert(before.subrange(i as int, n as int)[j - i] == before[j]);
                    assert(orig.subrange(i as int, n as int)[j - i] == orig[j]);
                }
            }
            // sorted
            assert forall|a: int, b: int| 0 <= a < b < i + 1 implies lex_le(
                path_key(#[trigger] new_prefix[a]),
                path_key(#[trigger] new_prefix[b]),
            ) by {
                if a < p && b < p {
                } else if a < p && b == p {
                } else if a < p && b > p {
                    assert(new_prefix[b] == prefix[b - 1]);
                    assert(lex_le(path_key(prefix[a]), path_key(x)));
                    lemma_lex_le_transitive(path_key(prefix[a]), path_key(x), path_key(prefix[b - 1]));
                } else if a == p {
                    assert(new_prefix[b] == prefix[b - 1]);
                } else {
                    assert(new_prefix[a] == prefix[a - 1]);
                    assert(new_prefix[b] == prefix[b - 1]);
                }
            }
            // stable
            let front = prefix.subrange(0, p as int);
            let back = prefix.subrange(p as int, i as int);
            assert(prefix =~= front + back);
            assert(new_prefix =~= front.push(x) + back);
            assert(orig.subrange(0, i + 1) =~= orig.subrange(0, i as int).push(x));
            assert forall|key: Seq<u8>| #[trigger] with_key(new_prefix, key) == with_key(orig.subrange(0, i + 1), key) by {
                lemma_with_key_add(front.push(x), back, key);
                lemma_with_key_add(front, back, key);
                lemma_with_key_push(front, x, key);
                lemma_with_key_push(orig.subrange(0, i as int), x, key);
                if path_key(x) == key {
                    assert(with_key(back, key) =~= Seq::<FilePath>::empty()) by {
                        assert forall|j: int| 0 <= j < back.len() implies path_key(#[trigger] back[j]) != key by {
                            assert(back[j] == prefix[p + j]);
                            if path_key(back[j]) == key {
                                lemma_lex_le_reflexive(key);
                            }
                        }
                        back.lemma_all_neg_filter_empty(|f: FilePath| path_key(f) == key);
                    }
                    assert(with_key(front.push(x), key) + with_key(back, key) =~= (with_key(front, key) + with_key(back, key)).push(x));
                }
            }
        }
        i = i + 1;
    }
    assert(list@.subrange(0, n as int) =~= list@);
    assert(orig.subrange(0, n as int) =~= orig);
}

proof fn lemma_count_within_key(s: Seq<FilePath>, x: FilePath)
    ensures
        s.to_multiset().count(x) == with_key(s, path_key(x)).to_multiset().count(x),
    decreases s.len(),
{
    broadcast use vstd::seq_lib::group_to_multiset_ensures;

    if s.len() == 0 {
        assert(with_key(s, path_key(x)) =~= s);
    } else {
        let rest = s.drop_last();
        lemma_count_within_key(rest, x);
        assert(s =~= rest.push(s.last()));
        lemma_with_key_push(rest, s.last(), path_key(x));
    }
}

/// Sorting only reorders: the sorted list holds the same paths, each as
/// many times, as the list it was sorted from.
pub proof fn lemma_stable_sort_permutes(out: Seq<FilePath>, input: Seq<FilePath>)
    requires
        stable_sorted_of(out, input),
    ensures
        out.to_multiset() == input.to_multiset(),
{
    assert forall|x: FilePath| #[trigger] out.to_multiset().count(x) == input.to_multiset().count(x) by {
        lemma_count_within_key(out, x);
        lemma_count_within_key(input, x);
        assert(with_key(out, path_key(x)) == with_key(input, path_key(x)));
    }
    assert(out.to_multiset() =~= input.to_multiset());
}

} // verus!
