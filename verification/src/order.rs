//! The order of directory listings: directories first, then by lowercase
//! name, entries that compare equal keeping the order they came in.
use vstd::prelude::*;

verus! {

/// `a` before `b` in the order of `String`'s comparison, which on UTF-8
/// text is the order of the characters' code points, a prefix first.
pub open spec fn lex_lt(a: Seq<char>, b: Seq<char>) -> bool
    decreases a.len(),
{
    if a.len() == 0 {
        b.len() > 0
    } else if b.len() == 0 {
        false
    } else if a[0] != b[0] {
        (a[0] as int) < (b[0] as int)
    } else {
        lex_lt(a.drop_first(), b.drop_first())
    }
}

/// The sort key of a listing entry: whether it is a directory, and its
/// lowercase name.
pub struct SortKey {
    pub is_dir: bool,
    pub name: String,
}

/// `a` sorts strictly before `b`.
pub open spec fn key_lt(a: (bool, Seq<char>), b: (bool, Seq<char>)) -> bool {
    (a.0 && !b.0) || (a.0 == b.0 && lex_lt(a.1, b.1))
}

pub open spec fn key_view(k: SortKey) -> (bool, Seq<char>) {
    (k.is_dir, k.name@)
}

pub open spec fn keys_view(keys: Seq<SortKey>) -> Seq<(bool, Seq<char>)> {
    keys.map_values(|k: SortKey| key_view(k))
}

/// `p` applied to `s`.
pub open spec fn permuted<T>(s: Seq<T>, p: Seq<usize>) -> Seq<T> {
    Seq::new(p.len(), |i: int| s[p[i] as int])
}

/// `p` lists each index of `keys` once, in the order of a stable sort:
/// never a later entry before an earlier one it does not sort before.
pub open spec fn is_stable_order(keys: Seq<(bool, Seq<char>)>, p: Seq<usize>) -> bool {
    &&& p.len() == keys.len()
    &&& forall|i: int| 0 <= i < p.len() ==> (p[i] as int) < keys.len()
    &&& forall|i: int, j: int| 0 <= i < j < p.len() ==> p[i] != p[j]
    &&& forall|i: int, j: int|
        0 <= i < j < p.len() ==> key_lt(keys[p[i] as int], keys[p[j] as int]) || (keys[p[i] as int]
            == keys[p[j] as int] && p[i] < p[j])
}

pub proof fn lemma_lex_irreflexive(a: Seq<char>)
    ensures
        !lex_lt(a, a),
    decreases a.len(),
{
    if a.len() > 0 {
        lemma_lex_irreflexive(a.drop_first());
    }
}

pub proof fn lemma_lex_trichotomy(a: Seq<char>, b: Seq<char>)
    ensures
        lex_lt(a, b) || a == b || lex_lt(b, a),
        !(lex_lt(a, b) && lex_lt(b, a)),
    decreases a.len(),
{
    if a.len() == 0 || b.len() == 0 {
        if a.len() == 0 && b.len() == 0 {
            assert(a =~= b);
        }
    } else if a[0] != b[0] {
        assert((a[0] as int) != (b[0] as int));
    } else {
        lemma_lex_trichotomy(a.drop_first(), b.drop_first());
        if a.drop_first() == b.drop_first() {
            assert(a.len() == b.len());
            assert forall|i: int| 0 <= i < a.len() implies a[i] == b[i] by {
                if i > 0 {
                    assert(a[i] == a.drop_first()[i - 1]);
                    assert(b[i] == b.drop_first()[i - 1]);
                }
            }
            assert(a =~= b);
        }
    }
}

pub proof fn lemma_lex_transitive(a: Seq<char>, b: Seq<char>, c: Seq<char>)
    requires
        lex_lt(a, b),
        lex_lt(b, c),
    ensures
        lex_lt(a, c),
    decreases a.len(),
{
    if a.len() > 0 && b.len() > 0 && c.len() > 0 && a[0] == b[0] && b[0] == c[0] {
        lemma_lex_transitive(a.drop_first(), b.drop_first(), c.drop_first());
    }
}

pub proof fn lemma_key_total(a: (bool, Seq<char>), b: (bool, Seq<char>))
    ensures
        key_lt(a, b) || a == b || key_lt(b, a),
        !(key_lt(a, b) && key_lt(b, a)),
        !key_lt(a, a),
{
    lemma_lex_trichotomy(a.1, b.1);
    lemma_lex_irreflexive(a.1);
}

pub proof fn lemma_key_transitive(a: (bool, Seq<char>), b: (bool, Seq<char>), c: (bool, Seq<char>))
    requires
        key_lt(a, b),
        key_lt(b, c),
    ensures
        key_lt(a, c),
{
    if a.0 == b.0 && b.0 == c.0 {
        lemma_lex_transitive(a.1, b.1, c.1);
    }
}

/// Whether `a` comes before `b` in `String`'s order.
pub fn lex_less(a: &str, b: &str) -> (r: bool)
    ensures
        r == lex_lt(a@, b@),
{
    let n = a.unicode_len();
    let m = b.unicode_len();
    let mut i: usize = 0;
    assert(a@.subrange(0, n as int) =~= a@);
    assert(b@.subrange(0, m as int) =~= b@);
    while i < n && i < m
        invariant
            n == a@.len(),
            m == b@.len(),
            i <= n,
            i <= m,
            lex_lt(a@, b@) == lex_lt(a@.subrange(i as int, n as int), b@.subrange(i as int, m as int)),
        decreases n - i,
    {
        let x = a.get_char(i);
        let y = b.get_char(i);
        let ghost sa = a@.subrange(i as int, n as int);
        let ghost sb = b@.subrange(i as int, m as int);
        assert(sa[0] == x && sb[0] == y);
        if x != y {
            return x < y;
        }
        assert(sa.drop_first() =~= a@.subrange(i + 1, n as int));
        assert(sb.drop_first() =~= b@.subrange(i + 1, m as int));
        i = i + 1;
    }
    i == n && i < m
}

fn key_less(a: &SortKey, b: &SortKey) -> (r: bool)
    ensures
        r == key_lt(key_view(*a), key_view(*b)),
{
    (a.is_dir && !b.is_dir) || (a.is_dir == b.is_dir && lex_less(a.name.as_str(), b.name.as_str()))
}

/// The permutation that sorts `keys` stably: directories first, then by name.
pub fn stable_order(keys: &Vec<SortKey>) -> (p: Vec<usize>)
    ensures
        is_stable_order(keys_view(keys@), p@),
{
    let ghost kv = keys_view(keys@);
    let n = keys.len();
    let mut res: Vec<usize> = Vec::new();
    let mut x: usize = 0;
    while x < n
        invariant
            n == keys@.len(),
            kv == keys_view(keys@),
            kv.len() == n,
            x <= n,
            res@.len() == x,
            forall|i: int| 0 <= i < res@.len() ==> (res@[i] as int) < x,
            forall|i: int, j: int| 0 <= i < j < res@.len() ==> res@[i] != res@[j],
            forall|i: int, j: int|
                0 <= i < j < res@.len() ==> key_lt(kv[res@[i] as int], kv[res@[j] as int]) || (
                kv[res@[i] as int] == kv[res@[j] as int] && res@[i] < res@[j]),
        decreases n - x,
    {
        let mut pos: usize = res.len();
        while pos > 0 && key_less(&keys[x], &keys[res[pos - 1]])
            invariant
                n == keys@.len(),
                kv == keys_view(keys@),
                kv.len() == n,
                x < n,
                pos <= res@.len(),
                forall|i: int| 0 <= i < res@.len() ==> (res@[i] as int) < x,
                forall|j: int| pos <= j < res@.len() ==> key_lt(kv[x as int], kv[res@[j] as int]),
            decreases pos,
        {
            pos = pos - 1;
        }
        proof {
            if pos > 0 {
                let a = kv[x as int];
                let b = kv[res@[pos - 1] as int];
                lemma_key_total(a, b);
            }
        }
        let ghost old_res = res@;
        res.insert(pos, x);
        proof {
            assert(res@ == old_res.insert(pos as int, x));
            assert forall|i: int| 0 <= i < res@.len() implies (res@[i] as int) < x + 1 by {
                if i < pos {
                    assert(res@[i] == old_res[i]);
                } else if i > pos {
                    assert(res@[i] == old_res[i - 1]);
                }
            }
            assert forall|i: int, j: int| 0 <= i < j < res@.len() implies res@[i] != res@[j] by {
                if i < pos && j < pos {
                    assert(res@[i] == old_res[i] && res@[j] == old_res[j]);
                } else if i < pos && j == pos {
                    assert(res@[i] == old_res[i]);
                } else if i < pos && j > pos {
                    assert(res@[i] == old_res[i] && res@[j] == old_res[j - 1]);
                } else if i == pos {
                    assert(res@[j] == old_res[j - 1]);
                } else {
                    assert(res@[i] == old_res[i - 1] && res@[j] == old_res[j - 1]);
                }
            }
            assert forall|i: int, j: int| 0 <= i < j < res@.len() implies key_lt(
                kv[res@[i] as int],
                kv[res@[j] as int],
            ) || (kv[res@[i] as int] == kv[res@[j] as int] && res@[i] < res@[j]) by {
                let kx = kv[x as int];
                if i < pos && j < pos {
                    assert(res@[i] == old_res[i] && res@[j] == old_res[j]);
                } else if i > pos && j > pos {
                    assert(res@[i] == old_res[i - 1] && res@[j] == old_res[j - 1]);
                } else if j == pos {
                    // i < pos: old_res[i] does not sort after x
                    assert(res@[i] == old_res[i]);
                    let ki = kv[old_res[i] as int];
                    let kp = kv[old_res[pos - 1] as int];
                    lemma_key_total(kx, kp);
                    lemma_key_total(ki, kp);
                    lemma_key_total(ki, kx);
                    if i < pos - 1 {
                        // ki is before or equal to kp, and kx is not before kp
                        if key_lt(kx, ki) {
                            if key_lt(ki, kp) {
                                lemma_key_transitive(kx, ki, kp);
                            }
                        }
                    }
                } else if i == pos {
                    // j > pos: x sorts before old_res[j - 1]
                    assert(res@[j] == old_res[j - 1]);
                } else {
                    // i < pos < j
                    assert(res@[i] == old_res[i] && res@[j] == old_res[j - 1]);
                }
            }
        }
        x = x + 1;
    }
    res
}

} // verus!
