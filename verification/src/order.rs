//! Lexicographic order on character sequences and a stable sort by keys.
use vstd::prelude::*;

verus! {

/// `a` comes no later than `b` in code-point order, which is the order of
/// `String`'s `Ord` (byte order of UTF-8 equals code-point order).
pub open spec fn lex_le(a: Seq<char>, b: Seq<char>) -> bool
    decreases a.len(),
{
    if a.len() == 0 {
        true
    } else if b.len() == 0 {
        false
    } else if a[0] != b[0] {
        a[0] < b[0]
    } else {
        lex_le(a.drop_first(), b.drop_first())
    }
}

/// Any two sequences are comparable.
pub proof fn lemma_lex_total(a: Seq<char>, b: Seq<char>)
    ensures
        lex_le(a, b) || lex_le(b, a),
    decreases a.len(),
{
    if a.len() > 0 && b.len() > 0 && a[0] == b[0] {
        lemma_lex_total(a.drop_first(), b.drop_first());
    }
}

/// The order is transitive.
pub proof fn lemma_lex_trans(a: Seq<char>, b: Seq<char>, c: Seq<char>)
    requires
        lex_le(a, b),
        lex_le(b, c),
    ensures
        lex_le(a, c),
    decreases a.len(),
{
    if a.len() > 0 && b.len() > 0 && c.len() > 0 && a[0] == b[0] && b[0] == c[0] {
        lemma_lex_trans(a.drop_first(), b.drop_first(), c.drop_first());
    }
}

/// The order is antisymmetric.
pub proof fn lemma_lex_antisym(a: Seq<char>, b: Seq<char>)
    requires
        lex_le(a, b),
        lex_le(b, a),
    ensures
        a == b,
    decreases a.len(),
{
    if a.len() == 0 {
        assert(b.len() == 0);
        assert(a =~= b);
    } else {
        assert(b.len() > 0);
        assert(a[0] == b[0]);
        lemma_lex_antisym(a.drop_first(), b.drop_first());
        assert(a =~= seq![a[0]] + a.drop_first());
        assert(b =~= seq![b[0]] + b.drop_first());
    }
}

/// The order is reflexive.
pub proof fn lemma_lex_refl(a: Seq<char>)
    ensures
        lex_le(a, a),
    decreases a.len(),
{
    if a.len() > 0 {
        lemma_lex_refl(a.drop_first());
    }
}

/// Whether `a` comes no later than `b`.
pub fn lex_le_exec(a: &Vec<char>, b: &Vec<char>) -> (r: bool)
    ensures
        r == lex_le(a@, b@),
{
    let mut i: usize = 0;
    assert(a@.skip(0) =~= a@);
    assert(b@.skip(0) =~= b@);
    while i < a.len() && i < b.len() && a[i] == b[i]
        invariant
            i <= a.len(),
            i <= b.len(),
            lex_le(a@, b@) == lex_le(a@.skip(i as int), b@.skip(i as int)),
        decreases a.len() - i,
    {
        assert(a@.skip(i as int).drop_first() =~= a@.skip(i + 1));
        assert(b@.skip(i as int).drop_first() =~= b@.skip(i + 1));
        i = i + 1;
    }
    if i == a.len() {
        true
    } else if i == b.len() {
        false
    } else {
        a[i] < b[i]
    }
}

/// `perm` lists each index below `n` exactly once.
pub open spec fn is_permutation(perm: Seq<usize>, n: nat) -> bool {
    &&& perm.len() == n
    &&& forall|i: int| 0 <= i < perm.len() ==> #[trigger] perm[i] < n
    &&& forall|i: int, j: int| 0 <= i < j < perm.len() ==> perm[i] != perm[j]
}

/// Taking `keys` in the order `perm` gives ascending keys, and equal keys keep
/// their relative order in the input: the order that a stable sort by key gives.
pub open spec fn is_stable_sorted_order(keys: Seq<Seq<char>>, perm: Seq<usize>) -> bool {
    &&& is_permutation(perm, keys.len())
    &&& forall|i: int, j: int|
        0 <= i < j < perm.len() ==> lex_le(#[trigger] keys[perm[i] as int], #[trigger] keys[perm[j] as int])
    &&& forall|i: int, j: int|
        0 <= i < j < perm.len() && keys[perm[i] as int] == keys[perm[j] as int] ==> perm[i] < perm[j]
}

/// The order in which a stable sort by `keys` places the items.
pub fn stable_sorted_order(keys: &Vec<Vec<char>>) -> (perm: Vec<usize>)
    ensures
        is_stable_sorted_order(keys@.map_values(|k: Vec<char>| k@), perm@),
{
    let ghost kv = keys@.map_values(|k: Vec<char>| k@);
    let mut perm: Vec<usize> = Vec::new();
    let mut k: usize = 0;
    while k < keys.len()
        invariant
            k <= keys.len(),
            kv == keys@.map_values(|k: Vec<char>| k@),
            perm.len() == k,
            forall|i: int| 0 <= i < perm.len() ==> #[trigger] perm@[i] < k,
            forall|i: int, j: int| 0 <= i < j < perm.len() ==> perm@[i] != perm@[j],
            forall|i: int, j: int|
                0 <= i < j < perm.len() ==> lex_le(#[trigger] kv[perm@[i] as int], #[trigger] kv[perm@[j] as int]),
            forall|i: int, j: int|
                0 <= i < j < perm.len() && kv[perm@[i] as int] == kv[perm@[j] as int] ==> perm@[i] < perm@[j],
        decreases keys.len() - k,
    {
        let mut p: usize = perm.len();
        while p > 0 && !lex_le_exec(&keys[perm[p - 1]], &keys[k])
            invariant
                p <= perm.len(),
                perm.len() == k,
                k < keys.len(),
                kv == keys@.map_values(|k: Vec<char>| k@),
                forall|i: int| 0 <= i < perm.len() ==> #[trigger] perm@[i] < k,
                forall|i: int| p <= i < perm.len() ==> !lex_le(#[trigger] kv[perm@[i] as int], kv[k as int]),
            decreases p,
        {
            p = p - 1;
        }
        proof {
            // everything before p is no later than the new key
            assert forall|i: int| 0 <= i < p implies lex_le(#[trigger] kv[perm@[i] as int], kv[k as int]) by {
                if i < p - 1 {
                    lemma_lex_trans(kv[perm@[i] as int], kv[perm@[p - 1] as int], kv[k as int]);
                }
            }
            // everything from p on is strictly later than the new key
            assert forall|i: int| p <= i < perm.len() implies lex_le(kv[k as int], #[trigger] kv[perm@[i] as int])
                && kv[k as int] != kv[perm@[i] as int] by {
                lemma_lex_total(kv[k as int], kv[perm@[i] as int]);
                if kv[k as int] == kv[perm@[i] as int] {
                    lemma_lex_refl(kv[k as int]);
                }
            }
        }
        let ghost old_perm = perm@;
        perm.insert(p, k);
        proof {
            assert forall|i: int, j: int| 0 <= i < j < perm.len() implies lex_le(
                #[trigger] kv[perm@[i] as int],
                #[trigger] kv[perm@[j] as int],
            ) by {
                if i < p && j < p {
                } else if i < p && j == p {
                } else if i < p && j > p {
                    assert(perm@[j] == old_perm[j - 1]);
                    lemma_lex_trans(kv[perm@[i] as int], kv[k as int], kv[perm@[j] as int]);
                } else if i == p {
                    assert(perm@[j] == old_perm[j - 1]);
                } else {
                    assert(perm@[i] == old_perm[i - 1]);
                    assert(perm@[j] == old_perm[j - 1]);
                }
            }
            assert forall|i: int, j: int|
                0 <= i < j < perm.len() && kv[perm@[i] as int] == kv[perm@[j] as int] implies perm@[i]
                < perm@[j] by {
                if i < p && j < p {
                } else if j == p {
                } else if i == p {
                    assert(perm@[j] == old_perm[j - 1]);
                } else if i < p {
                    assert(perm@[j] == old_perm[j - 1]);
                } else {
                    assert(perm@[i] == old_perm[i - 1]);
                    assert(perm@[j] == old_perm[j - 1]);
                }
            }
            assert forall|i: int| 0 <= i < perm.len() implies #[trigger] perm@[i] < k + 1 by {
                if i > p {
                    assert(perm@[i] == old_perm[i - 1]);
                }
            }
            assert forall|i: int, j: int| 0 <= i < j < perm.len() implies perm@[i] != perm@[j] by {
                if i > p {
                    assert(perm@[i] == old_perm[i - 1]);
                }
                if j > p {
                    assert(perm@[j] == old_perm[j - 1]);
                }
            }
        }
        k = k + 1;
    }
    perm
}

/// `r` holds the elements of `src` in the order `perm`.
pub open spec fn arranged<T>(src: Seq<T>, perm: Seq<usize>, r: Seq<T>) -> bool {
    &&& r.len() == perm.len()
    &&& forall|i: int| 0 <= i < r.len() ==> #[trigger] r[i] == src[perm[i] as int]
}

/// `x` comes strictly before `y` in the order of a stable sort by `keys`:
/// a smaller key, or the same key and an earlier position.
pub open spec fn placed_before(keys: Seq<Seq<char>>, x: int, y: int) -> bool {
    ||| (lex_le(keys[x], keys[y]) && keys[x] != keys[y])
    ||| (keys[x] == keys[y] && x < y)
}

proof fn lemma_placed_before_total(keys: Seq<Seq<char>>, x: int, y: int)
    requires
        x != y,
    ensures
        placed_before(keys, x, y) || placed_before(keys, y, x),
        !(placed_before(keys, x, y) && placed_before(keys, y, x)),
{
    lemma_lex_total(keys[x], keys[y]);
    if lex_le(keys[x], keys[y]) && lex_le(keys[y], keys[x]) {
        lemma_lex_antisym(keys[x], keys[y]);
    }
}

proof fn lemma_sorted_places_before(keys: Seq<Seq<char>>, perm: Seq<usize>, i: int, j: int)
    requires
        is_stable_sorted_order(keys, perm),
        0 <= i < j < perm.len(),
    ensures
        placed_before(keys, perm[i] as int, perm[j] as int),
{
    assert(lex_le(keys[perm[i] as int], keys[perm[j] as int]));
}

/// Every index below `n` occurs in a permutation of `n` indices.
proof fn lemma_permutation_covers(perm: Seq<usize>, n: nat, a: int)
    requires
        is_permutation(perm, n),
        0 <= a < n,
    ensures
        exists|k: int| 0 <= k < perm.len() && perm[k] as int == a,
{
    let ip = perm.map_values(|x: usize| x as int);
    assert forall|i: int, j: int| 0 <= i < ip.len() && 0 <= j < ip.len() && i != j implies ip[i] != ip[j] by {
        if i < j {
            assert(perm[i] != perm[j]);
        } else {
            assert(perm[j] != perm[i]);
        }
    }
    assert(ip.no_duplicates());
    ip.unique_seq_to_set();
    vstd::set_lib::lemma_int_range(0, n as int);
    let range = vstd::set_lib::set_int_range(0, n as int);
    assert forall|x: int| ip.to_set().contains(x) implies range.contains(x) by {
        let k = choose|k: int| 0 <= k < ip.len() && ip[k] == x;
        assert(perm[k] < n);
    }
    assert(ip.to_set().subset_of(range));
    vstd::set_lib::lemma_subset_equality(ip.to_set(), range);
    assert(range.contains(a));
    assert(ip.to_set().contains(a));
    let k = choose|k: int| 0 <= k < ip.len() && ip[k] == a;
    assert(perm[k] as int == a);
}

proof fn lemma_orders_agree_upto(keys: Seq<Seq<char>>, p: Seq<usize>, q: Seq<usize>, m: int)
    requires
        is_stable_sorted_order(keys, p),
        is_stable_sorted_order(keys, q),
        0 <= m <= p.len(),
    ensures
        forall|j: int| 0 <= j < m ==> p[j] == q[j],
    decreases m,
{
    if m > 0 {
        lemma_orders_agree_upto(keys, p, q, m - 1);
        let i = m - 1;
        let a = p[i] as int;
        let b = q[i] as int;
        if a != b {
            lemma_placed_before_total(keys, a, b);
            if placed_before(keys, a, b) {
                lemma_permutation_covers(q, keys.len(), a);
                let k = choose|k: int| 0 <= k < q.len() && q[k] as int == a;
                if k < i {
                    assert(p[k] == q[k]);
                    assert(p[k] != p[i]);
                } else {
                    assert(k != i);
                    lemma_sorted_places_before(keys, q, i, k);
                }
            } else {
                lemma_permutation_covers(p, keys.len(), b);
                let k = choose|k: int| 0 <= k < p.len() && p[k] as int == b;
                if k < i {
                    assert(p[k] == q[k]);
                    assert(q[k] != q[i]);
                } else {
                    assert(k != i);
                    lemma_sorted_places_before(keys, p, i, k);
                }
            }
        }
    }
}

/// Sorting is deterministic: for given keys there is exactly one stable
/// sorted order, so the items it arranges come out the same every time.
pub proof fn law_stable_order_unique<T>(
    keys: Seq<Seq<char>>,
    items: Seq<T>,
    p: Seq<usize>,
    q: Seq<usize>,
    r1: Seq<T>,
    r2: Seq<T>,
)
    requires
        is_stable_sorted_order(keys, p),
        is_stable_sorted_order(keys, q),
        arranged(items, p, r1),
        arranged(items, q, r2),
    ensures
        p == q,
        r1 == r2,
{
    lemma_orders_agree_upto(keys, p, q, p.len() as int);
    assert(p =~= q);
    assert(r1 =~= r2);
}

} // verus!
