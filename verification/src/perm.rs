//! Factorials and exhaustive permutation enumeration.
//!
//! The search space of the tour optimizer is the set of all orderings of the
//! waypoint set; this module produces that space exactly once per ordering.

use vstd::prelude::*;

verus! {

/// `n!` as a mathematical function.
pub open spec fn spec_factorial(n: nat) -> nat
    decreases n,
{
    if n == 0 {
        1
    } else {
        n * spec_factorial((n - 1) as nat)
    }
}

pub proof fn lemma_factorial_pos(n: nat)
    ensures
        spec_factorial(n) >= 1,
    decreases n,
{
    if n > 0 {
        lemma_factorial_pos((n - 1) as nat);
        assert(n * spec_factorial((n - 1) as nat) >= 1) by (nonlinear_arith)
            requires
                n >= 1,
                spec_factorial((n - 1) as nat) >= 1,
        ;
    }
}

pub proof fn lemma_factorial_monotonic(a: nat, b: nat)
    requires
        a <= b,
    ensures
        spec_factorial(a) <= spec_factorial(b),
    decreases b,
{
    if a < b {
        lemma_factorial_monotonic(a, (b - 1) as nat);
        lemma_factorial_pos((b - 1) as nat);
        assert(b * spec_factorial((b - 1) as nat) >= 1 * spec_factorial((b - 1) as nat))
            by (nonlinear_arith)
            requires
                b >= 1,
                spec_factorial((b - 1) as nat) >= 0,
        ;
    }
}

/// Computes `num!`. The caller must keep `num` small enough that the result
/// fits the counter type; exhaustive search over `num` waypoints is practical
/// only for very small `num` anyway.
pub fn factorial(num: u128) -> (r: u128)
    requires
        spec_factorial(num as nat) <= u128::MAX,
    ensures
        r == spec_factorial(num as nat),
{
    let mut acc: u128 = 1;
    let mut i: u128 = 0;
    while i < num
        invariant
            i <= num,
            acc == spec_factorial(i as nat),
            spec_factorial(num as nat) <= u128::MAX,
        decreases num - i,
    {
        i = i + 1;
        proof {
            lemma_factorial_monotonic(i as nat, num as nat);
            assert(spec_factorial(i as nat) == (i as nat) * spec_factorial((i - 1) as nat));
            assert(acc * i == (i as nat) * spec_factorial((i - 1) as nat)) by (nonlinear_arith)
                requires
                    acc == spec_factorial((i - 1) as nat),
                    i >= 1,
            ;
        }
        acc = acc * i;
    }
    acc
}

/// `s` is an ordering of the index set `{0, .., n-1}`: it has length `n`,
/// every entry is an index below `n`, no index repeats, and every index
/// appears.
pub open spec fn is_permutation(s: Seq<usize>, n: nat) -> bool {
    &&& s.len() == n
    &&& forall|i: int| 0 <= i < s.len() ==> (#[trigger] s[i]) < n
    &&& forall|i: int, j: int| 0 <= i < j < s.len() ==> s[i] != s[j]
    &&& forall|v: int| 0 <= v < n ==> #[trigger] s.contains(v as usize)
}

/// `s` occurs among the sequences held by `vs`.
pub open spec fn appears(vs: Seq<Vec<usize>>, s: Seq<usize>) -> bool {
    exists|k: int| 0 <= k < vs.len() && vs[k]@ == s
}

/// No sequence occurs twice among those held by `vs`.
pub open spec fn all_distinct(vs: Seq<Vec<usize>>) -> bool {
    forall|k1: int, k2: int| 0 <= k1 < k2 < vs.len() ==> (#[trigger] vs[k1])@ != (
    #[trigger] vs[k2])@
}

/// Every slot of `vs` holds the ordering obtained by inserting the index
/// `m` at position `b` of base ordering `a`, where the slot number encodes
/// the pair `(a, b)`; the encoding makes one slot per pair.
spec fn slots_filled(vs: Seq<Vec<usize>>, base: Seq<Vec<usize>>, m: usize) -> bool {
    forall|a: int, b: int|
        0 <= a < base.len() && 0 <= b <= m as int && a * (m as int + 1) + b < vs.len() ==> (
        #[trigger] vs[a * (m as int + 1) + b])@ == base[a]@.insert(b, m as usize)
}

/// The slot encoding is one-to-one: a slot number determines the pair.
proof fn lemma_slot_unique(a1: int, b1: int, a2: int, b2: int, w: int)
    requires
        w >= 1,
        0 <= b1 < w,
        0 <= b2 < w,
        0 <= a1,
        0 <= a2,
        a1 * w + b1 == a2 * w + b2,
    ensures
        a1 == a2,
        b1 == b2,
{
    assert(a1 == a2 && b1 == b2) by (nonlinear_arith)
        requires
            w >= 1,
            0 <= b1 < w,
            0 <= b2 < w,
            0 <= a1,
            0 <= a2,
            a1 * w + b1 == a2 * w + b2,
    ;
}

/// Every slot number below `len * w` decomposes into a pair.
proof fn lemma_slot_decompose(k: int, w: int, len: int)
    requires
        w >= 1,
        0 <= k,
        k < len * w,
    ensures
        0 <= k / w < len,
        0 <= k % w < w,
        k == (k / w) * w + (k % w),
{
    vstd::arithmetic::div_mod::lemma_fundamental_div_mod(k, w);
    vstd::arithmetic::div_mod::lemma_mod_bound(k, w);
    vstd::arithmetic::div_mod::lemma_div_pos_is_pos(k, w);
    assert(k == w * (k / w) + (k % w));
    assert((k / w) * w == w * (k / w)) by (nonlinear_arith);
    if k / w >= len {
        assert((k / w) * w >= len * w) by (nonlinear_arith)
            requires
                k / w >= len,
                w >= 1,
        ;
        assert(false);
    }
}

/// Insertion of the one missing index is injective: equal results force the
/// same base ordering and the same position.
proof fn lemma_insert_injective(p1: Seq<usize>, p2: Seq<usize>, b1: int, b2: int, n: nat)
    requires
        is_permutation(p1, n),
        is_permutation(p2, n),
        0 <= b1 <= p1.len(),
        0 <= b2 <= p2.len(),
        n < usize::MAX,
        p1.insert(b1, n as usize) == p2.insert(b2, n as usize),
    ensures
        p1 == p2,
        b1 == b2,
{
    let s1 = p1.insert(b1, n as usize);
    let s2 = p2.insert(b2, n as usize);
    p1.insert_ensures(b1, n as usize);
    p2.insert_ensures(b2, n as usize);
    if b1 < b2 {
        assert(s1[b1] == n as usize);
        assert(s2[b1] == p2[b1]);
        assert(p2[b1] < n);
        assert(false);
    }
    if b2 < b1 {
        assert(s2[b2] == n as usize);
        assert(s1[b2] == p1[b2]);
        assert(p1[b2] < n);
        assert(false);
    }
    assert forall|i: int| 0 <= i < p1.len() implies p1[i] == p2[i] by {
        if i < b1 {
            assert(s1[i] == p1[i]);
            assert(s2[i] == p2[i]);
        } else {
            assert(s1[i + 1] == p1[i]);
            assert(s2[i + 1] == p2[i]);
        }
    }
    assert(p1 =~= p2);
}

/// Removing an element and putting it back at the same place restores the
/// sequence.
proof fn lemma_remove_insert(s: Seq<usize>, i: int)
    requires
        0 <= i < s.len(),
    ensures
        s.remove(i).insert(i, s[i]) == s,
{
    s.remove_ensures(i);
    s.remove(i).insert_ensures(i, s[i]);
    assert(s.remove(i).insert(i, s[i]) =~= s);
}

/// Inserting the one missing index `n` anywhere into an ordering of
/// `{0, .., n-1}` yields an ordering of `{0, .., n}`.
proof fn lemma_insert_perm(t: Seq<usize>, n: nat, pos: int)
    requires
        is_permutation(t, n),
        0 <= pos <= t.len(),
        n < usize::MAX,
    ensures
        is_permutation(t.insert(pos, n as usize), n + 1),
{
    let r = t.insert(pos, n as usize);
    t.insert_ensures(pos, n as usize);
    assert forall|i: int| 0 <= i < r.len() implies (#[trigger] r[i]) < n + 1 by {
        if i < pos {
            assert(r[i] == t[i]);
        } else if i == pos {
        } else {
            assert(r[i] == t[i - 1]);
        }
    }
    assert forall|i: int, j: int| 0 <= i < j < r.len() implies r[i] != r[j] by {
        if i < pos {
            assert(r[i] == t[i]);
        } else if i > pos {
            assert(r[i] == t[i - 1]);
        }
        if j < pos {
            assert(r[j] == t[j]);
        } else if j > pos {
            assert(r[j] == t[j - 1]);
        }
    }
    assert forall|v: int| 0 <= v < n + 1 implies #[trigger] r.contains(v as usize) by {
        if v == n {
            assert(r[pos] == n as usize);
        } else {
            assert(t.contains(v as usize));
            let w = choose|k: int| 0 <= k < t.len() && t[k] == v as usize;
            if w < pos {
                assert(r[w] == t[w]);
            } else {
                assert(r[w + 1] == t[w]);
            }
        }
    }
}

/// Removing the largest index from an ordering of `{0, .., n}` leaves an
/// ordering of `{0, .., n-1}`.
proof fn lemma_remove_perm(s: Seq<usize>, n: nat, pos: int)
    requires
        is_permutation(s, n + 1),
        0 <= pos < s.len(),
        s[pos] == n as usize,
        n < usize::MAX,
    ensures
        is_permutation(s.remove(pos), n),
{
    let r = s.remove(pos);
    s.remove_ensures(pos);
    assert forall|i: int| 0 <= i < r.len() implies (#[trigger] r[i]) < n by {
        if i < pos {
            assert(r[i] == s[i]);
            assert(s[i] != s[pos]);
        } else {
            assert(r[i] == s[i + 1]);
            assert(s[i + 1] != s[pos]);
        }
    }
    assert forall|i: int, j: int| 0 <= i < j < r.len() implies r[i] != r[j] by {
        if i < pos {
            assert(r[i] == s[i]);
        } else {
            assert(r[i] == s[i + 1]);
        }
        if j < pos {
            assert(r[j] == s[j]);
        } else {
            assert(r[j] == s[j + 1]);
        }
    }
    assert forall|v: int| 0 <= v < n implies #[trigger] r.contains(v as usize) by {
        assert(s.contains(v as usize));
        let w = choose|k: int| 0 <= k < s.len() && s[k] == v as usize;
        assert(s[w] != s[pos]);
        if w < pos {
            assert(r[w] == s[w]);
        } else {
            assert(r[w - 1] == s[w]);
        }
    }
}

/// Copies a sequence of indices.
pub fn clone_indices(p: &Vec<usize>) -> (r: Vec<usize>)
    ensures
        r@ == p@,
{
    let r = p.clone();
    proof {
        assert(r@ =~= p@);
    }
    r
}

/// Produces every ordering of the index set `{0, .., n-1}` exactly once:
/// the result holds `n!` sequences, each an ordering of the full index set,
/// and every such ordering occurs among them.
pub fn permutations(n: usize) -> (r: Vec<Vec<usize>>)
    requires
        spec_factorial(n as nat) <= usize::MAX,
    ensures
        r@.len() == spec_factorial(n as nat),
        forall|k: int| 0 <= k < r@.len() ==> is_permutation(#[trigger] r@[k]@, n as nat),
        forall|s: Seq<usize>| is_permutation(s, n as nat) ==> appears(r@, s),
        all_distinct(r@),
{
    let mut result: Vec<Vec<usize>> = Vec::new();
    let empty: Vec<usize> = Vec::new();
    result.push(empty);
    proof {
        assert forall|s: Seq<usize>| is_permutation(s, 0nat) implies appears(result@, s) by {
            assert(result@[0]@ =~= s);
        }
    }
    let mut m: usize = 0;
    while m < n
        invariant
            m <= n,
            spec_factorial(n as nat) <= usize::MAX,
            result@.len() == spec_factorial(m as nat),
            forall|k: int| 0 <= k < result@.len() ==> is_permutation(#[trigger] result@[k]@, m as nat),
            forall|s: Seq<usize>| is_permutation(s, m as nat) ==> appears(result@, s),
            all_distinct(result@),
        decreases n - m,
    {
        let mut next: Vec<Vec<usize>> = Vec::new();
        let mut idx: usize = 0;
        while idx < result.len()
            invariant
                m < n,
                idx <= result@.len(),
                result@.len() == spec_factorial(m as nat),
                forall|k: int| 0 <= k < result@.len() ==> is_permutation(
                    #[trigger] result@[k]@,
                    m as nat,
                ),
                next@.len() == idx * (m as int + 1),
                forall|k: int| 0 <= k < next@.len() ==> is_permutation(
                    #[trigger] next@[k]@,
                    (m + 1) as nat,
                ),
                forall|a: int, b: int| 0 <= a < idx && 0 <= b <= m as int ==> appears(
                    next@,
                    #[trigger] result@[a]@.insert(b, m as usize),
                ),
                all_distinct(result@),
                slots_filled(next@, result@, m),
            decreases result@.len() - idx,
        {
            let p = clone_indices(&result[idx]);
            let ghost prev_next = next@;
            let mut pos: usize = 0;
            while pos <= p.len()
                invariant
                    m < n,
                    idx < result@.len(),
                    p@ == result@[idx as int]@,
                    is_permutation(p@, m as nat),
                    pos <= m + 1,
                    next@.len() == idx * (m as int + 1) + pos as int,
                    forall|k: int| 0 <= k < next@.len() ==> is_permutation(
                        #[trigger] next@[k]@,
                        (m + 1) as nat,
                    ),
                    forall|s: Seq<usize>| appears(prev_next, s) ==> appears(next@, s),
                    forall|b: int| 0 <= b < pos as int ==> appears(
                        next@,
                        #[trigger] p@.insert(b, m as usize),
                    ),
                    slots_filled(next@, result@, m),
                decreases m + 1 - pos,
            {
                let mut q = clone_indices(&p);
                q.insert(pos, m);
                proof {
                    lemma_insert_perm(p@, m as nat, pos as int);
                }
                let ghost before = next@;
                next.push(q);
                proof {
                    assert(next@ == before.push(next@[before.len() as int]));
                    assert(next@[before.len() as int]@ == p@.insert(pos as int, m as usize));
                    assert forall|s: Seq<usize>| appears(before, s) implies appears(next@, s) by {
                        let k = choose|k: int| 0 <= k < before.len() && before[k]@ == s;
                        assert(next@[k] == before[k]);
                    }
                    assert(appears(next@, p@.insert(pos as int, m as usize)));
                    assert forall|a: int, b: int|
                        0 <= a < result@.len() && 0 <= b <= m as int && a * (m as int + 1) + b
                            < next@.len() implies (#[trigger] next@[a * (m as int + 1) + b])@
                        == result@[a]@.insert(b, m as usize) by {
                        let k = a * (m as int + 1) + b;
                        if k < before.len() {
                            assert(next@[k] == before[k]);
                            assert(before[a * (m as int + 1) + b]@ == result@[a]@.insert(
                                b,
                                m as usize,
                            ));
                        } else {
                            assert(k == idx * (m as int + 1) + pos as int);
                            lemma_slot_unique(a, b, idx as int, pos as int, m as int + 1);
                            assert(next@[k]@ == result@[idx as int]@.insert(
                                pos as int,
                                m as usize,
                            ));
                        }
                    }
                    assert(slots_filled(next@, result@, m));
                }
                pos = pos + 1;
            }
            idx = idx + 1;
            proof {
                assert(next@.len() == (idx - 1) * (m as int + 1) + (m as int + 1));
                assert((idx - 1) * (m as int + 1) + (m as int + 1) == idx * (m as int + 1))
                    by (nonlinear_arith);
                assert forall|a: int, b: int| 0 <= a < idx && 0 <= b <= m as int implies appears(
                    next@,
                    #[trigger] result@[a]@.insert(b, m as usize),
                ) by {
                    if a < idx - 1 {
                        assert(appears(prev_next, result@[a]@.insert(b, m as usize)));
                    } else {
                        assert(result@[a]@ == p@);
                    }
                }
            }
        }
        proof {
            assert(next@.len() == spec_factorial(m as nat) * (m as int + 1));
            assert(spec_factorial((m + 1) as nat) == (m as nat + 1) * spec_factorial(m as nat));
            assert(spec_factorial(m as nat) * (m as int + 1) == (m as nat + 1) * spec_factorial(
                m as nat,
            )) by (nonlinear_arith);
            assert forall|s: Seq<usize>| is_permutation(s, (m + 1) as nat) implies appears(
                next@,
                s,
            ) by {
                assert(s.contains(m as usize));
                let pos = choose|j: int| 0 <= j < s.len() && s[j] == m as usize;
                let t = s.remove(pos);
                lemma_remove_perm(s, m as nat, pos);
                assert(appears(result@, t));
                let a = choose|k: int| 0 <= k < result@.len() && result@[k]@ == t;
                lemma_remove_insert(s, pos);
                assert(appears(next@, result@[a]@.insert(pos, m as usize)));
            }
            assert forall|k1: int, k2: int|
                0 <= k1 < k2 < next@.len() implies (#[trigger] next@[k1])@ != (
            #[trigger] next@[k2])@ by {
                let w = m as int + 1;
                lemma_slot_decompose(k1, w, result@.len() as int);
                lemma_slot_decompose(k2, w, result@.len() as int);
                let a1 = k1 / w;
                let b1 = k1 % w;
                let a2 = k2 / w;
                let b2 = k2 % w;
                assert(next@[a1 * w + b1]@ == result@[a1]@.insert(b1, m as usize));
                assert(next@[a2 * w + b2]@ == result@[a2]@.insert(b2, m as usize));
                if next@[k1]@ == next@[k2]@ {
                    lemma_insert_injective(result@[a1]@, result@[a2]@, b1, b2, m as nat);
                    if a1 < a2 {
                        assert(result@[a1]@ != result@[a2]@);
                    } else if a2 < a1 {
                        assert(result@[a2]@ != result@[a1]@);
                    }
                    assert(a1 == a2 && b1 == b2);
                    assert(false);
                }
            }
            assert(all_distinct(next@));
        }
        result = next;
        m = m + 1;
    }
    result
}

} // verus!
