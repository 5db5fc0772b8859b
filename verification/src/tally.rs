//! Counting the marked positions of a sequence.

use vstd::prelude::*;

verus! {

/// The number of positions of `s` that hold `true`.
pub open spec fn count_true(s: Seq<bool>) -> nat
    decreases s.len(),
{
    if s.len() == 0 {
        0
    } else {
        count_true(s.drop_last()) + if s.last() {
            1nat
        } else {
            0nat
        }
    }
}

/// Positions marked in `a` and in `m`.
pub open spec fn both(a: Seq<bool>, m: Seq<bool>) -> Seq<bool> {
    Seq::new(a.len(), |i: int| a[i] && m[i])
}

/// Positions marked in `a` and not in `m`.
pub open spec fn only(a: Seq<bool>, m: Seq<bool>) -> Seq<bool> {
    Seq::new(a.len(), |i: int| a[i] && !m[i])
}

pub proof fn lemma_count_bound(s: Seq<bool>)
    ensures
        count_true(s) <= s.len(),
    decreases s.len(),
{
    if s.len() > 0 {
        lemma_count_bound(s.drop_last());
    }
}

pub proof fn lemma_count_push(s: Seq<bool>, b: bool)
    ensures
        count_true(s.push(b)) == count_true(s) + if b {
            1nat
        } else {
            0nat
        },
{
    assert(s.push(b).drop_last() =~= s);
}

/// Changing one position changes the count by what that position held and holds.
pub proof fn lemma_count_update(s: Seq<bool>, k: int, b: bool)
    requires
        0 <= k < s.len(),
    ensures
        count_true(s.update(k, b)) + (if s[k] {
            1nat
        } else {
            0nat
        }) == count_true(s) + (if b {
            1nat
        } else {
            0nat
        }),
    decreases s.len(),
{
    let t = s.update(k, b);
    if k == s.len() - 1 {
        assert(t.drop_last() =~= s.drop_last());
    } else {
        assert(t.drop_last() =~= s.drop_last().update(k, b));
        lemma_count_update(s.drop_last(), k, b);
    }
}

/// The count is zero exactly when no position is marked.
pub proof fn lemma_count_zero(s: Seq<bool>)
    ensures
        count_true(s) == 0 <==> (forall|i: int| 0 <= i < s.len() ==> !s[i]),
    decreases s.len(),
{
    if s.len() > 0 {
        let r = s.drop_last();
        lemma_count_zero(r);
        if count_true(s) == 0 {
            assert forall|i: int| 0 <= i < s.len() implies !s[i] by {
                if i < r.len() {
                    assert(r[i] == s[i]);
                }
            }
        }
        if forall|i: int| 0 <= i < s.len() ==> !s[i] {
            assert forall|i: int| 0 <= i < r.len() implies !r[i] by {
                assert(r[i] == s[i]);
            }
            assert(!s.last());
        }
    }
}

/// A sequence without marks counts zero.
pub proof fn lemma_count_none(s: Seq<bool>)
    requires
        forall|i: int| 0 <= i < s.len() ==> !s[i],
    ensures
        count_true(s) == 0,
{
    lemma_count_zero(s);
}

/// A sequence with every position marked counts its length.
pub proof fn lemma_count_all(s: Seq<bool>)
    requires
        forall|i: int| 0 <= i < s.len() ==> s[i],
    ensures
        count_true(s) == s.len(),
    decreases s.len(),
{
    if s.len() > 0 {
        lemma_count_all(s.drop_last());
    }
}

/// The marks of `a` split into those inside `m` and those outside it.
pub proof fn lemma_count_split(a: Seq<bool>, m: Seq<bool>)
    requires
        a.len() == m.len(),
    ensures
        count_true(a) == count_true(both(a, m)) + count_true(only(a, m)),
    decreases a.len(),
{
    if a.len() > 0 {
        lemma_count_split(a.drop_last(), m.drop_last());
        assert(both(a, m).drop_last() =~= both(a.drop_last(), m.drop_last()));
        assert(only(a, m).drop_last() =~= only(a.drop_last(), m.drop_last()));
    }
}

} // verus!
