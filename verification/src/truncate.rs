//! Overflow truncation of the series' power tables.
//!
//! The power tables hold `a^i` and `b^i * pi` for `i = 0 ..= n`. Building
//! them, the caller checks after every step `i >= 1` whether multiplying
//! the fresh scaled power by the scan's magnitude bound stays finite, and
//! records the outcome as a flag. The effective term count is decided here,
//! from those flags alone: it is the index of the first failing step, or
//! the full requested count when every step stays finite.

use vstd::prelude::*;

verus! {

/// The effective term count encoded by a sequence of finiteness flags:
/// `flags[j]` reports that step `j + 1` of the power table stayed finite,
/// and the result is the number of leading `true` flags.
pub open spec fn spec_effective_terms(flags: Seq<bool>) -> int
    decreases flags.len(),
{
    if flags.len() == 0 {
        0
    } else if !flags[0] {
        0
    } else {
        1 + spec_effective_terms(flags.drop_first())
    }
}

/// The effective term count never exceeds the requested term count.
pub proof fn lemma_effective_terms_bounds(flags: Seq<bool>)
    ensures
        0 <= spec_effective_terms(flags) <= flags.len(),
    decreases flags.len(),
{
    if flags.len() != 0 && flags[0] {
        lemma_effective_terms_bounds(flags.drop_first());
    }
}

/// The effective term count is exactly the position of the first `false`
/// flag, or the number of flags when none is `false`.
pub proof fn lemma_effective_terms_first_false(flags: Seq<bool>, k: int)
    requires
        0 <= k <= flags.len(),
        forall|j: int| 0 <= j < k ==> flags[j],
        k < flags.len() ==> !flags[k],
    ensures
        spec_effective_terms(flags) == k,
    decreases flags.len(),
{
    if flags.len() == 0 || k == 0 {
    } else {
        assert(flags[0]);
        assert forall|j: int| 0 <= j < k - 1 implies flags.drop_first()[j] by {
            assert(flags[j + 1]);
        }
        lemma_effective_terms_first_false(flags.drop_first(), k - 1);
    }
}

/// Decides how many terms of the series may be summed, given one
/// finiteness flag per power table step: the count stops right before the
/// first step that overflowed, and equals `flags.len()` when none did.
pub fn effective_term_count(flags: &Vec<bool>) -> (k: usize)
    ensures
        k == spec_effective_terms(flags@),
        k <= flags@.len(),
        forall|j: int| 0 <= j < k ==> flags@[j],
        k < flags@.len() ==> !flags@[k as int],
{
    let mut i: usize = 0;
    while i < flags.len()
        invariant
            i <= flags@.len(),
            forall|j: int| 0 <= j < i ==> flags@[j],
        decreases flags@.len() - i,
    {
        if !flags[i] {
            proof {
                lemma_effective_terms_first_false(flags@, i as int);
            }
            return i;
        }
        i = i + 1;
    }
    proof {
        lemma_effective_terms_first_false(flags@, flags@.len() as int);
    }
    i
}

/// Truncation is monotone in the scan's magnitude bound. When the scan
/// shrinks, a power table step that stayed finite under the old, larger
/// bound still stays finite under the new one; given that pointwise
/// implication between the two flag sequences, the effective term count
/// under the smaller bound is never below the one under the larger bound.
pub proof fn lemma_truncation_monotone(wide: Seq<bool>, narrow: Seq<bool>)
    requires
        wide.len() == narrow.len(),
        forall|j: int| 0 <= j < wide.len() ==> (wide[j] ==> narrow[j]),
    ensures
        spec_effective_terms(wide) <= spec_effective_terms(narrow),
    decreases wide.len(),
{
    lemma_effective_terms_bounds(narrow);
    if wide.len() != 0 && wide[0] {
        assert(narrow[0]);
        assert forall|j: int|
            0 <= j < wide.drop_first().len() && wide.drop_first()[j] implies narrow.drop_first()[j] by {
            assert(wide[j + 1]);
            assert(narrow.drop_first()[j] == narrow[j + 1]);
        }
        lemma_truncation_monotone(wide.drop_first(), narrow.drop_first());
    }
}

} // verus!
