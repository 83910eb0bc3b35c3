//! Paging through the chord diagrams one at a time, wrapping around at
//! either end.

use vstd::prelude::*;

verus! {

/// The image after `current` among `count`, the first after the last.
pub fn next_image(current: usize, count: usize) -> (r: usize)
    requires
        count > 0,
        current < usize::MAX,
    ensures
        r == (current + 1) % (count as int),
{
    (current + 1) % count
}

/// The image before `current` among `count`, the last before the first.
pub fn previous_image(current: usize, count: usize) -> (r: usize)
    requires
        current > 0 || count > 0,
    ensures
        r == if current == 0 {
            count - 1
        } else {
            current - 1
        },
{
    if current == 0 {
        count - 1
    } else {
        current - 1
    }
}

/// Paging forward and then back, or back and then forward, returns to the
/// image shown.
pub proof fn law_paging_round_trip(current: nat, count: nat)
    requires
        current < count,
    ensures
        ({
            let n = (current + 1) % count;
            (if n == 0 {
                count - 1
            } else {
                n - 1
            }) == current
        }),
        ({
            let p: int = if current == 0 {
                count - 1
            } else {
                current - 1
            };
            (p + 1) % (count as int) == current as int
        }),
{
    if current + 1 == count {
        vstd::arithmetic::div_mod::lemma_mod_self_0(count as int);
    } else {
        vstd::arithmetic::div_mod::lemma_small_mod((current + 1) as nat, count);
    }
    if current == 0 {
        vstd::arithmetic::div_mod::lemma_mod_self_0(count as int);
    } else {
        vstd::arithmetic::div_mod::lemma_small_mod(current, count);
    }
}

} // verus!
