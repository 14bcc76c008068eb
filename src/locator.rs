use vstd::prelude::*;

verus! {

/// Once more than this many locator entries are emitted, the spacing between
/// entries doubles with each new one.
pub const LOCATOR_DENSE_ENTRIES: u64 = 10;

/// The spacing after `emitted` entries: doubled past the dense entries, and
/// kept once doubling would leave the integer range.
pub open spec fn next_step(step: u64, emitted: nat) -> u64 {
    if emitted > LOCATOR_DENSE_ENTRIES && step <= u64::MAX / 2 {
        (step * 2) as u64
    } else {
        step
    }
}

/// The heights a locator names, starting at `height` with spacing `step`,
/// after `emitted` entries: back towards genesis, which ends it.
pub open spec fn locator_from(height: u64, step: u64, emitted: nat) -> Seq<u64>
    decreases height,
{
    if height == 0 || step == 0 {
        seq![0u64]
    } else {
        let next = if height > step {
            (height - step) as u64
        } else {
            0u64
        };
        seq![height] + locator_from(next, next_step(step, emitted + 1), emitted + 1)
    }
}

/// The heights of the locator for a tip at `tip`: one block apart for the
/// first entries, then geometrically spaced, down to genesis.
pub open spec fn locator_spec(tip: u64) -> Seq<u64> {
    locator_from(tip, 1, 0)
}

/// The strictly decreasing order of a locator.
pub open spec fn strictly_decreasing(s: Seq<u64>) -> bool {
    forall|i: int, j: int| 0 <= i < j < s.len() ==> s[i] > s[j]
}

proof fn lemma_locator_from_shape(height: u64, step: u64, emitted: nat)
    requires
        step > 0,
    ensures
        locator_from(height, step, emitted).len() > 0,
        locator_from(height, step, emitted)[0] == height,
        locator_from(height, step, emitted).last() == 0,
        strictly_decreasing(locator_from(height, step, emitted)),
        forall|i: int|
            0 <= i < locator_from(height, step, emitted).len() ==> #[trigger] locator_from(
                height,
                step,
                emitted,
            )[i] <= height,
    decreases height,
{
    if height != 0 {
        let next = if height > step {
            (height - step) as u64
        } else {
            0u64
        };
        let ns = next_step(step, emitted + 1);
        lemma_locator_from_shape(next, ns, emitted + 1);
        let rest = locator_from(next, ns, emitted + 1);
        let all = seq![height] + rest;
        assert(locator_from(height, step, emitted) == all);
        assert forall|i: int, j: int| 0 <= i < j < all.len() implies all[i] > all[j] by {
            if i == 0 {
                assert(all[j] == rest[j - 1]);
            } else {
                assert(all[i] == rest[i - 1] && all[j] == rest[j - 1]);
            }
        }
        assert forall|i: int| 0 <= i < all.len() implies #[trigger] all[i] <= height by {
            if i > 0 {
                assert(all[i] == rest[i - 1]);
            }
        }
    }
}

/// Locator heights for our tip begin at the tip, fall strictly, and end at
/// genesis.
pub proof fn lemma_locator_monotonic(tip: u64)
    ensures
        locator_spec(tip).len() > 0,
        locator_spec(tip)[0] == tip,
        locator_spec(tip).last() == 0,
        strictly_decreasing(locator_spec(tip)),
{
    lemma_locator_from_shape(tip, 1, 0);
}

/// The heights whose hashes make the locator of a tip at height `tip`.
pub fn locator_heights(tip: u64) -> (r: Vec<u64>)
    ensures
        r@ == locator_spec(tip),
        r@.len() > 0,
        r@[0] == tip,
        r@.last() == 0,
        strictly_decreasing(r@),
{
    proof {
        lemma_locator_monotonic(tip);
    }
    let mut r: Vec<u64> = Vec::new();
    let mut height: u64 = tip;
    let mut step: u64 = 1;
    let mut emitted: u64 = 0;
    while height != 0
        invariant
            step > 0,
            emitted as nat == r@.len(),
            emitted as int + height as int <= tip as int,
            r@ + locator_from(height, step, emitted as nat) == locator_spec(tip),
        decreases height,
    {
        let ghost before = r@;
        r.push(height);
        let next = if height > step {
            height - step
        } else {
            0
        };
        proof {
            assert(locator_from(height, step, emitted as nat) == seq![height] + locator_from(
                next,
                next_step(step, emitted as nat + 1),
                emitted as nat + 1,
            ));
            assert(r@ + locator_from(next, next_step(step, emitted as nat + 1), emitted as nat + 1)
                =~= before + locator_from(height, step, emitted as nat));
        }
        emitted = emitted + 1;
        if emitted > LOCATOR_DENSE_ENTRIES && step <= u64::MAX / 2 {
            step = step * 2;
        }
        height = next;
    }
    r.push(0);
    assert(r@ =~= locator_spec(tip));
    r
}

} // verus!
