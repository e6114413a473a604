use vstd::prelude::*;

verus! {

/// Millionths of a unit in one unit of boost.
pub open spec fn units() -> nat {
    1_000_000
}

/// Boost burnt while a component is active for `delta` microseconds, in millionths of a
/// unit: a full tank of 80 units lasts 0.93 s, so 8000/93 millionths per microsecond.
pub open spec fn depletion(delta: nat) -> nat {
    delta * 8000 / 93
}

/// The boost amount carried into the next frame, in millionths of a unit. A sampled byte
/// that differs from the one last reconciled replaces the carried amount; an active
/// component (odd flag byte) then burns boost for the elapsed time, down to zero.
pub open spec fn next_boost(
    sample: u8,
    last_sample: Option<u8>,
    carried: Option<u64>,
    active: u8,
    delta: u32,
) -> nat {
    let last = match last_sample {
        Some(l) => l,
        None => sample,
    };
    let base: nat = if sample == last {
        match carried {
            Some(c) => c as nat,
            None => 0,
        }
    } else {
        sample as nat * units()
    };
    if active % 2 == 1 {
        if base >= depletion(delta as nat) {
            (base - depletion(delta as nat)) as nat
        } else {
            0
        }
    } else {
        base
    }
}

/// One frame of the boost model for one boost component.
pub fn boost_step(
    sample: u8,
    last_sample: Option<u8>,
    carried: Option<u64>,
    active: u8,
    delta: u32,
) -> (r: u64)
    ensures
        r == next_boost(sample, last_sample, carried, active, delta),
{
    let last = match last_sample {
        Some(l) => l,
        None => sample,
    };
    let base: u64 = if sample == last {
        match carried {
            Some(c) => c,
            None => 0,
        }
    } else {
        sample as u64 * 1_000_000
    };
    if active % 2 == 1 {
        let burnt: u64 = delta as u64 * 8000 / 93;
        if base >= burnt {
            base - burnt
        } else {
            0
        }
    } else {
        base
    }
}

/// The boost model over one frame: with no new sample it stays put while the component is
/// idle and never rises while it is active; a new sample replaces the amount, less what an
/// active component burns in that frame; and it never drops below zero.
pub proof fn lemma_boost_law(
    sample: u8,
    last_sample: Option<u8>,
    carried: Option<u64>,
    active: u8,
    delta: u32,
)
    ensures
        ({
            let r = next_boost(sample, last_sample, carried, active, delta);
            let before: nat = match carried {
                Some(c) => c as nat,
                None => 0,
            };
            let changed = last_sample matches Some(l) && l != sample;
            &&& !changed && active % 2 == 0 ==> r == before
            &&& !changed && active % 2 == 1 ==> r <= before
            &&& changed && active % 2 == 0 ==> r == sample as nat * units()
            &&& changed && active % 2 == 1 ==> r == if sample as nat * units() >= depletion(
                delta as nat,
            ) {
                (sample as nat * units() - depletion(delta as nat)) as nat
            } else {
                0
            }
            &&& r >= 0
        }),
{
}

} // verus!
