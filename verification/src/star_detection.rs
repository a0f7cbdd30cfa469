use vstd::prelude::*;

use crate::errors::PipelineError;

verus! {

/// One decision of the sensitivity walk: probe again at a new sensitivity,
/// or stop at the given one.
#[derive(Clone, Copy, Debug, PartialEq, Eq, Structural)]
pub enum ProbeStep {
    Done(u8),
    Next(u8),
}

/// One step of the auto-tuning walk, from the current sensitivity and the
/// feature count the detector reported there: a count above the ceiling
/// pushes the sensitivity up by 2, a count below the target pulls it down
/// by 2 (clamping to the floor value 1 ends the walk at once), and a count
/// inside [target, ceiling] ends the walk successfully.
pub fn probe_step(sensitivity: u8, count: usize, target: usize, ceiling: usize) -> (r: ProbeStep)
    requires
        target <= ceiling,
        1 <= sensitivity,
    ensures
        target <= count <= ceiling ==> r == ProbeStep::Done(sensitivity),
        count > ceiling && sensitivity <= 253 ==> r == ProbeStep::Next((sensitivity + 2) as u8),
        count > ceiling && sensitivity > 253 ==> r == ProbeStep::Next(255u8),
        count < target && sensitivity <= 2 ==> r == ProbeStep::Done(1u8),
        count < target && sensitivity > 2 ==> r == ProbeStep::Next((sensitivity - 2) as u8),
{
    if count > ceiling {
        if sensitivity <= 253 {
            ProbeStep::Next(sensitivity + 2)
        } else {
            ProbeStep::Next(255)
        }
    } else if count < target {
        if sensitivity <= 2 {
            ProbeStep::Done(1)
        } else {
            ProbeStep::Next(sensitivity - 2)
        }
    } else {
        ProbeStep::Done(sensitivity)
    }
}

/// The rising phase of the walk: from sensitivity `s`, step up by 2 while
/// the count there is still above the ceiling, stopping at 254 at the
/// latest.
pub open spec fn climb(counts: Seq<usize>, ceiling: usize, s: int) -> int
    decreases 256 - s,
{
    if s >= 254 || counts[s] <= ceiling {
        s
    } else {
        climb(counts, ceiling, s + 2)
    }
}

/// The falling phase of the walk: from sensitivity `s`, step down by 2
/// while the count there is below the target; reaching the floor ends the
/// walk at the clamp value 1.
pub open spec fn descend(counts: Seq<usize>, target: usize, s: int) -> int
    decreases s,
{
    if s < 1 {
        1
    } else if counts[s] >= target {
        s
    } else if s <= 2 {
        1
    } else {
        descend(counts, target, s - 2)
    }
}

/// Where the whole walk, started mid-range at 100, comes to rest.
pub open spec fn probe_result(counts: Seq<usize>, target: usize, ceiling: usize) -> int {
    descend(counts, target, climb(counts, ceiling, 100))
}

/// Tunes the detector sensitivity towards a feature count in
/// [target, ceiling].  `counts[s]` is the count the detector reports at
/// sensitivity `s`; the walk starts mid-range at 100, rises by 2 while the
/// count is above the ceiling, then falls by 2 while it is below the
/// target, clamping at the floor.  A target above its ceiling is rejected.
pub fn probe_response_threshold(counts: &Vec<usize>, target: usize, ceiling: usize) -> (r: Result<
    u8,
    PipelineError,
>)
    requires
        counts@.len() == 256,
    ensures
        match r {
            Ok(s) => {
                &&& target <= ceiling
                &&& s == probe_result(counts@, target, ceiling)
                &&& 1 <= s <= 254
            },
            Err(e) => {
                &&& e == PipelineError::InvalidInput
                &&& target > ceiling
            },
        },
{
    if target > ceiling {
        return Err(PipelineError::InvalidInput);
    }
    let mut s: usize = 100;
    while s < 254 && counts[s] > ceiling
        invariant
            counts@.len() == 256,
            100 <= s <= 254,
            s % 2 == 0,
            climb(counts@, ceiling, 100) == climb(counts@, ceiling, s as int),
        decreases 254 - s,
    {
        s = s + 2;
    }
    proof {
        assert(climb(counts@, ceiling, s as int) == s);
    }
    while counts[s] < target
        invariant
            counts@.len() == 256,
            target <= ceiling,
            2 <= s <= 254,
            s % 2 == 0,
            probe_result(counts@, target, ceiling) == descend(counts@, target, s as int),
        decreases s,
    {
        if s <= 2 {
            proof {
                assert(descend(counts@, target, s as int) == 1);
            }
            return Ok(1);
        }
        s = s - 2;
    }
    Ok(s as u8)
}

/// A count profile under which stepping down from a too-low count can
/// never jump clear over the [target, ceiling] window.
pub open spec fn no_skip_down(counts: Seq<usize>, target: usize, ceiling: usize) -> bool {
    forall|s: int| 2 < s <= 254 && (#[trigger] counts[s]) < target ==> counts[s - 2] <= ceiling
}

proof fn lemma_climb_range(counts: Seq<usize>, ceiling: usize, s: int)
    requires
        0 <= s <= 254,
        s % 2 == 0,
    ensures
        s <= climb(counts, ceiling, s) <= 254,
        climb(counts, ceiling, s) % 2 == 0,
        counts[climb(counts, ceiling, s)] <= ceiling || climb(counts, ceiling, s) == 254,
    decreases 256 - s,
{
    if s >= 254 || counts[s] <= ceiling {
    } else {
        lemma_climb_range(counts, ceiling, s + 2);
    }
}

proof fn lemma_descend_window(counts: Seq<usize>, target: usize, ceiling: usize, s: int)
    requires
        target <= ceiling,
        2 <= s <= 254,
        s % 2 == 0,
        counts[s] <= ceiling,
        no_skip_down(counts, target, ceiling),
    ensures
        ({
            let d = descend(counts, target, s);
            &&& 1 <= d <= 254
            &&& (d == 1 || target <= counts[d] <= ceiling)
        }),
    decreases s,
{
    if counts[s] >= target {
    } else if s <= 2 {
    } else {
        assert(counts[s - 2] <= ceiling);
        lemma_descend_window(counts, target, ceiling, s - 2);
    }
}

/// ThresholdProbe convergence law: when the count at the top of the
/// sensitivity range is already within the ceiling (so the rising phase
/// cannot run off the scale) and stepping down from a too-low count never
/// jumps clear over the window, the walk comes to rest at a sensitivity
/// whose count lies in [target, ceiling] -- or at the floor value 1 when
/// no sensitivity above the floor reaches the target.
pub proof fn lemma_probe_convergence(counts: Seq<usize>, target: usize, ceiling: usize)
    requires
        counts.len() == 256,
        target <= ceiling,
        counts[254] <= ceiling,
        no_skip_down(counts, target, ceiling),
    ensures
        ({
            let s = probe_result(counts, target, ceiling);
            &&& 1 <= s <= 254
            &&& (s == 1 || target <= counts[s] <= ceiling)
        }),
{
    lemma_climb_range(counts, ceiling, 100);
    let c = climb(counts, ceiling, 100);
    assert(counts[c] <= ceiling);
    lemma_descend_window(counts, target, ceiling, c);
}

} // verus!
