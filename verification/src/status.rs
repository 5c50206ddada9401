//! The status panel's processor history: a window of the latest usage samples.
use crate::data::Unorm16x2;
use vstd::prelude::*;

verus! {

/// How many samples a processor's history holds.
pub const HISTORY_SAMPLES: usize = 32;

/// Records a sample in a processor's history: the oldest falls off the front and the new one
/// comes in at the back.
pub fn push_history(history: &mut [Unorm16x2; HISTORY_SAMPLES], sample: Unorm16x2)
    ensures
        final(history)@ == old(history)@.subrange(1, HISTORY_SAMPLES as int).push(sample),
{
    let ghost before = history@;
    let mut k: usize = 1;
    while k < HISTORY_SAMPLES
        invariant
            1 <= k <= HISTORY_SAMPLES,
            history@.len() == HISTORY_SAMPLES,
            forall|i: int| 0 <= i < k - 1 ==> #[trigger] history@[i] == before[i + 1],
            forall|i: int| k - 1 <= i < HISTORY_SAMPLES ==> #[trigger] history@[i] == before[i],
        decreases HISTORY_SAMPLES - k,
    {
        let moved = history[k];
        history[k - 1] = moved;
        k += 1;
    }
    history[HISTORY_SAMPLES - 1] = sample;
    assert(history@ =~= before.subrange(1, HISTORY_SAMPLES as int).push(sample));
}

/// After a full window of samples the history holds exactly those samples, oldest first.
pub proof fn lemma_history_window(history: Seq<Unorm16x2>, samples: Seq<Unorm16x2>)
    requires
        history.len() == HISTORY_SAMPLES,
        samples.len() == HISTORY_SAMPLES,
    ensures
        recorded(history, samples) == samples,
{
    lemma_recorded_keeps_last(history, samples);
    assert(history.add(samples).subrange(samples.len() as int, (history.len() + samples.len()) as int) =~= samples);
}

/// The history after recording each of the samples in turn.
pub open spec fn recorded(history: Seq<Unorm16x2>, samples: Seq<Unorm16x2>) -> Seq<Unorm16x2>
    decreases samples.len(),
{
    if samples.len() == 0 {
        history
    } else {
        let earlier = recorded(history, samples.drop_last());
        earlier.subrange(1, earlier.len() as int).push(samples.last())
    }
}

/// Recording keeps the history's length and shows the last of the history and the samples.
proof fn lemma_recorded_keeps_last(history: Seq<Unorm16x2>, samples: Seq<Unorm16x2>)
    requires
        history.len() > 0,
    ensures
        recorded(history, samples) == history.add(samples).subrange(
            samples.len() as int,
            (history.len() + samples.len()) as int,
        ),
    decreases samples.len(),
{
    if samples.len() > 0 {
        lemma_recorded_keeps_last(history, samples.drop_last());
        let whole = history.add(samples);
        let before = history.add(samples.drop_last());
        assert(before =~= whole.drop_last());
        let earlier = recorded(history, samples.drop_last());
        assert(earlier.subrange(1, earlier.len() as int).push(samples.last()) =~= whole.subrange(
            samples.len() as int,
            (history.len() + samples.len()) as int,
        ));
    }
}

} // verus!
