use vstd::prelude::*;

use crate::session::take_result;

verus! {

/// The id counter after a run of writes that started at `start`: each
/// element of `outcomes` records whether one write succeeded. A successful
/// write consumes its id (`SessionCore::end_send_ok` advances the counter
/// by one); a failed write leaves the counter where it was
/// (`SessionCore::end_send_err`), so the write after it reuses the id.
/// Since `SessionCore::begin_send` assigns the counter's current value,
/// `id_after(start, outcomes.take(k))` is the id assigned to the `k`-th
/// write of the run.
pub open spec fn id_after(start: int, outcomes: Seq<bool>) -> int
    decreases outcomes.len(),
{
    if outcomes.len() == 0 {
        start
    } else if outcomes.last() {
        id_after(start, outcomes.drop_last()) + 1
    } else {
        id_after(start, outcomes.drop_last())
    }
}

/// The number of successful writes in a run.
pub open spec fn successes(outcomes: Seq<bool>) -> int
    decreases outcomes.len(),
{
    if outcomes.len() == 0 {
        0
    } else if outcomes.last() {
        successes(outcomes.drop_last()) + 1
    } else {
        successes(outcomes.drop_last())
    }
}

proof fn lemma_take_succ(outcomes: Seq<bool>, k: int)
    requires
        0 <= k < outcomes.len(),
    ensures
        outcomes.take(k + 1).drop_last() == outcomes.take(k),
        outcomes.take(k + 1).last() == outcomes[k],
{
    assert(outcomes.take(k + 1).drop_last() =~= outcomes.take(k));
}

/// Over a whole run, the counter moves up by exactly the number of
/// successful writes: every id an attempt is assigned is the starting id
/// plus the count of successes before it, and failures consume nothing.
pub proof fn lemma_id_counts_successes(start: int, outcomes: Seq<bool>)
    ensures
        id_after(start, outcomes) == start + successes(outcomes),
    decreases outcomes.len(),
{
    if outcomes.len() > 0 {
        lemma_id_counts_successes(start, outcomes.drop_last());
    }
}

/// A failed write does not consume an id: the attempt after it is assigned
/// the same id again.
pub proof fn lemma_failed_write_reuses_id(start: int, outcomes: Seq<bool>, k: int)
    requires
        0 <= k < outcomes.len(),
        !outcomes[k],
    ensures
        id_after(start, outcomes.take(k + 1)) == id_after(start, outcomes.take(k)),
{
    lemma_take_succ(outcomes, k);
}

/// A successful write consumes its id: the attempt after it is assigned
/// the id one above.
pub proof fn lemma_successful_write_advances_id(start: int, outcomes: Seq<bool>, k: int)
    requires
        0 <= k < outcomes.len(),
        outcomes[k],
    ensures
        id_after(start, outcomes.take(k + 1)) == id_after(start, outcomes.take(k)) + 1,
{
    lemma_take_succ(outcomes, k);
}

/// A stretch of failed writes leaves the counter untouched.
pub proof fn lemma_failures_preserve_id(start: int, outcomes: Seq<bool>, a: int, b: int)
    requires
        0 <= a <= b <= outcomes.len(),
        forall|k: int| a <= k < b ==> !outcomes[k],
    ensures
        id_after(start, outcomes.take(b)) == id_after(start, outcomes.take(a)),
    decreases b - a,
{
    if a < b {
        lemma_failed_write_reuses_id(start, outcomes, b - 1);
        lemma_failures_preserve_id(start, outcomes, a, b - 1);
    }
}

/// Ids of consecutive successful writes are consecutive integers: between
/// two successes with nothing but failures in between, the later write is
/// assigned the id directly above the earlier one's.
pub proof fn lemma_consecutive_successes(start: int, outcomes: Seq<bool>, i: int, j: int)
    requires
        0 <= i < j < outcomes.len(),
        outcomes[i],
        outcomes[j],
        forall|k: int| i < k < j ==> !outcomes[k],
    ensures
        id_after(start, outcomes.take(j)) == id_after(start, outcomes.take(i)) + 1,
{
    lemma_successful_write_advances_id(start, outcomes, i);
    lemma_failures_preserve_id(start, outcomes, i + 1, j);
}

/// The first successful write of a run is assigned the starting id itself
/// (0 on a fresh session): the failures before it consumed nothing.
pub proof fn lemma_first_success_gets_start(start: int, outcomes: Seq<bool>, j: int)
    requires
        0 <= j < outcomes.len(),
        outcomes[j],
        forall|k: int| 0 <= k < j ==> !outcomes[k],
    ensures
        id_after(start, outcomes.take(j)) == start,
{
    assert(outcomes.take(0) =~= Seq::<bool>::empty());
    lemma_failures_preserve_id(start, outcomes, 0, j);
}

/// The counter never moves backwards over a run.
pub proof fn lemma_id_monotone(start: int, outcomes: Seq<bool>, a: int, b: int)
    requires
        0 <= a <= b <= outcomes.len(),
    ensures
        id_after(start, outcomes.take(a)) <= id_after(start, outcomes.take(b)),
    decreases b - a,
{
    if a < b {
        lemma_take_succ(outcomes, b - 1);
        lemma_id_monotone(start, outcomes, a, b - 1);
    }
}

/// Successful writes never share an id: of two attempts that both
/// succeeded, the later was assigned a strictly greater id. Requests
/// submitted together and all written successfully therefore receive
/// pairwise distinct ids, and each reply is matched to its own request's
/// slot alone.
pub proof fn lemma_success_ids_distinct(start: int, outcomes: Seq<bool>, i: int, j: int)
    requires
        0 <= i < j < outcomes.len(),
        outcomes[i],
        outcomes[j],
    ensures
        id_after(start, outcomes.take(i)) < id_after(start, outcomes.take(j)),
{
    lemma_successful_write_advances_id(start, outcomes, i);
    lemma_id_monotone(start, outcomes, i + 1, j);
}

/// At-most-once delivery: while a request with id `id` is outstanding, a
/// frame carrying `id` withdraws exactly that request's slot
/// (`SessionCore::take_pending`), and a second frame with the same id then
/// finds nothing — it is routed to the handler and resolves no awaitable.
pub proof fn lemma_reply_delivered_once<S>(m: Map<i32, S>, id: i32)
    requires
        m.dom().contains(id),
    ensures
        take_result(m, id) == Some(m[id]),
        take_result(m.remove(id), id) is None,
{
}

/// One observable step of a session, as the write and read loops
/// interleave them on the shared core. Each variant is the state change
/// one `SessionCore` operation performs.
pub enum SessionStep<S> {
    /// `begin_send`: a dequeued request's slot is registered under the
    /// counter's id.
    BeginSend(S),
    /// `end_send_ok`: the frame reached the wire; the id is consumed.
    EndSendOk,
    /// `end_send_err`: the write failed; the slot just registered is
    /// discarded and the id is kept.
    EndSendErr,
    /// `take_pending`: a decoded frame carrying this id arrived.
    Frame(i32),
}

/// The abstract state the steps act on: the view of a `SessionCore`.
pub struct SessionState<S> {
    pub entries: Map<i32, S>,
    pub next_id: i32,
    pub mid_write: bool,
}

/// The invariant of `SessionCore::wf`, on the abstract state.
pub open spec fn state_wf<S>(st: SessionState<S>) -> bool {
    &&& 0 <= st.next_id
    &&& forall|k: i32|
        #[trigger] st.entries.dom().contains(k) ==> if st.mid_write {
            k <= st.next_id
        } else {
            k < st.next_id
        }
}

/// When a step can be taken: the `requires` of the operation it stands
/// for. The write loop begins a send only after concluding the one
/// before; a frame can arrive at any time.
pub open spec fn step_enabled<S>(st: SessionState<S>, e: SessionStep<S>) -> bool {
    match e {
        SessionStep::BeginSend(_) => !st.mid_write,
        SessionStep::EndSendOk => st.mid_write && st.next_id < i32::MAX,
        SessionStep::EndSendErr => st.mid_write,
        SessionStep::Frame(_) => true,
    }
}

/// The state change each step performs: exactly what the `ensures` of the
/// corresponding `SessionCore` operation states.
pub open spec fn step<S>(st: SessionState<S>, e: SessionStep<S>) -> SessionState<S> {
    match e {
        SessionStep::BeginSend(slot) => SessionState {
            entries: st.entries.insert(st.next_id, slot),
            next_id: st.next_id,
            mid_write: true,
        },
        SessionStep::EndSendOk => SessionState {
            entries: st.entries,
            next_id: (st.next_id + 1) as i32,
            mid_write: false,
        },
        SessionStep::EndSendErr => SessionState {
            entries: st.entries.remove(st.next_id),
            next_id: st.next_id,
            mid_write: false,
        },
        SessionStep::Frame(id) => SessionState {
            entries: st.entries.remove(id),
            next_id: st.next_id,
            mid_write: st.mid_write,
        },
    }
}

/// The state after a whole interleaving of steps.
pub open spec fn run<S>(st: SessionState<S>, trace: Seq<SessionStep<S>>) -> SessionState<S>
    decreases trace.len(),
{
    if trace.len() == 0 {
        st
    } else {
        step(run(st, trace.drop_last()), trace.last())
    }
}

/// Every step of the trace is enabled in the state it is taken from.
pub open spec fn trace_enabled<S>(st: SessionState<S>, trace: Seq<SessionStep<S>>) -> bool {
    forall|i: int|
        0 <= i < trace.len() ==> step_enabled(
            run(st, #[trigger] trace.take(i)),
            trace[i],
        )
}

proof fn lemma_take_of_drop_last<S>(trace: Seq<SessionStep<S>>, i: int)
    requires
        0 <= i <= trace.len() - 1,
    ensures
        trace.drop_last().take(i) == trace.take(i),
{
    assert(trace.drop_last().take(i) =~= trace.take(i));
}

proof fn lemma_trace_enabled_drop_last<S>(st: SessionState<S>, trace: Seq<SessionStep<S>>)
    requires
        trace.len() > 0,
        trace_enabled(st, trace),
    ensures
        trace_enabled(st, trace.drop_last()),
        step_enabled(run(st, trace.drop_last()), trace.last()),
{
    assert forall|i: int| 0 <= i < trace.drop_last().len() implies step_enabled(
        run(st, #[trigger] trace.drop_last().take(i)),
        trace.drop_last()[i],
    ) by {
        lemma_take_of_drop_last(trace, i);
        assert(step_enabled(run(st, trace.take(i)), trace[i]));
    }
    lemma_take_of_drop_last(trace, trace.len() - 1);
    assert(trace.take(trace.len() - 1) =~= trace.drop_last());
    assert(step_enabled(run(st, trace.take(trace.len() - 1)), trace[trace.len() - 1]));
}

/// Each enabled step preserves the invariant.
pub proof fn lemma_step_preserves_wf<S>(st: SessionState<S>, e: SessionStep<S>)
    requires
        state_wf(st),
        step_enabled(st, e),
    ensures
        state_wf(step(st, e)),
        st.next_id <= step(st, e).next_id,
{
}

/// The invariant holds along any enabled interleaving, and the counter
/// never moves backwards.
pub proof fn lemma_run_preserves_wf<S>(st: SessionState<S>, trace: Seq<SessionStep<S>>)
    requires
        state_wf(st),
        trace_enabled(st, trace),
    ensures
        state_wf(run(st, trace)),
        st.next_id <= run(st, trace).next_id,
    decreases trace.len(),
{
    if trace.len() > 0 {
        lemma_trace_enabled_drop_last(st, trace);
        lemma_run_preserves_wf(st, trace.drop_last());
        lemma_step_preserves_wf(run(st, trace.drop_last()), trace.last());
    }
}

/// A concluded request keeps its slot: once a request's write has
/// concluded (its entry is live under an id below the counter), no
/// interleaving of later submissions, write conclusions and frames
/// carrying other ids can displace, discard or replace its table entry.
pub proof fn lemma_pending_slot_preserved<S>(
    st: SessionState<S>,
    trace: Seq<SessionStep<S>>,
    id: i32,
)
    requires
        state_wf(st),
        trace_enabled(st, trace),
        st.entries.dom().contains(id),
        id < st.next_id,
        forall|i: int| 0 <= i < trace.len() ==> trace[i] != SessionStep::<S>::Frame(id),
    ensures
        run(st, trace).entries.dom().contains(id),
        run(st, trace).entries[id] == st.entries[id],
        id < run(st, trace).next_id,
    decreases trace.len(),
{
    if trace.len() > 0 {
        lemma_trace_enabled_drop_last(st, trace);
        assert forall|i: int| 0 <= i < trace.drop_last().len() implies trace.drop_last()[i]
            != SessionStep::<S>::Frame(id) by {
            assert(trace[i] != SessionStep::<S>::Frame(id));
        }
        lemma_pending_slot_preserved(st, trace.drop_last(), id);
        lemma_run_preserves_wf(st, trace.drop_last());
        lemma_step_preserves_wf(run(st, trace.drop_last()), trace.last());
        assert(trace[trace.len() - 1] != SessionStep::<S>::Frame(id));
    }
}

/// The write conclusions of a trace, in order: `true` for each write that
/// reached the wire, `false` for each that failed.
pub open spec fn write_outcomes<S>(trace: Seq<SessionStep<S>>) -> Seq<bool>
    decreases trace.len(),
{
    if trace.len() == 0 {
        Seq::empty()
    } else {
        let rest = write_outcomes(trace.drop_last());
        match trace.last() {
            SessionStep::EndSendOk => rest.push(true),
            SessionStep::EndSendErr => rest.push(false),
            _ => rest,
        }
    }
}

/// The two models agree: along any enabled interleaving, the counter —
/// and with it the id each `BeginSend` hands out — is `id_after` over
/// the trace's write conclusions alone. Frames and registrations do not
/// move it; all the run-level laws above therefore apply to full session
/// traces.
pub proof fn lemma_trace_ids_follow_outcomes<S>(st: SessionState<S>, trace: Seq<SessionStep<S>>)
    requires
        state_wf(st),
        trace_enabled(st, trace),
    ensures
        run(st, trace).next_id == id_after(st.next_id as int, write_outcomes(trace)),
    decreases trace.len(),
{
    if trace.len() > 0 {
        lemma_trace_enabled_drop_last(st, trace);
        lemma_trace_ids_follow_outcomes(st, trace.drop_last());
        lemma_run_preserves_wf(st, trace.drop_last());
        let rest = write_outcomes(trace.drop_last());
        match trace.last() {
            SessionStep::EndSendOk => {
                assert(rest.push(true).drop_last() =~= rest);
            },
            SessionStep::EndSendErr => {
                assert(rest.push(false).drop_last() =~= rest);
            },
            _ => {},
        }
    }
}

/// Exactly-once resolution under arbitrary interleaving: a request whose
/// write concluded stays matched to its own slot through any later
/// activity that does not carry its id; the first frame carrying its id
/// then withdraws exactly that slot, and a repeat of the same id matches
/// nothing — it is the handler's, and no awaitable resolves to it.
pub proof fn lemma_send_resolves_exactly_once<S>(
    st: SessionState<S>,
    trace: Seq<SessionStep<S>>,
    id: i32,
)
    requires
        state_wf(st),
        trace_enabled(st, trace),
        st.entries.dom().contains(id),
        id < st.next_id,
        forall|i: int| 0 <= i < trace.len() ==> trace[i] != SessionStep::<S>::Frame(id),
    ensures
        take_result(run(st, trace).entries, id) == Some(st.entries[id]),
        take_result(run(st, trace).entries.remove(id), id) is None,
{
    lemma_pending_slot_preserved(st, trace, id);
}

} // verus!
