//! The ownership-transfer discipline of the interchange layer, as an explicit
//! state machine: who may touch a value, when it may cross the boundary, and
//! when it may be reclaimed. In the library itself the discipline is enforced
//! by move-only handles; this model states the discipline so that its rules
//! can be checked and tested on their own.

use vstd::prelude::*;

verus! {

/// The lifecycle states of an interchange value.
#[derive(Clone, Copy, PartialEq, Eq, Structural, Debug)]
pub enum OwnerState {
    Unallocated,
    OwnedByProducer,
    Transferred,
    OwnedByConsumer,
    Reclaimed,
}

/// The operations performed on an interchange value.
#[derive(Clone, Copy, PartialEq, Eq, Structural, Debug)]
pub enum OwnerEvent {
    Construct,
    Grow,
    Transfer,
    Receive,
    Read,
    Destroy,
}

/// The transition relation of the discipline: the state after `e` happens in
/// state `s`, or nothing when the operation violates the protocol.
///
/// Only the producer constructs and grows; a transferred value may only be
/// taken up by the consumer; only the consumer, once it holds the value,
/// reads or destroys it; a reclaimed value allows nothing further.
pub open spec fn spec_step(s: OwnerState, e: OwnerEvent) -> Option<OwnerState> {
    match (s, e) {
        (OwnerState::Unallocated, OwnerEvent::Construct) => Some(OwnerState::OwnedByProducer),
        (OwnerState::OwnedByProducer, OwnerEvent::Grow) => Some(OwnerState::OwnedByProducer),
        (OwnerState::OwnedByProducer, OwnerEvent::Read) => Some(OwnerState::OwnedByProducer),
        (OwnerState::OwnedByProducer, OwnerEvent::Transfer) => Some(OwnerState::Transferred),
        (OwnerState::Transferred, OwnerEvent::Receive) => Some(OwnerState::OwnedByConsumer),
        (OwnerState::OwnedByConsumer, OwnerEvent::Read) => Some(OwnerState::OwnedByConsumer),
        (OwnerState::OwnedByConsumer, OwnerEvent::Destroy) => Some(OwnerState::Reclaimed),
        _ => None,
    }
}

/// Decides `spec_step`.
pub fn step(s: OwnerState, e: OwnerEvent) -> (r: Option<OwnerState>)
    ensures
        r == spec_step(s, e),
{
    match (s, e) {
        (OwnerState::Unallocated, OwnerEvent::Construct) => Some(OwnerState::OwnedByProducer),
        (OwnerState::OwnedByProducer, OwnerEvent::Grow) => Some(OwnerState::OwnedByProducer),
        (OwnerState::OwnedByProducer, OwnerEvent::Read) => Some(OwnerState::OwnedByProducer),
        (OwnerState::OwnedByProducer, OwnerEvent::Transfer) => Some(OwnerState::Transferred),
        (OwnerState::Transferred, OwnerEvent::Receive) => Some(OwnerState::OwnedByConsumer),
        (OwnerState::OwnedByConsumer, OwnerEvent::Read) => Some(OwnerState::OwnedByConsumer),
        (OwnerState::OwnedByConsumer, OwnerEvent::Destroy) => Some(OwnerState::Reclaimed),
        _ => None,
    }
}

/// The state after a whole sequence of operations, or nothing as soon as one
/// of them violates the protocol.
pub open spec fn run(s: OwnerState, es: Seq<OwnerEvent>) -> Option<OwnerState>
    decreases es.len(),
{
    if es.len() == 0 {
        Some(s)
    } else {
        match spec_step(s, es[0]) {
            Some(s2) => run(s2, es.skip(1)),
            None => None,
        }
    }
}

/// A construct–transfer–receive–destroy sequence executed exactly once is
/// well formed: starting from nothing it ends, without a violation, in the
/// reclaimed state.
pub proof fn lemma_lifecycle_once()
    ensures
        run(
            OwnerState::Unallocated,
            seq![
                OwnerEvent::Construct,
                OwnerEvent::Transfer,
                OwnerEvent::Receive,
                OwnerEvent::Destroy,
            ],
        ) == Some(OwnerState::Reclaimed),
{
    let es = seq![
        OwnerEvent::Construct,
        OwnerEvent::Transfer,
        OwnerEvent::Receive,
        OwnerEvent::Destroy,
    ];
    let es1 = seq![OwnerEvent::Transfer, OwnerEvent::Receive, OwnerEvent::Destroy];
    let es2 = seq![OwnerEvent::Receive, OwnerEvent::Destroy];
    let es3 = seq![OwnerEvent::Destroy];
    assert(es.skip(1) =~= es1);
    assert(es1.skip(1) =~= es2);
    assert(es2.skip(1) =~= es3);
    assert(es3.skip(1) =~= Seq::<OwnerEvent>::empty());
    assert(run(OwnerState::Unallocated, es) == run(OwnerState::OwnedByProducer, es1));
    assert(run(OwnerState::OwnedByProducer, es1) == run(OwnerState::Transferred, es2));
    assert(run(OwnerState::Transferred, es2) == run(OwnerState::OwnedByConsumer, es3));
    assert(run(OwnerState::OwnedByConsumer, es3) == run(
        OwnerState::Reclaimed,
        Seq::<OwnerEvent>::empty(),
    ));
}

/// Nothing may happen to a reclaimed value: in particular a second
/// destruction, and any read after destruction, violate the protocol.
pub proof fn lemma_reclaimed_is_terminal(e: OwnerEvent)
    ensures
        spec_step(OwnerState::Reclaimed, e) is None,
{
}

/// Destroying twice violates the protocol, wherever the two destructions
/// stand in the sequence of operations performed by the consumer.
pub proof fn lemma_double_destroy_refused(es: Seq<OwnerEvent>)
    requires
        exists|i: int, j: int|
            0 <= i < j < es.len() && es[i] == OwnerEvent::Destroy && es[j] == OwnerEvent::Destroy,
    ensures
        run(OwnerState::OwnedByConsumer, es) is None,
{
    let (i, j) = choose|i: int, j: int|
        0 <= i < j < es.len() && es[i] == OwnerEvent::Destroy && es[j] == OwnerEvent::Destroy;
    lemma_run_stops_after_destroy(OwnerState::OwnedByConsumer, es, i, j);
}

/// Reading after destruction violates the protocol.
pub proof fn lemma_read_after_destroy_refused(es: Seq<OwnerEvent>)
    requires
        exists|i: int, j: int|
            0 <= i < j < es.len() && es[i] == OwnerEvent::Destroy && es[j] == OwnerEvent::Read,
    ensures
        run(OwnerState::OwnedByConsumer, es) is None,
{
    let (i, j) = choose|i: int, j: int|
        0 <= i < j < es.len() && es[i] == OwnerEvent::Destroy && es[j] == OwnerEvent::Read;
    lemma_run_stops_after_destroy(OwnerState::OwnedByConsumer, es, i, j);
}

/// After a destruction at position `i`, any later operation at all makes the
/// run a violation: the destruction either is itself refused or leaves the
/// terminal state, which refuses whatever comes next.
proof fn lemma_run_stops_after_destroy(s: OwnerState, es: Seq<OwnerEvent>, i: int, j: int)
    requires
        0 <= i < j < es.len(),
        es[i] == OwnerEvent::Destroy,
    ensures
        run(s, es) is None,
    decreases es.len(),
{
    if i == 0 {
        match spec_step(s, es[0]) {
            Some(s2) => {
                assert(s2 == OwnerState::Reclaimed);
                lemma_run_refused_from_reclaimed(es.skip(1));
            },
            None => {},
        }
    } else {
        match spec_step(s, es[0]) {
            Some(s2) => {
                assert(es.skip(1)[i - 1] == es[i]);
                lemma_run_stops_after_destroy(s2, es.skip(1), i - 1, j - 1);
            },
            None => {},
        }
    }
}

/// From the reclaimed state any non-empty sequence of operations is refused.
proof fn lemma_run_refused_from_reclaimed(es: Seq<OwnerEvent>)
    requires
        es.len() > 0,
    ensures
        run(OwnerState::Reclaimed, es) is None,
{
}

} // verus!
