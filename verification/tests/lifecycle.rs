use vcat_cli::protocol::{step, OwnerEvent, OwnerState};

#[test]
fn lifecycle_once_is_well_formed() {
    // Construct, transfer, receive, destroy: each transition is accepted and
    // the run ends reclaimed.
    let s = step(OwnerState::Unallocated, OwnerEvent::Construct);
    assert_eq!(s, Some(OwnerState::OwnedByProducer));
    let s = step(s.unwrap(), OwnerEvent::Transfer);
    assert_eq!(s, Some(OwnerState::Transferred));
    let s = step(s.unwrap(), OwnerEvent::Receive);
    assert_eq!(s, Some(OwnerState::OwnedByConsumer));
    let s = step(s.unwrap(), OwnerEvent::Destroy);
    assert_eq!(s, Some(OwnerState::Reclaimed));
}

#[test]
fn double_destroy_violates_the_protocol() {
    let s = step(OwnerState::OwnedByConsumer, OwnerEvent::Destroy).unwrap();
    assert_eq!(s, OwnerState::Reclaimed);
    assert_eq!(step(s, OwnerEvent::Destroy), None);
}

#[test]
fn read_after_destroy_violates_the_protocol() {
    let s = step(OwnerState::OwnedByConsumer, OwnerEvent::Destroy).unwrap();
    assert_eq!(step(s, OwnerEvent::Read), None);
}

#[test]
fn producer_alone_constructs_and_grows() {
    assert_eq!(
        step(OwnerState::Unallocated, OwnerEvent::Construct),
        Some(OwnerState::OwnedByProducer)
    );
    assert_eq!(
        step(OwnerState::OwnedByProducer, OwnerEvent::Grow),
        Some(OwnerState::OwnedByProducer)
    );
    // After the transfer the producer must not touch the value again.
    assert_eq!(step(OwnerState::Transferred, OwnerEvent::Grow), None);
    assert_eq!(step(OwnerState::Transferred, OwnerEvent::Destroy), None);
    // The consumer may read but not grow.
    assert_eq!(
        step(OwnerState::OwnedByConsumer, OwnerEvent::Read),
        Some(OwnerState::OwnedByConsumer)
    );
    assert_eq!(step(OwnerState::OwnedByConsumer, OwnerEvent::Grow), None);
    // Nothing touches an unallocated value.
    assert_eq!(step(OwnerState::Unallocated, OwnerEvent::Read), None);
}
