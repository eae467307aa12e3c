use conncore::connections::{Connection, ConnectionSide, PeerAddr, SlotError};

fn addr_a() -> PeerAddr {
    PeerAddr { ip: 0x7f_00_00_01, port: 4130 }
}

#[test]
fn complement_swaps_the_sides() {
    assert_eq!(ConnectionSide::Initiator.not(), ConnectionSide::Responder);
    assert_eq!(ConnectionSide::Responder.not(), ConnectionSide::Initiator);
}

#[test]
fn complement_is_its_own_inverse() {
    for side in [ConnectionSide::Initiator, ConnectionSide::Responder] {
        assert_eq!(side.not().not(), side);
    }
}

#[test]
fn new_handle_has_transport_and_empty_slots() {
    let conn: Connection<u8, u8, u8> =
        Connection::new(addr_a(), 7, ConnectionSide::Responder);
    assert_eq!(conn.addr(), addr_a());
    assert_eq!(conn.side(), ConnectionSide::Responder);
    assert!(conn.has_stream());
    assert!(!conn.has_reader());
    assert!(!conn.has_writer());
    assert!(!conn.has_readiness_notifier());
    assert_eq!(conn.num_tasks(), 0);
}

#[test]
fn transport_is_claimed_exactly_once() {
    let mut conn: Connection<u8, u8, u8> =
        Connection::new(addr_a(), 7, ConnectionSide::Initiator);
    assert_eq!(conn.take_stream(), Ok(7));
    assert!(!conn.has_stream());
    assert_eq!(conn.take_stream(), Err(SlotError::AlreadyTaken));
}

#[test]
fn reader_slot_double_claim_is_rejected() {
    let mut conn: Connection<u8, u8, u8> =
        Connection::new(addr_a(), 7, ConnectionSide::Initiator);
    assert_eq!(conn.take_stream(), Ok(7));
    conn.install_reader(3);
    assert!(conn.has_reader());
    assert_eq!(conn.take_reader(), Ok(3));
    // A second claim of the same slot on the same handle must be rejected
    // loudly, not answered with an empty capability.
    assert_eq!(conn.take_reader(), Err(SlotError::AlreadyTaken));
}

#[test]
fn writer_slot_double_claim_is_rejected() {
    let mut conn: Connection<u8, u8, u8> =
        Connection::new(addr_a(), 7, ConnectionSide::Initiator);
    assert_eq!(conn.take_stream(), Ok(7));
    conn.install_writer(4);
    assert_eq!(conn.take_writer(), Ok(4));
    assert_eq!(conn.take_writer(), Err(SlotError::AlreadyTaken));
}

#[test]
fn unclaimed_slots_report_already_taken() {
    let mut conn: Connection<u8, u8, u8> =
        Connection::new(addr_a(), 7, ConnectionSide::Initiator);
    assert_eq!(conn.take_reader(), Err(SlotError::AlreadyTaken));
    assert_eq!(conn.take_writer(), Err(SlotError::AlreadyTaken));
}

#[test]
fn readiness_notifier_fires_once() {
    let rt = tokio::runtime::Runtime::new().unwrap();
    let mut conn: Connection<u8, u8, u8> =
        Connection::new(addr_a(), 7, ConnectionSide::Initiator);

    let (tx, rx) = tokio::sync::oneshot::channel();
    conn.set_readiness_notifier(tx);
    assert!(conn.has_readiness_notifier());

    let notifier = conn.take_readiness_notifier();
    assert!(notifier.is_some());
    notifier.unwrap().send(()).unwrap();
    rt.block_on(rx).unwrap();

    // The signal is one-shot: once disarmed, nothing is left to take.
    assert!(conn.take_readiness_notifier().is_none());
}

#[test]
fn tasks_are_recorded_and_drained_in_order() {
    let rt = tokio::runtime::Runtime::new().unwrap();
    let mut conn: Connection<u8, u8, u8> =
        Connection::new(addr_a(), 7, ConnectionSide::Initiator);

    let first = rt.spawn(async {});
    let second = rt.spawn(async {});
    conn.append_task(first);
    assert_eq!(conn.num_tasks(), 1);
    conn.append_task(second);
    assert_eq!(conn.num_tasks(), 2);

    let drained = conn.take_tasks();
    assert_eq!(drained.len(), 2);
    assert_eq!(conn.num_tasks(), 0);
    for task in drained {
        rt.block_on(task).unwrap();
    }
}
