use conncore::status::{RawStatus, Status};

const ALL: [Status; 5] = [
    Status::Ready,
    Status::Peering,
    Status::Syncing,
    Status::ShuttingDown,
    Status::Unknown,
];

#[test]
fn new_starts_peering() {
    let status = RawStatus::new();
    assert_eq!(status.get(), Status::Peering);
    assert!(status.is_peering());
    assert!(!status.is_ready());
    assert!(!status.is_syncing());
    assert!(!status.is_shutting_down());
}

#[test]
fn from_status_stores_given_value() {
    for s in ALL {
        let status = RawStatus::from_status(s);
        assert_eq!(status.get(), s);
    }
}

#[test]
fn update_then_get_returns_updated_value() {
    let status = RawStatus::new();
    for s in ALL {
        status.update(s);
        assert_eq!(status.get(), s);
    }
}

#[test]
fn codes_are_stable() {
    assert_eq!(Status::Ready.as_code(), 0);
    assert_eq!(Status::Peering.as_code(), 1);
    assert_eq!(Status::Syncing.as_code(), 2);
    assert_eq!(Status::ShuttingDown.as_code(), 3);
    assert_eq!(Status::Unknown.as_code(), 4);
}

#[test]
fn decoding_round_trips_every_variant() {
    for s in ALL {
        assert_eq!(Status::from_code(s.as_code()), s);
    }
}

#[test]
fn out_of_range_codes_decode_to_unknown() {
    assert_eq!(Status::from_code(4), Status::Unknown);
    assert_eq!(Status::from_code(5), Status::Unknown);
    assert_eq!(Status::from_code(42), Status::Unknown);
    assert_eq!(Status::from_code(255), Status::Unknown);
}

#[test]
fn names_render_the_variant() {
    assert_eq!(Status::Ready.name(), "Ready");
    assert_eq!(Status::Peering.name(), "Peering");
    assert_eq!(Status::Syncing.name(), "Syncing");
    assert_eq!(Status::ShuttingDown.name(), "ShuttingDown");
    assert_eq!(Status::Unknown.name(), "Unknown");
}

#[test]
fn predicates_match_get() {
    let status = RawStatus::new();
    status.update(Status::Ready);
    assert!(status.is_ready());
    assert!(!status.is_peering());
    status.update(Status::Syncing);
    assert!(status.is_syncing());
    status.update(Status::ShuttingDown);
    assert!(status.is_shutting_down());
}

#[test]
fn clones_share_the_same_cell() {
    let status = RawStatus::new();
    let other = status.clone();
    status.update(Status::Ready);
    assert_eq!(other.get(), Status::Ready);
    other.update(Status::ShuttingDown);
    assert_eq!(status.get(), Status::ShuttingDown);
}

#[test]
fn update_is_visible_to_a_thread_started_afterwards() {
    let rt = tokio::runtime::Runtime::new().unwrap();
    let status = RawStatus::new();

    let writer = status.clone();
    rt.block_on(async move {
        tokio::task::spawn_blocking(move || writer.update(Status::Ready))
            .await
            .unwrap();
    });

    // This worker starts only after the update above completed on another
    // thread; it must observe the new value immediately.
    let reader = status.clone();
    let seen = rt.block_on(async move {
        tokio::task::spawn_blocking(move || reader.get()).await.unwrap()
    });
    assert_eq!(seen, Status::Ready);
    assert_eq!(status.get(), Status::Ready);
}
