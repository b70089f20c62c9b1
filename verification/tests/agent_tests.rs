use agent_handles::Agent;
use agent_handles::Timestamp;

fn ts(year: u16, month: u8, day: u8, hour: u8, minute: u8, second: u8) -> Timestamp {
    Timestamp::from_parts(year, month, day, hour, minute, second).unwrap()
}

#[test]
fn constructed_record_has_canonical_shape() {
    let t1 = ts(2024, 5, 17, 12, 0, 0);
    let t2 = ts(2024, 5, 17, 12, 0, 1);
    let a = Agent::new(42, t1, t2);
    assert_eq!(a.id, 42);
    assert_eq!(a.transactions_closed, 0);
    assert_eq!(a.transactions_open, 0);
    assert_eq!(a.transaction_queue.len(), 2);
    assert_eq!(a.transaction_queue[0].id, 1);
    assert_eq!(a.transaction_queue[0].transaction_date, t1);
    assert_eq!(a.transaction_queue[1].id, 2);
    assert_eq!(a.transaction_queue[1].transaction_date, t2);
}

#[test]
fn fresh_record_is_in_range_and_shaped() {
    for _ in 0..100 {
        let a = Agent::fresh();
        assert!(a.id <= 1000);
        assert_eq!(a.transactions_closed, 0);
        assert_eq!(a.transactions_open, 0);
        assert_eq!(a.transaction_queue.len(), 2);
        assert_eq!(a.transaction_queue[0].id, 1);
        assert_eq!(a.transaction_queue[1].id, 2);
    }
}

#[test]
fn timestamp_rejects_out_of_range_parts() {
    assert!(Timestamp::from_parts(2024, 13, 1, 0, 0, 0).is_none());
    assert!(Timestamp::from_parts(2024, 0, 1, 0, 0, 0).is_none());
    assert!(Timestamp::from_parts(2024, 1, 32, 0, 0, 0).is_none());
    assert!(Timestamp::from_parts(2024, 1, 0, 0, 0, 0).is_none());
    assert!(Timestamp::from_parts(2024, 1, 1, 24, 0, 0).is_none());
    assert!(Timestamp::from_parts(2024, 1, 1, 0, 60, 0).is_none());
    assert!(Timestamp::from_parts(2024, 1, 1, 0, 0, 60).is_none());
    assert!(Timestamp::from_parts(0, 1, 1, 0, 0, 0).is_none());
    assert!(Timestamp::from_parts(10000, 1, 1, 0, 0, 0).is_none());
    assert!(Timestamp::from_parts(9999, 12, 31, 23, 59, 59).is_some());
}

#[test]
fn clock_yields_well_formed_timestamps() {
    let t = agent_handles::now_timestamp();
    assert!((1..=9999).contains(&t.year));
    assert!((1..=12).contains(&t.month));
    assert!((1..=31).contains(&t.day));
    assert!(t.hour <= 23);
    assert!(t.minute <= 59);
    assert!(t.second <= 59);
}

#[test]
fn random_ids_stay_in_range() {
    for _ in 0..1000 {
        assert!(agent_handles::random_record_id() <= 1000);
    }
}
