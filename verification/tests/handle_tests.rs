use agent_handles::Agent;
use agent_handles::SharedHandle;
use agent_handles::SingleHandle;
use agent_handles::Timestamp;

fn ts(year: u16, month: u8, day: u8, hour: u8, minute: u8, second: u8) -> Timestamp {
    Timestamp::from_parts(year, month, day, hour, minute, second).unwrap()
}

fn sample_agent(id: u16) -> Agent {
    Agent::new(id, ts(2024, 5, 17, 12, 0, 0), ts(2024, 5, 17, 12, 0, 1))
}

#[test]
fn single_owner_count_is_clones_plus_one() {
    let original = SingleHandle::wrap(sample_agent(7));
    assert_eq!(original.live_count(), 1);
    let k = 5;
    let mut clones = Vec::new();
    for _ in 0..k {
        clones.push(original.clone_handle());
    }
    assert_eq!(original.live_count(), k + 1);
    drop(clones);
    assert_eq!(original.live_count(), 1);
}

#[test]
fn multi_owner_count_is_clones_plus_one() {
    let original = SharedHandle::wrap(sample_agent(7));
    assert_eq!(original.live_count(), 1);
    let k = 5;
    let mut clones = Vec::new();
    for _ in 0..k {
        clones.push(original.clone_handle());
    }
    assert_eq!(original.live_count(), k + 1);
    drop(clones);
    assert_eq!(original.live_count(), 1);
}

#[test]
fn all_handles_observe_identical_fields() {
    let original = SingleHandle::wrap(sample_agent(321));
    let clone_a = original.clone_handle();
    let clone_b = clone_a.clone_handle();
    for h in [&original, &clone_a, &clone_b] {
        let a = h.read();
        assert_eq!(a.id, 321);
        assert_eq!(a.transactions_closed, 0);
        assert_eq!(a.transactions_open, 0);
        assert_eq!(a.transaction_queue.len(), 2);
    }
    assert_eq!(original.render_json(), clone_a.render_json());
    assert_eq!(clone_a.render_json(), clone_b.render_json());
}

#[test]
fn two_clones_render_identically_and_release_cleanly() {
    let original = SingleHandle::wrap(sample_agent(42));
    let clone1 = original.clone_handle();
    let clone2 = original.clone_handle();
    let text0 = original.render_json();
    let text1 = clone1.render_json();
    let text2 = clone2.render_json();
    assert_eq!(text0, text1);
    assert_eq!(text0, text2);
    assert_eq!(original.live_count(), 3);
    drop(clone1);
    drop(clone2);
    assert_eq!(original.live_count(), 1);
}

#[test]
fn shared_clones_release_back_to_one() {
    let original = SharedHandle::wrap(sample_agent(9));
    let mut worker_handles = Vec::new();
    for _ in 0..6 {
        worker_handles.push(original.clone_handle());
    }
    assert_eq!(original.live_count(), 7);
    drop(worker_handles);
    assert_eq!(original.live_count(), 1);
}
