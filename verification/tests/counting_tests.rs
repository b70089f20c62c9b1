use agent_handles::HandleEvent;
use agent_handles::replay_count;

fn balanced(n: usize, lag: usize) -> Vec<HandleEvent> {
    // Emits n clones and n releases; each release trails its clone by
    // `lag` positions, so no prefix ever releases more than was cloned.
    let mut events = Vec::new();
    let mut released = 0;
    for i in 0..n {
        events.push(HandleEvent::Cloned);
        if i >= lag {
            events.push(HandleEvent::Released);
            released += 1;
        }
    }
    while released < n {
        events.push(HandleEvent::Released);
        released += 1;
    }
    events
}

#[test]
fn k_clones_count_to_k_plus_one() {
    for k in [0usize, 1, 2, 5, 100] {
        let events = vec![HandleEvent::Cloned; k];
        assert_eq!(replay_count(&events), Some(k + 1));
    }
}

#[test]
fn balanced_histories_always_end_at_one() {
    for n in [0usize, 1, 6, 100] {
        for interleave in 0..10 {
            let events = balanced(n, interleave);
            assert_eq!(replay_count(&events), Some(1), "n={n} interleave={interleave}");
        }
    }
}

#[test]
fn many_trials_of_varied_interleavings_never_deviate() {
    // A deterministic sweep standing in for repeated scheduling variation:
    // every prefix-valid interleaving pattern of 6 clones and 6 releases
    // must land back at exactly 1.
    let n = 6;
    for trial in 0..1000 {
        let mut events = Vec::new();
        let mut cloned = 0;
        let mut released = 0;
        let mut seed = trial;
        while cloned < n || released < n {
            let pick_clone = cloned < n && (released == cloned || seed % 2 == 0);
            if pick_clone {
                events.push(HandleEvent::Cloned);
                cloned += 1;
            } else {
                events.push(HandleEvent::Released);
                released += 1;
            }
            seed = seed / 2 + 7 * (seed % 2) + 1;
        }
        assert_eq!(replay_count(&events), Some(1), "trial={trial}");
    }
}

#[test]
fn alternating_clone_release_stays_at_one() {
    let mut events = Vec::new();
    for _ in 0..100 {
        events.push(HandleEvent::Cloned);
        events.push(HandleEvent::Released);
    }
    assert_eq!(replay_count(&events), Some(1));
}

#[test]
fn releasing_the_original_is_not_a_valid_history() {
    assert_eq!(replay_count(&vec![HandleEvent::Released]), None);
    assert_eq!(
        replay_count(&vec![
            HandleEvent::Cloned,
            HandleEvent::Released,
            HandleEvent::Released,
        ]),
        None
    );
}

#[test]
fn unreleased_clones_remain_counted() {
    let events = vec![
        HandleEvent::Cloned,
        HandleEvent::Cloned,
        HandleEvent::Released,
        HandleEvent::Cloned,
    ];
    assert_eq!(replay_count(&events), Some(3));
}
