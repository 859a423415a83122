use ed25519_dalek::{Signer, SigningKey};
use freenet_todo::contract::{
    get_state_delta, summarize_state, update_state, validate_state, ContractError, Payload, Update,
};
use freenet_todo::todo::{SignedTask, SignedToggle, TodoState};

fn key(seed: u8) -> SigningKey {
    SigningKey::from_bytes(&[seed; 32])
}

fn task(sk: &SigningKey, id: u64, text: &str) -> SignedTask {
    let unsig = SignedTask {
        id,
        text: text.into(),
        created_at: id as i64,
        author: sk.verifying_key().to_bytes(),
        signature: [0u8; 64],
    };
    let signature = sk.sign(&unsig.signing_bytes()).to_bytes();
    SignedTask { signature, ..unsig }
}

fn toggle(sk: &SigningKey, task_id: u64, ts: i64) -> SignedToggle {
    let unsig = SignedToggle {
        task_id,
        done: true,
        ts,
        author: sk.verifying_key().to_bytes(),
        signature: [0u8; 64],
    };
    let signature = sk.sign(&unsig.signing_bytes()).to_bytes();
    SignedToggle { signature, ..unsig }
}

fn with_tasks(tasks: Vec<SignedTask>) -> TodoState {
    TodoState {
        tasks: tasks.into_iter().map(|t| (t.id, t)).collect(),
        toggles: Default::default(),
    }
}

#[test]
fn empty_state_is_valid() {
    assert_eq!(validate_state(Payload::Empty), Ok(()));
}

#[test]
fn malformed_state_is_a_decode_error() {
    assert_eq!(
        validate_state(Payload::Malformed("expected value".into())),
        Err(ContractError::Deser("expected value".into()))
    );
}

#[test]
fn signed_state_is_valid_and_forged_one_is_not() {
    let sk = key(1);
    assert_eq!(validate_state(Payload::Parsed(with_tasks(vec![task(&sk, 1, "a")]))), Ok(()));
    let mut forged = task(&sk, 1, "a");
    forged.text = "b".into();
    assert_eq!(
        validate_state(Payload::Parsed(with_tasks(vec![forged]))),
        Err(ContractError::InvalidState)
    );
}

#[test]
fn updates_fold_in_order() {
    let sk = key(2);
    let start = with_tasks(vec![task(&sk, 1, "a")]);
    let data = vec![
        Update::Delta(Payload::Parsed(with_tasks(vec![task(&sk, 2, "b")]))),
        Update::Delta(Payload::Empty),
        Update::State(Payload::Parsed(with_tasks(vec![task(&sk, 3, "c")]))),
        Update::StateAndDelta {
            state: Payload::Empty,
            delta: Payload::Parsed(TodoState {
                tasks: Default::default(),
                toggles: [(1, toggle(&sk, 1, 5))].into_iter().collect(),
            }),
        },
    ];
    let out = update_state(Payload::Parsed(start), data).unwrap();
    assert_eq!(out.tasks.keys().copied().collect::<Vec<_>>(), vec![1, 2, 3]);
    assert_eq!(out.toggles.get(&1).unwrap().ts, 5);
}

#[test]
fn update_of_empty_state_starts_from_empty_list() {
    let sk = key(2);
    let out = update_state(
        Payload::Empty,
        vec![Update::Delta(Payload::Parsed(with_tasks(vec![task(&sk, 7, "x")])))],
    )
    .unwrap();
    assert_eq!(out.tasks.len(), 1);
    assert!(update_state(Payload::Empty, vec![]).unwrap().tasks.is_empty());
}

#[test]
fn update_rejects_unsupported_kind() {
    assert_eq!(
        update_state(Payload::Empty, vec![Update::Unsupported]),
        Err(ContractError::InvalidUpdate)
    );
}

#[test]
fn update_reports_the_first_problem() {
    let data = vec![
        Update::Delta(Payload::Malformed("first".into())),
        Update::Unsupported,
    ];
    assert_eq!(update_state(Payload::Empty, data), Err(ContractError::Deser("first".into())));
    let data = vec![
        Update::Unsupported,
        Update::Delta(Payload::Malformed("second".into())),
    ];
    assert_eq!(update_state(Payload::Empty, data), Err(ContractError::InvalidUpdate));
    assert_eq!(
        update_state(Payload::Malformed("state".into()), vec![Update::Unsupported]),
        Err(ContractError::Deser("state".into()))
    );
    let data = vec![Update::StateAndDelta {
        state: Payload::Parsed(TodoState::default()),
        delta: Payload::Malformed("delta".into()),
    }];
    assert_eq!(update_state(Payload::Empty, data), Err(ContractError::Deser("delta".into())));
}

#[test]
fn update_drops_forged_entries() {
    let sk = key(3);
    let mut forged = task(&sk, 9, "x");
    forged.id = 10;
    let out = update_state(
        Payload::Empty,
        vec![Update::Delta(Payload::Parsed(with_tasks(vec![forged])))],
    )
    .unwrap();
    assert!(out.tasks.is_empty());
    assert!(out.validate());
}

#[test]
fn summary_is_the_state_bytes() {
    let bytes = br#"{"tasks":{},"toggles":{}}"#;
    assert_eq!(summarize_state(bytes), bytes.to_vec());
    assert!(summarize_state(&[]).is_empty());
}

#[test]
fn delta_is_state_merged_with_summary() {
    let sk = key(4);
    let state = with_tasks(vec![task(&sk, 1, "a")]);
    let summary = with_tasks(vec![task(&sk, 2, "b")]);
    let out = get_state_delta(Payload::Parsed(state.clone()), Payload::Parsed(summary)).unwrap();
    assert_eq!(out.tasks.len(), 2);
    assert_eq!(get_state_delta(Payload::Parsed(state.clone()), Payload::Empty).unwrap(), state);
    assert_eq!(
        get_state_delta(Payload::Empty, Payload::Malformed("m".into())),
        Err(ContractError::Deser("m".into()))
    );
    assert_eq!(
        get_state_delta(Payload::Malformed("s".into()), Payload::Empty),
        Err(ContractError::Deser("s".into()))
    );
}

#[test]
fn deltas_commute_in_update_state() {
    let (s1, s2) = (key(1), key(2));
    let start = with_tasks(vec![task(&s1, 9, "base")]);
    let d1 = TodoState {
        tasks: [(1, task(&s1, 1, "one"))].into_iter().collect(),
        toggles: [(9, toggle(&s1, 9, 5))].into_iter().collect(),
    };
    let d2 = TodoState {
        tasks: [(1, task(&s2, 1, "uno"))].into_iter().collect(),
        toggles: [(9, toggle(&s2, 9, 5))].into_iter().collect(),
    };
    let one_two = update_state(
        Payload::Parsed(start.clone()),
        vec![Update::Delta(Payload::Parsed(d1.clone())), Update::Delta(Payload::Parsed(d2.clone()))],
    );
    let two_one = update_state(
        Payload::Parsed(start),
        vec![Update::Delta(Payload::Parsed(d2)), Update::Delta(Payload::Parsed(d1))],
    );
    assert_eq!(one_two.unwrap(), two_one.unwrap());
}

#[test]
fn one_delta_round_brings_a_peer_up_to_date() {
    let (s1, s2) = (key(1), key(2));
    let peer = with_tasks(vec![task(&s1, 1, "mine")]);
    let sender = TodoState {
        tasks: [(2, task(&s2, 2, "theirs"))].into_iter().collect(),
        toggles: [(1, toggle(&s2, 1, 7))].into_iter().collect(),
    };
    let delta = get_state_delta(Payload::Parsed(sender.clone()), Payload::Parsed(peer.clone())).unwrap();
    let after = update_state(Payload::Parsed(peer.clone()), vec![Update::Delta(Payload::Parsed(delta))]).unwrap();
    let mut expected = peer.clone();
    expected.merge(sender.clone());
    assert_eq!(after, expected);
    let mut other_side = sender;
    other_side.merge(peer);
    assert_eq!(after, other_side);
}

#[test]
fn deltas_with_misfiled_entries_still_commute() {
    let (s1, s2) = (key(1), key(2));
    let start = with_tasks(vec![task(&s1, 9, "base")]);
    let d1 = TodoState {
        tasks: [(4, task(&s1, 3, "filed under the wrong id")), (1, task(&s1, 1, "one"))].into_iter().collect(),
        toggles: Default::default(),
    };
    let d2 = TodoState {
        tasks: [(3, task(&s2, 3, "three"))].into_iter().collect(),
        toggles: [(5, toggle(&s2, 9, 2))].into_iter().collect(),
    };
    let one_two = update_state(
        Payload::Parsed(start.clone()),
        vec![Update::Delta(Payload::Parsed(d1.clone())), Update::Delta(Payload::Parsed(d2.clone()))],
    )
    .unwrap();
    let two_one = update_state(
        Payload::Parsed(start),
        vec![Update::Delta(Payload::Parsed(d2)), Update::Delta(Payload::Parsed(d1))],
    )
    .unwrap();
    assert_eq!(one_two, two_one);
    assert!(one_two.validate());
    assert!(!one_two.tasks.contains_key(&4));
    assert!(one_two.toggles.is_empty());
}
