use ed25519_dalek::{Signer, SigningKey};
use freenet_todo::todo::{SignedTask, SignedToggle, TodoState};
use std::collections::BTreeMap;

fn keypair(seed: u8) -> SigningKey {
    SigningKey::from_bytes(&[seed; 32])
}

fn mk_task(sk: &SigningKey, id: u64, text: &str, ts: i64) -> SignedTask {
    let author = sk.verifying_key().to_bytes();
    let unsig = SignedTask {
        id,
        text: text.into(),
        created_at: ts,
        author,
        signature: [0u8; 64],
    };
    let signature = sk.sign(&unsig.signing_bytes()).to_bytes();
    SignedTask { signature, ..unsig }
}

fn mk_toggle(sk: &SigningKey, task_id: u64, done: bool, ts: i64) -> SignedToggle {
    let author = sk.verifying_key().to_bytes();
    let unsig = SignedToggle {
        task_id,
        done,
        ts,
        author,
        signature: [0u8; 64],
    };
    let signature = sk.sign(&unsig.signing_bytes()).to_bytes();
    SignedToggle { signature, ..unsig }
}

fn state(tasks: Vec<SignedTask>, toggles: Vec<SignedToggle>) -> TodoState {
    TodoState {
        tasks: tasks.into_iter().map(|t| (t.id, t)).collect(),
        toggles: toggles.into_iter().map(|t| (t.task_id, t)).collect(),
    }
}

fn merged(a: &TodoState, b: &TodoState) -> TodoState {
    let mut out = a.clone();
    out.merge(b.clone());
    out
}

#[test]
fn task_sign_verify_roundtrip() {
    let sk = keypair(7);
    let t = mk_task(&sk, 1, "hello", 1000);
    assert!(t.verify().unwrap());
}

#[test]
fn merge_is_commutative() {
    let sk = keypair(7);
    let mut a = TodoState::default();
    a.merge(TodoState {
        tasks: [(1, mk_task(&sk, 1, "a", 1))].into_iter().collect(),
        toggles: [(1, mk_toggle(&sk, 1, true, 5))].into_iter().collect(),
    });
    let mut b = TodoState::default();
    b.merge(TodoState {
        tasks: [(2, mk_task(&sk, 2, "b", 2))].into_iter().collect(),
        toggles: [(1, mk_toggle(&sk, 1, true, 9))].into_iter().collect(),
    });

    let mut ab = a.clone();
    ab.merge(b.clone());
    let mut ba = b.clone();
    ba.merge(a.clone());
    assert_eq!(ab, ba);
    assert_eq!(ab.toggles.get(&1).unwrap().ts, 9);
}

#[test]
fn invalid_signature_rejected_on_merge() {
    let mut bad = mk_task(&keypair(7), 1, "x", 1);
    let mut sig_bytes = bad.signature;
    sig_bytes[0] ^= 1;
    bad.signature = sig_bytes;
    let mut state = TodoState::default();
    state.merge(TodoState {
        tasks: [(1, bad)].into_iter().collect(),
        toggles: BTreeMap::new(),
    });
    assert!(state.tasks.is_empty());
}

#[test]
fn task_signing_bytes_layout() {
    let t = SignedTask {
        id: 0x0102,
        text: "hé".into(),
        created_at: -1,
        author: [0u8; 32],
        signature: [0u8; 64],
    };
    let mut expected = b"todo-task\x00".to_vec();
    expected.extend_from_slice(&[0x02, 0x01, 0, 0, 0, 0, 0, 0]);
    expected.extend_from_slice(&[3, 0, 0, 0]);
    expected.extend_from_slice("hé".as_bytes());
    expected.extend_from_slice(&[0xff; 8]);
    assert_eq!(t.signing_bytes(), expected);
}

#[test]
fn toggle_signing_bytes_layout() {
    let t = SignedToggle {
        task_id: 5,
        done: true,
        ts: 258,
        author: [0u8; 32],
        signature: [0u8; 64],
    };
    let mut expected = b"todo-toggle\x00".to_vec();
    expected.extend_from_slice(&[5, 0, 0, 0, 0, 0, 0, 0]);
    expected.push(1);
    expected.extend_from_slice(&[2, 1, 0, 0, 0, 0, 0, 0]);
    assert_eq!(t.signing_bytes(), expected);
    let undone = SignedToggle { done: false, ..t };
    assert_eq!(undone.signing_bytes()[20], 0);
}

#[test]
fn toggle_signature_verifies_and_tampering_breaks_it() {
    let sk = keypair(3);
    let t = mk_toggle(&sk, 4, true, 77);
    assert_eq!(t.verify(), Ok(true));
    let forged = SignedToggle { ts: 78, ..t.clone() };
    assert_eq!(forged.verify(), Ok(false));
    let other_author = SignedToggle { author: keypair(4).verifying_key().to_bytes(), ..t };
    assert_eq!(other_author.verify(), Ok(false));
}

#[test]
fn key_bytes_off_the_curve_do_not_verify() {
    let sk = keypair(3);
    let mut t = mk_task(&sk, 1, "x", 1);
    // y = 2 is not the y-coordinate of any curve point.
    let mut author = [0u8; 32];
    author[0] = 2;
    t.author = author;
    assert_eq!(t.verify(), Ok(false));
}

#[test]
fn validate_checks_every_entry() {
    let sk = keypair(9);
    let good = state(vec![mk_task(&sk, 1, "a", 1)], vec![mk_toggle(&sk, 1, true, 2)]);
    assert!(good.validate());
    assert!(TodoState::default().validate());
    let mut bad_task = good.clone();
    bad_task.tasks.get_mut(&1).unwrap().text = "b".into();
    assert!(!bad_task.validate());
    let mut bad_toggle = good.clone();
    bad_toggle.toggles.get_mut(&1).unwrap().done = false;
    assert!(!bad_toggle.validate());
}

#[test]
fn merge_is_idempotent_on_concrete_state() {
    let sk = keypair(1);
    let a = state(vec![mk_task(&sk, 1, "a", 1), mk_task(&sk, 2, "b", 2)], vec![mk_toggle(&sk, 2, true, 3)]);
    assert_eq!(merged(&a, &a), a);
}

#[test]
fn merge_with_empty_is_identity_on_concrete_state() {
    let sk = keypair(1);
    let a = state(vec![mk_task(&sk, 1, "a", 1)], vec![mk_toggle(&sk, 1, false, 3)]);
    assert_eq!(merged(&a, &TodoState::default()), a);
    assert_eq!(merged(&TodoState::default(), &a), a);
}

#[test]
fn merge_is_associative_on_concrete_states() {
    let (s1, s2) = (keypair(1), keypair(2));
    let a = state(vec![mk_task(&s1, 1, "a", 1)], vec![mk_toggle(&s1, 1, true, 4)]);
    let b = state(vec![mk_task(&s2, 2, "b", 2)], vec![mk_toggle(&s2, 1, false, 6)]);
    let c = state(vec![mk_task(&s1, 3, "c", 3)], vec![mk_toggle(&s2, 1, true, 5), mk_toggle(&s1, 3, true, 1)]);
    let left = merged(&merged(&a, &b), &c);
    let right = merged(&a, &merged(&b, &c));
    assert_eq!(left, right);
    assert_eq!(left.tasks.len(), 3);
    assert_eq!(left.toggles.get(&1).unwrap().ts, 6);
}

#[test]
fn conflicting_tasks_under_an_id_resolve_to_the_greater_signature() {
    let sk = keypair(5);
    let first = mk_task(&sk, 1, "first", 1);
    let second = mk_task(&sk, 1, "second", 2);
    let winner = if first.signature > second.signature { first.clone() } else { second.clone() };
    let a = state(vec![first], vec![]);
    let b = state(vec![second], vec![]);
    assert_eq!(merged(&a, &b).tasks.get(&1).unwrap(), &winner);
    assert_eq!(merged(&b, &a).tasks.get(&1).unwrap(), &winner);
    assert_eq!(merged(&a, &b), merged(&b, &a));
}

#[test]
fn entries_filed_under_another_id_are_rejected() {
    let sk = keypair(6);
    let task = mk_task(&sk, 1, "signed for one", 1);
    let toggle = mk_toggle(&sk, 1, true, 4);
    let misfiled = TodoState {
        tasks: [(2, task.clone())].into_iter().collect(),
        toggles: [(2, toggle.clone())].into_iter().collect(),
    };
    assert!(task.verify().unwrap() && toggle.verify().unwrap());
    assert!(!misfiled.validate());
    let only_task = TodoState { tasks: misfiled.tasks.clone(), toggles: BTreeMap::new() };
    assert!(!only_task.validate());
    let only_toggle = TodoState { tasks: BTreeMap::new(), toggles: misfiled.toggles.clone() };
    assert!(!only_toggle.validate());
    assert_eq!(merged(&TodoState::default(), &misfiled), TodoState::default());
    assert!(state(vec![task], vec![toggle]).validate());
}

#[test]
fn redelivered_state_changes_nothing() {
    let (s1, s2) = (keypair(1), keypair(2));
    let s = state(vec![mk_task(&s1, 1, "a", 1)], vec![mk_toggle(&s1, 1, true, 4)]);
    let o = state(
        vec![mk_task(&s2, 1, "b", 2), mk_task(&s2, 2, "c", 3)],
        vec![mk_toggle(&s2, 1, false, 4), mk_toggle(&s2, 2, true, 1)],
    );
    let once = merged(&s, &o);
    assert_eq!(merged(&once, &o), once);
}

#[test]
fn signed_messages_tell_entries_apart() {
    let t = SignedTask { id: 1, text: "abc".into(), created_at: 2, author: [1; 32], signature: [2; 64] };
    assert_eq!(t.signing_bytes().len(), 30 + 3);
    let other_key = SignedTask { author: [9; 32], signature: [8; 64], ..t.clone() };
    assert_eq!(t.signing_bytes(), other_key.signing_bytes());
    let other_text = SignedTask { text: "abd".into(), ..t.clone() };
    assert_ne!(t.signing_bytes(), other_text.signing_bytes());
    let other_time = SignedTask { created_at: 3, ..t.clone() };
    assert_ne!(t.signing_bytes(), other_time.signing_bytes());
    let g = SignedToggle { task_id: 1, done: true, ts: 2, author: [1; 32], signature: [2; 64] };
    assert_eq!(g.signing_bytes().len(), 29);
    assert_ne!(t.signing_bytes()[6], g.signing_bytes()[6]);
    let undone = SignedToggle { done: false, ..g.clone() };
    assert_ne!(g.signing_bytes(), undone.signing_bytes());
}

#[test]
fn toggle_with_later_timestamp_wins() {
    let sk = keypair(5);
    let old = state(vec![], vec![mk_toggle(&sk, 1, true, 10)]);
    let new = state(vec![], vec![mk_toggle(&sk, 1, false, 11)]);
    assert!(!merged(&old, &new).toggles.get(&1).unwrap().done);
    assert!(!merged(&new, &old).toggles.get(&1).unwrap().done);
}

#[test]
fn toggle_tie_is_broken_by_greater_signature() {
    let (s1, s2) = (keypair(5), keypair(6));
    let x = mk_toggle(&s1, 1, true, 10);
    let y = mk_toggle(&s2, 1, false, 10);
    let winner = if x.signature > y.signature { x.clone() } else { y.clone() };
    let a = state(vec![], vec![x]);
    let b = state(vec![], vec![y]);
    assert_eq!(merged(&a, &b).toggles.get(&1).unwrap(), &winner);
    assert_eq!(merged(&b, &a).toggles.get(&1).unwrap(), &winner);
}

#[test]
fn unsigned_toggle_is_ignored() {
    let sk = keypair(5);
    let a = state(vec![], vec![mk_toggle(&sk, 1, true, 10)]);
    let mut forged = mk_toggle(&sk, 1, false, 99);
    forged.done = true;
    let b = state(vec![], vec![forged]);
    assert_eq!(merged(&a, &b), a);
    assert!(merged(&TodoState::default(), &b).toggles.is_empty());
}

#[test]
fn merge_keeps_a_valid_state_valid() {
    let sk = keypair(2);
    let a = state(vec![mk_task(&sk, 1, "a", 1)], vec![]);
    let mut junk = mk_task(&sk, 2, "b", 2);
    junk.created_at = 3;
    let b = state(vec![junk, mk_task(&sk, 3, "c", 3)], vec![]);
    let m = merged(&a, &b);
    assert!(m.validate());
    assert_eq!(m.tasks.keys().copied().collect::<Vec<_>>(), vec![1, 3]);
}
