//! The logic of the shared-list contract: validating a state, folding
//! updates into it, summarising it and computing the delta for a peer.
//!
//! The host hands the contract JSON bytes. Decoding them into a
//! `TodoState` happens before these functions are called: each payload
//! arrives as a `Payload` that says whether it was empty, decoded, or
//! malformed (with the decoder's message).

use crate::laws::{
    merge_is_associative, merge_is_commutative, merge_is_idempotent,
    merge_sees_only_admitted_entries,
};
use crate::todo::{
    accepted_task, task_signature_valid, toggle_signature_valid, TodoModel, TodoState,
};
use vstd::prelude::*;

verus! {

/// One state or delta payload as received from the host.
pub enum Payload {
    /// The payload had no bytes.
    Empty,
    /// The payload decoded to this state.
    Parsed(TodoState),
    /// The payload did not decode; the decoder's message.
    Malformed(String),
}

/// One entry of an update request.
pub enum Update {
    State(Payload),
    Delta(Payload),
    StateAndDelta { state: Payload, delta: Payload },
    /// Any other kind of update, which this contract does not take.
    Unsupported,
}

/// Why the contract refuses a request.
#[derive(Debug, PartialEq, Eq)]
pub enum ContractError {
    /// A payload could not be decoded; the decoder's message.
    Deser(String),
    /// The state holds an entry whose signature does not verify.
    InvalidState,
    /// The update kind is not supported.
    InvalidUpdate,
    /// Any other failure, with its message.
    Other(String),
}

/// The state a payload stands for when it is the contract's own state:
/// empty bytes are the empty list.
pub open spec fn initial_state(state: Payload) -> Result<TodoModel, ContractError> {
    match state {
        Payload::Empty => Ok(TodoModel::empty()),
        Payload::Parsed(s) => Ok(s@),
        Payload::Malformed(message) => Err(ContractError::Deser(message)),
    }
}

/// Folding one payload into the accumulated state: an empty payload changes
/// nothing, a decoded one is merged in, a malformed one is an error.
pub open spec fn absorb(acc: TodoModel, payload: Payload) -> Result<TodoModel, ContractError> {
    match payload {
        Payload::Empty => Ok(acc),
        Payload::Parsed(s) => Ok(acc.merge(s@)),
        Payload::Malformed(message) => Err(ContractError::Deser(message)),
    }
}

/// Folding one update into the accumulated state (the state part of a
/// `StateAndDelta` first, then its delta).
pub open spec fn apply_update(acc: TodoModel, update: Update) -> Result<TodoModel, ContractError> {
    match update {
        Update::State(p) => absorb(acc, p),
        Update::Delta(p) => absorb(acc, p),
        Update::StateAndDelta { state, delta } => match absorb(acc, state) {
            Ok(mid) => absorb(mid, delta),
            Err(e) => Err(e),
        },
        Update::Unsupported => Err(ContractError::InvalidUpdate),
    }
}

/// Folding the updates in order; the first error ends the fold.
pub open spec fn apply_updates(acc: TodoModel, updates: Seq<Update>) -> Result<
    TodoModel,
    ContractError,
>
    decreases updates.len(),
{
    if updates.len() == 0 {
        Ok(acc)
    } else {
        match apply_updates(acc, updates.drop_last()) {
            Ok(mid) => apply_update(mid, updates.last()),
            Err(e) => Err(e),
        }
    }
}

/// The result of `update_state` on these inputs.
pub open spec fn update_outcome(state: Payload, updates: Seq<Update>) -> Result<
    TodoModel,
    ContractError,
> {
    match initial_state(state) {
        Ok(start) => apply_updates(start, updates),
        Err(e) => Err(e),
    }
}

/// The result of `get_state_delta` on these inputs: the state with the
/// peer's summary merged in.
pub open spec fn delta_outcome(state: Payload, summary: Payload) -> Result<
    TodoModel,
    ContractError,
> {
    match initial_state(state) {
        Ok(start) => absorb(start, summary),
        Err(e) => Err(e),
    }
}

/// An executable result that stands for the model result `expected`.
pub open spec fn outcome_matches(
    result: Result<TodoState, ContractError>,
    expected: Result<TodoModel, ContractError>,
) -> bool {
    match (result, expected) {
        (Ok(s), Ok(m)) => s@ == m,
        (Err(e), Err(f)) => e == f,
        _ => false,
    }
}

/// Whether the payload is acceptable as the contract's state.
pub open spec fn state_verdict(state: Payload) -> Result<(), ContractError> {
    match state {
        Payload::Empty => Ok(()),
        Payload::Parsed(s) => if s@.valid() {
            Ok(())
        } else {
            Err(ContractError::InvalidState)
        },
        Payload::Malformed(message) => Err(ContractError::Deser(message)),
    }
}

/// Checks a state: empty bytes are valid, a decoded state is valid when
/// every entry carries a valid signature.
pub fn validate_state(state: Payload) -> (result: Result<(), ContractError>)
    ensures
        result == state_verdict(state),
{
    match state {
        Payload::Empty => Ok(()),
        Payload::Parsed(s) => if s.validate() {
            Ok(())
        } else {
            Err(ContractError::InvalidState)
        },
        Payload::Malformed(message) => Err(ContractError::Deser(message)),
    }
}

fn start_state(state: Payload) -> (result: Result<TodoState, ContractError>)
    ensures
        outcome_matches(result, initial_state(state)),
{
    match state {
        Payload::Empty => Ok(TodoState::default()),
        Payload::Parsed(s) => Ok(s),
        Payload::Malformed(message) => Err(ContractError::Deser(message)),
    }
}

fn absorb_payload(todo: &mut TodoState, payload: Payload) -> (result: Result<(), ContractError>)
    ensures
        match absorb(old(todo)@, payload) {
            Ok(m) => result is Ok && final(todo)@ == m,
            Err(e) => result == Err::<(), ContractError>(e),
        },
{
    match payload {
        Payload::Empty => Ok(()),
        Payload::Parsed(s) => {
            todo.merge(s);
            Ok(())
        },
        Payload::Malformed(message) => Err(ContractError::Deser(message)),
    }
}

/// Folds the updates into the state, in order; the resulting state is what
/// the host stores (after encoding it).
pub fn update_state(state: Payload, data: Vec<Update>) -> (result: Result<TodoState, ContractError>)
    ensures
        outcome_matches(result, update_outcome(state, data@)),
{
    let ghost updates = data@;
    let mut todo = match start_state(state) {
        Ok(s) => s,
        Err(e) => return Err(e),
    };
    let ghost start = todo@;
    let ghost mut count: int = 0;
    for update in it: data
        invariant
            it.seq() == updates,
            count == it.index(),
            0 <= count <= updates.len(),
            apply_updates(start, updates.take(count)) == Ok::<TodoModel, ContractError>(todo@),
            update_outcome(state, updates) == apply_updates(start, updates),
    {
        proof {
            assert(updates.take(count + 1).drop_last() =~= updates.take(count));
            assert(updates.take(count + 1).last() == updates[count]);
        }
        match update {
            Update::State(p) => {
                if let Err(e) = absorb_payload(&mut todo, p) {
                    proof { lemma_error_persists(start, updates, count + 1); }
                    return Err(e);
                }
            },
            Update::Delta(p) => {
                if let Err(e) = absorb_payload(&mut todo, p) {
                    proof { lemma_error_persists(start, updates, count + 1); }
                    return Err(e);
                }
            },
            Update::StateAndDelta { state, delta } => {
                if let Err(e) = absorb_payload(&mut todo, state) {
                    proof { lemma_error_persists(start, updates, count + 1); }
                    return Err(e);
                }
                if let Err(e) = absorb_payload(&mut todo, delta) {
                    proof { lemma_error_persists(start, updates, count + 1); }
                    return Err(e);
                }
            },
            Update::Unsupported => {
                proof { lemma_error_persists(start, updates, count + 1); }
                return Err(ContractError::InvalidUpdate);
            },
        }
        proof {
            count = count + 1;
        }
    }
    assert(updates.take(count) =~= updates);
    Ok(todo)
}

proof fn lemma_error_persists(start: TodoModel, updates: Seq<Update>, n: int)
    requires
        0 <= n <= updates.len(),
        apply_updates(start, updates.take(n)) is Err,
    ensures
        apply_updates(start, updates) == apply_updates(start, updates.take(n)),
    decreases updates.len() - n,
{
    if n < updates.len() {
        assert(updates.take(n + 1).drop_last() =~= updates.take(n));
        lemma_error_persists(start, updates, n + 1);
    } else {
        assert(updates.take(n) =~= updates);
    }
}

/// The summary of a state is the state's bytes themselves.
pub fn summarize_state(state: &[u8]) -> (summary: Vec<u8>)
    ensures
        summary@ == state@,
{
    vstd::slice::slice_to_vec(state)
}

/// The delta to send a peer: the state with the peer's summary merged in.
pub fn get_state_delta(state: Payload, summary: Payload) -> (result: Result<TodoState, ContractError>)
    ensures
        outcome_matches(result, delta_outcome(state, summary)),
{
    let mut todo = match start_state(state) {
        Ok(s) => s,
        Err(e) => return Err(e),
    };
    match absorb_payload(&mut todo, summary) {
        Ok(()) => Ok(todo),
        Err(e) => Err(e),
    }
}

/// Through any sequence of updates, whatever peers send, a valid state stays
/// valid and a state whose entries all carry valid signatures keeps them so:
/// unsigned or forged entries never enter it.
pub proof fn updates_keep_state_valid(start: TodoModel, updates: Seq<Update>)
    ensures
        apply_updates(start, updates) matches Ok(end) ==> (start.valid() ==> end.valid()) && (
        start.signed() ==> end.signed()),
    decreases updates.len(),
{
    if updates.len() > 0 {
        updates_keep_state_valid(start, updates.drop_last());
        if let Ok(mid) = apply_updates(start, updates.drop_last()) {
            match updates.last() {
                Update::State(p) => lemma_absorb_keeps_valid(mid, p),
                Update::Delta(p) => lemma_absorb_keeps_valid(mid, p),
                Update::StateAndDelta { state, delta } => {
                    lemma_absorb_keeps_valid(mid, state);
                    if let Ok(m2) = absorb(mid, state) {
                        lemma_absorb_keeps_valid(m2, delta);
                    }
                },
                Update::Unsupported => {},
            }
        }
    }
}

proof fn lemma_absorb_keeps_valid(acc: TodoModel, payload: Payload)
    ensures
        absorb(acc, payload) matches Ok(end) ==> (acc.valid() ==> end.valid()) && (acc.signed()
            ==> end.signed()),
{
}

/// Peers that receive the same two deltas in either order end with the same
/// state, whatever the deltas hold (merge takes only their admitted
/// entries).
pub proof fn deltas_commute(start: TodoModel, d1: TodoState, d2: TodoState)
    ensures
        apply_updates(
            start,
            seq![Update::Delta(Payload::Parsed(d1)), Update::Delta(Payload::Parsed(d2))],
        ) == apply_updates(
            start,
            seq![Update::Delta(Payload::Parsed(d2)), Update::Delta(Payload::Parsed(d1))],
        ),
{
    let (a1, a2) = (d1@.admitted(), d2@.admitted());
    lemma_two_deltas(start, d1, d2);
    lemma_two_deltas(start, d2, d1);
    merge_sees_only_admitted_entries(start, d1@);
    merge_sees_only_admitted_entries(start, d2@);
    merge_sees_only_admitted_entries(start.merge(a1), d2@);
    merge_sees_only_admitted_entries(start.merge(a2), d1@);
    merge_is_associative(start, a1, a2);
    merge_is_associative(start, a2, a1);
    merge_is_commutative(a1, a2);
}

proof fn lemma_two_deltas(start: TodoModel, d1: TodoState, d2: TodoState)
    ensures
        apply_updates(
            start,
            seq![Update::Delta(Payload::Parsed(d1)), Update::Delta(Payload::Parsed(d2))],
        ) == Ok::<TodoModel, ContractError>(start.merge(d1@).merge(d2@)),
{
    let u = seq![Update::Delta(Payload::Parsed(d1)), Update::Delta(Payload::Parsed(d2))];
    assert(u.drop_last() =~= seq![Update::Delta(Payload::Parsed(d1))]);
    lemma_one_delta(start, d1);
    assert(u.last() == Update::Delta(Payload::Parsed(d2)));
}

proof fn lemma_one_delta(start: TodoModel, d: TodoState)
    ensures
        apply_updates(start, seq![Update::Delta(Payload::Parsed(d))]) == Ok::<
            TodoModel,
            ContractError,
        >(start.merge(d@)),
{
    let u = seq![Update::Delta(Payload::Parsed(d))];
    assert(u.drop_last() =~= Seq::<Update>::empty());
    assert(apply_updates(start, u.drop_last()) == Ok::<TodoModel, ContractError>(start));
    assert(u.last() == Update::Delta(Payload::Parsed(d)));
}

/// One delta round brings a peer up to date. The peer holding `p` sends its
/// summary (its state itself, see `summarize_state`); the holder of `s`
/// answers with the delta `get_state_delta` computes; folding that delta
/// into `p` gives the merge of both states, which is also what the other
/// side holds after merging `p` into `s`.
pub proof fn delta_round_converges(p: TodoState, s: TodoState, d: TodoState)
    requires
        p@.valid(),
        s@.valid(),
        outcome_matches(
            Ok::<TodoState, ContractError>(d),
            delta_outcome(Payload::Parsed(s), Payload::Parsed(p)),
        ),
    ensures
        update_outcome(Payload::Parsed(p), seq![Update::Delta(Payload::Parsed(d))]) == Ok::<
            TodoModel,
            ContractError,
        >(p@.merge(s@)),
        p@.merge(s@) == s@.merge(p@),
{
    lemma_one_delta(p@, d);
    merge_is_commutative(s@, p@);
    merge_is_associative(p@, p@, s@);
    merge_is_idempotent(p@);
}

/// A `StateAndDelta` update does what its state part followed by its delta
/// part does: both parts are merged in, the state part first.
pub proof fn state_and_delta_is_state_then_delta(acc: TodoModel, state: Payload, delta: Payload)
    ensures
        apply_updates(acc, seq![Update::StateAndDelta { state, delta }]) == apply_updates(
            acc,
            seq![Update::State(state), Update::Delta(delta)],
        ),
{
    let one = seq![Update::StateAndDelta { state, delta }];
    let two = seq![Update::State(state), Update::Delta(delta)];
    assert(one.drop_last() =~= Seq::<Update>::empty());
    assert(apply_updates(acc, one.drop_last()) == Ok::<TodoModel, ContractError>(acc));
    assert(two.drop_last() =~= seq![Update::State(state)]);
    let first = two.drop_last();
    assert(first.drop_last() =~= Seq::<Update>::empty());
    assert(apply_updates(acc, first.drop_last()) == Ok::<TodoModel, ContractError>(acc));
    assert(one.last() == Update::StateAndDelta { state, delta });
    assert(first.last() == Update::State(state));
    assert(two.last() == Update::Delta(delta));
    assert(apply_updates(acc, first) == absorb(acc, state));
    assert(apply_updates(acc, one) == apply_update(acc, Update::StateAndDelta { state, delta }));
}

/// Folding a `StateAndDelta` update whose parts decoded merges both parts:
/// the result is the state merged with the state part, then with the delta
/// part, so every task that either part admits is in it.
pub proof fn state_and_delta_keeps_both_parts(acc: TodoModel, s: TodoState, d: TodoState)
    ensures
        apply_updates(
            acc,
            seq![Update::StateAndDelta { state: Payload::Parsed(s), delta: Payload::Parsed(d) }],
        ) == Ok::<TodoModel, ContractError>(acc.merge(s@).merge(d@)),
        forall|id: u64| #[trigger]
            accepted_task(s@.tasks, id) ==> acc.merge(s@).merge(d@).tasks.contains_key(id),
        forall|id: u64| #[trigger]
            accepted_task(d@.tasks, id) ==> acc.merge(s@).merge(d@).tasks.contains_key(id),
{
    let one = seq![Update::StateAndDelta { state: Payload::Parsed(s), delta: Payload::Parsed(d) }];
    assert(one.drop_last() =~= Seq::<Update>::empty());
    assert(apply_updates(acc, one.drop_last()) == Ok::<TodoModel, ContractError>(acc));
}

/// A decoded state is accepted exactly when each of its tasks and each of
/// its toggles is filed under the id it was signed for and carries a
/// signature that verifies; otherwise it is refused as an invalid state.
pub proof fn validation_checks_every_entry(s: TodoState)
    ensures
        (state_verdict(Payload::Parsed(s)) is Ok) <==> ((forall|id: u64| #[trigger]
            s@.tasks.contains_key(id) ==> s@.tasks[id].id == id && task_signature_valid(
                s@.tasks[id],
            )) && (forall|id: u64| #[trigger]
            s@.toggles.contains_key(id) ==> s@.toggles[id].task_id == id
                && toggle_signature_valid(s@.toggles[id]))),
        state_verdict(Payload::Parsed(s)) is Err ==> state_verdict(Payload::Parsed(s)) == Err::<
            (),
            ContractError,
        >(ContractError::InvalidState),
{
    assert forall|id: u64| #[trigger] s@.tasks.contains_key(id) implies s@.tasks[id].author.len()
        == 32 && s@.tasks[id].signature.len() == 64 by {
        assert(s@.tasks[id] == s.tasks@[id]@);
    }
    assert forall|id: u64| #[trigger] s@.toggles.contains_key(id) implies s@.toggles[id].author.len()
        == 32 && s@.toggles[id].signature.len() == 64 by {
        assert(s@.toggles[id] == s.toggles@[id]@);
    }
}

} // verus!
