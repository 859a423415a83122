//! The decisions of the browser client: the address of the node's
//! WebSocket, reading key files, the signing identity, and the signed
//! deltas the client sends when a task is added or marked done.

use crate::base58::{base58_decode_32, base58_into_32};
use crate::crypto::{ed25519_public_key, ed25519_signature, public_key_of, sign};
use crate::delegate::Response;
use crate::text::{bytes_to_hex, hex_decode_from, hex_text, hex_text_round_trip, hex_to_bytes};
use crate::todo::{
    task_message, toggle_message, SignedTask, SignedToggle, TaskView, TodoState, ToggleView,
};
use std::collections::BTreeMap;
use vstd::prelude::*;
use vstd::string::StringExecFns;
use vstd::utf8::encode_utf8;

verus! {

/// The address of the node's WebSocket API for a page served with
/// `protocol` (such as `https:`) from `host`.
pub open spec fn socket_url(protocol: Seq<char>, host: Seq<char>) -> Seq<char> {
    (if protocol == "https:"@ {
        "wss:"@
    } else {
        "ws:"@
    }) + "//"@ + host + "/v1/contract/command?encodingProtocol=native"@
}

/// The WebSocket address of the node that served the page: secure when the
/// page came over `https:`.
pub fn ws_url(protocol: &str, host: &str) -> (url: String)
    ensures
        url@ == socket_url(protocol@, host@),
{
    let secure = String::from_str(protocol) == String::from_str("https:");
    let mut url = if secure {
        String::from_str("wss:")
    } else {
        String::from_str("ws:")
    };
    url.append("//");
    url.append(host);
    url.append("/v1/contract/command?encodingProtocol=native");
    url
}

/// A character with the Unicode `White_Space` property, which is what
/// `char::is_whitespace` tests.
pub open spec fn is_white_space(c: char) -> bool {
    ||| '\u{9}' <= c <= '\u{d}'
    ||| c == ' '
    ||| c == '\u{85}'
    ||| c == '\u{a0}'
    ||| c == '\u{1680}'
    ||| '\u{2000}' <= c <= '\u{200a}'
    ||| c == '\u{2028}'
    ||| c == '\u{2029}'
    ||| c == '\u{202f}'
    ||| c == '\u{205f}'
    ||| c == '\u{3000}'
}

/// `trimmed` is `text` without its leading and trailing white space.
pub open spec fn is_trim_of(trimmed: Seq<char>, text: Seq<char>) -> bool {
    exists|i: int, j: int|
        0 <= i <= j <= text.len() && trimmed == text.subrange(i, j) && (forall|k: int|
            0 <= k < i ==> is_white_space(#[trigger] text[k])) && (forall|k: int|
            j <= k < text.len() ==> is_white_space(#[trigger] text[k])) && (i < j ==> (
        !is_white_space(text[i]) && !is_white_space(text[j - 1])))
}

/// Calls `str::trim`, which the standard library documents as removing the
/// leading and trailing characters with the `White_Space` property; that is
/// what is claimed.
#[verifier::external_body]
pub(crate) fn trim(text: &str) -> (trimmed: &str)
    ensures
        is_trim_of(trimmed@, text@),
{
    text.trim()
}

/// The 32 bytes a key file holds: its text without surrounding white space,
/// decoded from Base58 into a zeroed 32-byte buffer; `None` when it does not
/// decode.
pub fn decode_key(text: &str) -> (key: Option<[u8; 32]>)
    ensures
        exists|t: Seq<char>|
            is_trim_of(t, text@) && match key {
                Some(k) => base58_into_32(t) == Some(k@),
                None => base58_into_32(t) is None,
            },
{
    let trimmed = trim(text);
    base58_decode_32(trimmed)
}

/// A signing identity and the texts the client shows and stores for it.
pub struct Identity {
    pub secret_key: [u8; 32],
    pub public_key: [u8; 32],
    /// The first four bytes of the public key in hexadecimal.
    pub short_id: String,
    pub private_key_hex: String,
    pub public_key_hex: String,
}

/// The identity of a secret key.
pub open spec fn is_identity_of(identity: Identity, secret_key: Seq<u8>) -> bool {
    &&& identity.secret_key@ == secret_key
    &&& identity.public_key@ == ed25519_public_key(secret_key)
    &&& identity.short_id@ == hex_text(identity.public_key@.take(4))
    &&& identity.private_key_hex@ == hex_text(secret_key)
    &&& identity.public_key_hex@ == hex_text(identity.public_key@)
}

/// Lowercase hexadecimal of the first four bytes, which the client shows as
/// a short name of a key.
pub fn hex_short(bytes: &[u8]) -> (text: String)
    requires
        bytes@.len() >= 4,
    ensures
        text@ == hex_text(bytes@.take(4)),
{
    let head = vstd::slice::slice_subrange(bytes, 0, 4);
    assert(head@ =~= bytes@.take(4));
    bytes_to_hex(head)
}

/// The identity whose secret key is `secret_key`.
pub fn identity_from_secret(secret_key: [u8; 32]) -> (identity: Identity)
    ensures
        is_identity_of(identity, secret_key@),
{
    let public_key = public_key_of(&secret_key);
    let short_id = hex_short(&public_key);
    let private_key_hex = bytes_to_hex(&secret_key);
    let public_key_hex = bytes_to_hex(&public_key);
    Identity { secret_key, public_key, short_id, private_key_hex, public_key_hex }
}

/// The identity stored as hexadecimal text, when the text decodes to exactly
/// 32 bytes; the text must cut into two-byte pieces up to its first bad pair.
pub fn identity_from_private_hex(private_key_hex: &str) -> (identity: Option<Identity>)
    requires
        hex_decode_from(encode_utf8(private_key_hex@), 0) is Some,
    ensures
        match hex_decode_from(encode_utf8(private_key_hex@), 0) {
            Some(Ok(bytes)) => if bytes.len() == 32 {
                identity matches Some(id) && is_identity_of(id, bytes)
            } else {
                identity is None
            },
            _ => identity is None,
        },
{
    match hex_to_bytes(private_key_hex) {
        Ok(bytes) => {
            if bytes.len() == 32 {
                let mut secret_key = [0u8; 32];
                let mut i: usize = 0;
                while i < 32
                    invariant
                        i <= 32,
                        bytes@.len() == 32,
                        forall|k: int| 0 <= k < i ==> secret_key@[k] == bytes@[k],
                    decreases 32 - i,
                {
                    secret_key[i] = bytes[i];
                    i = i + 1;
                }
                assert(secret_key@ =~= bytes@);
                Some(identity_from_secret(secret_key))
            } else {
                None
            }
        },
        Err(_) => None,
    }
}

/// The id the client gives a task created at `now` (milliseconds):
/// `now * 1000`, with `now` read as unsigned.
pub open spec fn task_id_at(now: i64) -> int {
    (now as u64) * 1000
}

/// The task `secret_key`'s owner creates with `text` at `now`, signed.
pub open spec fn is_new_task(task: TaskView, secret_key: Seq<u8>, text: Seq<char>, now: i64) -> bool {
    &&& task.id == task_id_at(now)
    &&& task.text == text
    &&& task.created_at == now
    &&& task.author == ed25519_public_key(secret_key)
    &&& task.signature == ed25519_signature(secret_key, task_message(task))
}

/// The toggle that marks `task_id` done at `now`, signed.
pub open spec fn is_done_toggle(toggle: ToggleView, secret_key: Seq<u8>, task_id: u64, now: i64) -> bool {
    &&& toggle.task_id == task_id
    &&& toggle.done
    &&& toggle.ts == now
    &&& toggle.author == ed25519_public_key(secret_key)
    &&& toggle.signature == ed25519_signature(secret_key, toggle_message(toggle))
}

/// The delta that adds a new task with `text`, created at `now` and signed
/// with `secret_key`: a state holding only that task, under its id.
pub fn task_delta(secret_key: &[u8; 32], text: String, now: i64) -> (delta: TodoState)
    requires
        task_id_at(now) <= u64::MAX,
    ensures
        delta@.toggles == Map::<u64, ToggleView>::empty(),
        delta@.tasks.dom() == set![task_id_at(now) as u64],
        is_new_task(delta@.tasks[task_id_at(now) as u64], secret_key@, text@, now),
{
    let id = (now as u64) * 1000;
    let unsigned = SignedTask {
        id,
        text,
        created_at: now,
        author: public_key_of(secret_key),
        signature: [0u8; 64],
    };
    let message = unsigned.signing_bytes();
    let signature = sign(secret_key, message.as_slice());
    let task = SignedTask { signature, ..unsigned };
    assert(task_message(task@) == task_message(unsigned@));
    let mut tasks = BTreeMap::new();
    tasks.insert(id, task);
    let delta = TodoState { tasks, toggles: BTreeMap::new() };
    assert(delta@.tasks.dom() =~= set![id]);
    delta
}

/// The delta that marks `task_id` done at `now`, signed with `secret_key`:
/// a state holding only that toggle, under the task id.
pub fn toggle_delta(secret_key: &[u8; 32], task_id: u64, now: i64) -> (delta: TodoState)
    ensures
        delta@.tasks == Map::<u64, TaskView>::empty(),
        delta@.toggles.dom() == set![task_id],
        is_done_toggle(delta@.toggles[task_id], secret_key@, task_id, now),
{
    let unsigned = SignedToggle {
        task_id,
        done: true,
        ts: now,
        author: public_key_of(secret_key),
        signature: [0u8; 64],
    };
    let message = unsigned.signing_bytes();
    let signature = sign(secret_key, message.as_slice());
    let toggle = SignedToggle { signature, ..unsigned };
    assert(toggle_message(toggle@) == toggle_message(unsigned@));
    let mut toggles = BTreeMap::new();
    toggles.insert(task_id, toggle);
    let delta = TodoState { tasks: BTreeMap::new(), toggles };
    assert(delta@.toggles.dom() =~= set![task_id]);
    delta
}

/// What the client does with a reply of the notes delegate.
pub enum ClientAction {
    /// Take this identity, restored from the store, as the signing identity.
    UseIdentity(Identity),
    /// No identity is stored: create one from fresh random bytes, take it,
    /// and save it to the store.
    CreateIdentity,
    /// Hand the reply to the page, then ask the delegate for each of these
    /// notes, in order.
    ShowReply { fetch_notes: Vec<u64> },
    /// Ignore the reply.
    Nothing,
}

/// Whether the stored private key text can be cut into two-byte pieces up
/// to its first bad pair (else reading it fails).
pub open spec fn identity_text_readable(response: Response) -> bool {
    response matches Response::Identity { private_key_hex: Some(pk), .. } ==> hex_decode_from(
        encode_utf8(pk@),
        0,
    ) is Some
}

/// The client's answer to a delegate reply: a stored identity that decodes
/// to 32 bytes is taken, one that does not is ignored; a missing identity is
/// created; a notes list is shown and each note fetched; a deletion
/// notice is not read; every other reply is shown.
pub open spec fn reply_action(response: Response, action: ClientAction) -> bool {
    match response {
        Response::Identity { private_key_hex: Some(pk), .. } => match hex_decode_from(
            encode_utf8(pk@),
            0,
        ) {
            Some(Ok(bytes)) => if bytes.len() == 32 {
                action matches ClientAction::UseIdentity(id) && is_identity_of(id, bytes)
            } else {
                action is Nothing
            },
            _ => action is Nothing,
        },
        Response::Identity { private_key_hex: None, .. } => action is CreateIdentity,
        Response::NotesList { task_ids } => action matches ClientAction::ShowReply { fetch_notes }
            && fetch_notes@ == task_ids@,
        Response::Deleted { .. } => action is Nothing,
        _ => action matches ClientAction::ShowReply { fetch_notes } && fetch_notes@.len() == 0,
    }
}

/// Decides what the client does with a reply of the notes delegate.
pub fn on_delegate_reply(response: &Response) -> (action: ClientAction)
    requires
        identity_text_readable(*response),
    ensures
        reply_action(*response, action),
{
    match response {
        Response::Identity { private_key_hex: Some(pk), .. } => match identity_from_private_hex(
            pk.as_str(),
        ) {
            Some(identity) => ClientAction::UseIdentity(identity),
            None => ClientAction::Nothing,
        },
        Response::Identity { private_key_hex: None, .. } => ClientAction::CreateIdentity,
        Response::NotesList { task_ids } => {
            let fetch_notes = task_ids.clone();
            assert(fetch_notes@ =~= task_ids@);
            ClientAction::ShowReply { fetch_notes }
        },
        Response::Deleted { .. } => ClientAction::Nothing,
        _ => ClientAction::ShowReply { fetch_notes: Vec::new() },
    }
}

/// The private key text of an identity decodes to its secret key, so an
/// identity saved in the notes store is restored as the same identity (see
/// `identity_from_private_hex`).
pub proof fn saved_identity_is_restored(identity: Identity, secret_key: Seq<u8>)
    requires
        is_identity_of(identity, secret_key),
    ensures
        hex_decode_from(encode_utf8(identity.private_key_hex@), 0) == Some(
            Ok::<Seq<u8>, crate::text::HexError>(secret_key),
        ),
        secret_key.len() == 32,
{
    hex_text_round_trip(secret_key);
}

/// The page is shown every reply of the notes delegate except the identity
/// replies (which set the signing identity) and deletion notices; notes are
/// fetched only after a notes list, and then exactly the listed ones, in
/// order; a missing identity makes the client create one.
pub proof fn replies_reach_the_page(response: Response, action: ClientAction)
    requires
        reply_action(response, action),
    ensures
        (action is ShowReply) <==> (!(response is Identity) && !(response is Deleted)),
        action is ShowReply ==> action->fetch_notes@ == (if response is NotesList {
            response->task_ids@
        } else {
            Seq::<u64>::empty()
        }),
        (response is Identity && response->private_key_hex is None) <==> (action is CreateIdentity),
        action is UseIdentity ==> response is Identity,
{
}

/// A stored identity whose private key text is the hexadecimal of a
/// 32-byte key is restored as that key's identity: the client signs with
/// that secret key, under its public key.
pub proof fn stored_identity_is_restored(
    secret_key: Seq<u8>,
    private_key_hex: String,
    public_key_hex: Option<String>,
    action: ClientAction,
)
    requires
        secret_key.len() == 32,
        private_key_hex@ == hex_text(secret_key),
        reply_action(
            Response::Identity { private_key_hex: Some(private_key_hex), public_key_hex },
            action,
        ),
    ensures
        (action matches ClientAction::UseIdentity(identity) && identity.secret_key@ == secret_key
            && identity.public_key@ == ed25519_public_key(secret_key)),
{
    hex_text_round_trip(secret_key);
}

} // verus!
