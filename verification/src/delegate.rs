//! The private notes store: how requests from the web app are turned into
//! operations on the delegate's secret store, and how the store's answers
//! become responses.
//!
//! Notes live under the secret key `note:<contract-instance>:<task_id>`, so
//! each web app sees only its own notes; the signing identity lives under
//! the key `identity`.

use crate::base58::{base58_encode, base58_into_32, base58_text, is_base58_char};
use crate::text::{decimal_bytes, decimal_digits, parse_u64, parsed_u64, string_from_utf8};
use vstd::prelude::*;
use vstd::string::StringExecFns;
use vstd::utf8::{decode_utf8, encode_utf8, valid_utf8};

verus! {

/// Who sent a message to the delegate.
pub enum Origin {
    /// A web application backed by the contract instance with this id.
    WebApp([u8; 32]),
    /// Another delegate.
    Delegate,
}

/// The text every note key of the origin starts with.
pub open spec fn note_prefix(origin: Option<Origin>) -> Seq<char> {
    match origin {
        Some(Origin::WebApp(id)) => "note:"@ + base58_text(id@) + ":"@,
        _ => "note:_:"@,
    }
}

/// The secret key of the note of task `task_id` under `prefix`: the UTF-8
/// prefix followed by the decimal task id.
pub open spec fn note_key_bytes(prefix: Seq<char>, task_id: u64) -> Seq<u8> {
    encode_utf8(prefix) + decimal_digits(task_id as nat)
}

/// The shape of every note-key prefix: ASCII text `note:`, then a name
/// without `:`, then `:`.
pub open spec fn is_note_prefix(prefix: Seq<char>) -> bool {
    &&& prefix.len() >= 6
    &&& prefix.take(5) == "note:"@
    &&& prefix.last() == ':'
    &&& vstd::utf8::is_ascii_chars(prefix)
    &&& forall|i: int| 5 <= i < prefix.len() - 1 ==> #[trigger] prefix[i] != ':'
}

/// The note-key prefix of the origin: `note:<contract-instance>:` for a web
/// app, and `note:_:` otherwise.
pub fn instance_prefix(origin: &Option<Origin>) -> (prefix: String)
    ensures
        prefix@ == note_prefix(*origin),
        is_note_prefix(prefix@),
        origin matches Some(Origin::WebApp(id)) ==> base58_into_32(
            prefix@.subrange(5, prefix@.len() - 1),
        ) == Some(id@),
{
    proof {
        reveal_strlit("note:");
        reveal_strlit(":");
        reveal_strlit("note:_:");
    }
    match origin {
        Some(Origin::WebApp(id)) => {
            let mut prefix = String::from_str("note:");
            let encoded = base58_encode(id);
            prefix.append(encoded.as_str());
            prefix.append(":");
            proof {
                let p = prefix@;
                assert(p =~= "note:"@ + encoded@ + ":"@);
                assert(p.subrange(5, p.len() - 1) =~= encoded@);
                assert(p.take(5) =~= "note:"@);
                assert forall|i: int| 5 <= i < p.len() - 1 implies #[trigger] p[i] != ':' && p[i] <= '\u{7f}' by {
                    assert(p[i] == encoded@[i - 5]);
                    assert(is_base58_char(encoded@[i - 5]));
                }
                assert(vstd::utf8::is_ascii_chars(p)) by {
                    assert forall|i: int| 0 <= i < p.len() implies '\0' <= #[trigger] p[i] <= '\u{7f}' by {
                        if 5 <= i < p.len() - 1 {
                            assert(is_base58_char(encoded@[i - 5]));
                        }
                    }
                }
            }
            prefix
        },
        _ => {
            let prefix = String::from_str("note:_:");
            assert(prefix@.take(5) =~= "note:"@);
            prefix
        },
    }
}

/// The secret key of the note of `task_id` under `prefix`.
pub fn note_key(prefix: &str, task_id: u64) -> (key: Vec<u8>)
    ensures
        key@ == note_key_bytes(prefix@, task_id),
{
    let mut key = vstd::slice::slice_to_vec(prefix.as_bytes());
    let mut digits = decimal_bytes(task_id);
    key.append(&mut digits);
    key
}

/// The bytes of `identity`, the secret key of the signing identity.
pub open spec fn identity_key_bytes() -> Seq<u8> {
    seq![0x69u8, 0x64, 0x65, 0x6e, 0x74, 0x69, 0x74, 0x79]
}

/// The secret key of the signing identity.
pub fn identity_key() -> (key: Vec<u8>)
    ensures
        key@ == identity_key_bytes(),
{
    let key = vec![0x69u8, 0x64, 0x65, 0x6e, 0x74, 0x69, 0x74, 0x79];
    assert(key@ =~= identity_key_bytes());
    key
}

/// The task id a secret key names under `prefix`: the key must be UTF-8
/// text that starts with the prefix and continues with a `u64` in decimal.
pub open spec fn note_id_of_key(prefix: Seq<u8>, key: Seq<u8>) -> Option<u64> {
    if valid_utf8(key) && prefix.len() <= key.len() && key.take(prefix.len() as int) == prefix {
        parsed_u64(key.skip(prefix.len() as int))
    } else {
        None
    }
}

/// The task ids that the keys name under `prefix`, in the keys' order.
pub open spec fn listed_note_ids(prefix: Seq<u8>, keys: Seq<Vec<u8>>) -> Seq<u64> {
    keys.filter_map(|key: Vec<u8>| note_id_of_key(prefix, key@))
}

/// Ascending order.
pub open spec fn is_sorted(ids: Seq<u64>) -> bool {
    forall|i: int, j: int| 0 <= i <= j < ids.len() ==> ids[i] <= ids[j]
}

proof fn lemma_digits_after_text_are_utf8(prefix: Seq<u8>, key: Seq<u8>)
    requires
        valid_utf8(prefix),
        prefix.len() <= key.len(),
        key.take(prefix.len() as int) == prefix,
        parsed_u64(key.skip(prefix.len() as int)) is Some,
    ensures
        valid_utf8(key),
{
    let rest = key.skip(prefix.len() as int);
    assert forall|i: int| 0 <= i < rest.len() implies #[trigger] rest[i] < 128 by {
        if !(rest.len() > 1 && rest[0] == 43) || i > 0 {
            let d = crate::text::unsigned_digits(rest);
            if rest.len() > 1 && rest[0] == 43 {
                assert(rest[i] == d[i - 1]);
            } else {
                assert(rest[i] == d[i]);
            }
        }
    }
    let chars = rest.map_values(|b: u8| b as char);
    assert(vstd::utf8::is_ascii_chars(chars));
    vstd::utf8::is_ascii_chars_encode_utf8(chars);
    assert(encode_utf8(chars) =~= rest);
    vstd::utf8::encode_utf8_valid_utf8(chars);
    vstd::utf8::valid_utf8_concat(prefix, rest);
    assert(prefix + rest =~= key);
}

fn starts_with(key: &[u8], prefix: &[u8]) -> (yes: bool)
    ensures
        yes == (prefix@.len() <= key@.len() && key@.take(prefix@.len() as int) == prefix@),
{
    if prefix.len() > key.len() {
        return false;
    }
    let mut i: usize = 0;
    while i < prefix.len()
        invariant
            i <= prefix@.len() <= key@.len(),
            key@.take(i as int) == prefix@.take(i as int),
        decreases prefix@.len() - i,
    {
        if key[i] != prefix[i] {
            assert(key@.take(prefix@.len() as int)[i as int] != prefix@[i as int]);
            return false;
        }
        assert(key@.take(i + 1) =~= key@.take(i as int).push(key@[i as int]));
        assert(prefix@.take(i + 1) =~= prefix@.take(i as int).push(prefix@[i as int]));
        i = i + 1;
    }
    assert(prefix@.take(i as int) =~= prefix@);
    true
}

fn note_id(prefix: &[u8], key: &[u8]) -> (id: Option<u64>)
    requires
        valid_utf8(prefix@),
    ensures
        id == note_id_of_key(prefix@, key@),
{
    if !starts_with(key, prefix) {
        return None;
    }
    let suffix = vstd::slice::slice_subrange(key, prefix.len(), key.len());
    assert(suffix@ =~= key@.skip(prefix@.len() as int));
    let id = parse_u64(suffix);
    proof {
        if id is Some {
            lemma_digits_after_text_are_utf8(prefix@, key@);
        }
    }
    id
}

/// Inserts `id` into an ascending vector, keeping it ascending.
fn insert_sorted(ids: &mut Vec<u64>, id: u64)
    requires
        is_sorted(old(ids)@),
    ensures
        is_sorted(final(ids)@),
        final(ids)@.to_multiset() == old(ids)@.to_multiset().insert(id),
{
    let mut pos: usize = 0;
    while pos < ids.len() && ids[pos] <= id
        invariant
            pos <= ids@.len(),
            forall|i: int| 0 <= i < pos ==> ids@[i] <= id,
        decreases ids@.len() - pos,
    {
        pos = pos + 1;
    }
    let ghost before = ids@;
    ids.insert(pos, id);
    proof {
        vstd::seq_lib::to_multiset_insert(before, pos as int, id);
        assert(ids@ == before.insert(pos as int, id));
        assert forall|i: int, j: int| 0 <= i <= j < ids@.len() implies ids@[i] <= ids@[j] by {
            if pos < before.len() {
                assert(before[pos as int] > id);
            }
        }
    }
}

/// The task ids of the notes among `keys` under `prefix`, in ascending
/// order: every key that is the prefix followed by a decimal `u64`.
pub fn note_ids(prefix: &str, keys: Vec<Vec<u8>>) -> (ids: Vec<u64>)
    ensures
        is_sorted(ids@),
        ids@.to_multiset() == listed_note_ids(encode_utf8(prefix@), keys@).to_multiset(),
{
    let pfx = prefix.as_bytes();
    proof {
        vstd::utf8::encode_utf8_valid_utf8(prefix@);
    }
    let ghost f = |key: Vec<u8>| note_id_of_key(pfx@, key@);
    let mut ids: Vec<u64> = Vec::new();
    let mut i: usize = 0;
    while i < keys.len()
        invariant
            i <= keys@.len(),
            valid_utf8(pfx@),
            pfx@ == encode_utf8(prefix@),
            f == (|key: Vec<u8>| note_id_of_key(pfx@, key@)),
            is_sorted(ids@),
            ids@.to_multiset() == keys@.take(i as int).filter_map(f).to_multiset(),
        decreases keys@.len() - i,
    {
        let id = note_id(pfx, keys[i].as_slice());
        proof {
            keys@.lemma_filter_map_take_succ(f, i as int);
        }
        match id {
            Some(v) => {
                let ghost before = keys@.take(i as int).filter_map(f);
                insert_sorted(&mut ids, v);
                proof {
                    vstd::seq_lib::to_multiset_build(before, v);
                    assert(before + seq![v] == before.push(v));
                }
            },
            None => {
                assert(keys@.take(i as int).filter_map(f) + Seq::<u64>::empty() =~= keys@.take(
                    i as int,
                ).filter_map(f));
            },
        }
        i = i + 1;
    }
    assert(keys@.take(i as int) =~= keys@);
    ids
}

/// A request from the web app.
pub enum Request {
    SaveNote { task_id: u64, text: String },
    GetNote { task_id: u64 },
    ListNotes,
    DeleteNote { task_id: u64 },
    SaveIdentity { private_key_hex: String, public_key_hex: String },
    GetIdentity,
}

/// The delegate's answer to a request.
#[derive(Debug, PartialEq, Eq)]
pub enum Response {
    Saved { task_id: u64 },
    Note { task_id: u64, text: Option<String> },
    NotesList { task_ids: Vec<u64> },
    Deleted { task_id: u64 },
    Identity { private_key_hex: Option<String>, public_key_hex: Option<String> },
    IdentitySaved,
    Error { message: String },
}

/// What serving a request asks of the secret store.
pub enum SecretOp {
    /// Store `value` under `key`.
    Store { key: Vec<u8>, value: Vec<u8> },
    /// Read the value under `key`.
    Fetch { key: Vec<u8> },
    /// Remove the value under `key`.
    Remove { key: Vec<u8> },
    /// List the keys that start with `prefix`.
    List { prefix: Vec<u8> },
    /// Store the two hex strings, encoded together, under `key`.
    StoreIdentity { key: Vec<u8>, private_key_hex: String, public_key_hex: String },
    /// Read and decode the two hex strings stored under `key`.
    FetchIdentity { key: Vec<u8> },
}

/// What the secret store answered.
pub enum SecretReply {
    /// Whether the store accepted the value.
    Stored(bool),
    /// The value under the key, if any.
    Fetched(Option<Vec<u8>>),
    /// The removal was carried out (its outcome is not reported).
    Removed,
    /// The keys found.
    Listed(Vec<Vec<u8>>),
    /// The two hex strings, when a value was stored and it decoded.
    IdentityFetched(Option<(String, String)>),
}

/// Whether `op` is the store operation that serves `request` from `origin`.
pub open spec fn serves(op: SecretOp, origin: Option<Origin>, request: Request) -> bool {
    let key_of = |task_id: u64| note_key_bytes(note_prefix(origin), task_id);
    match request {
        Request::SaveNote { task_id, text } => op matches SecretOp::Store { key, value } && key@
            == key_of(task_id) && value@ == encode_utf8(text@),
        Request::GetNote { task_id } => op matches SecretOp::Fetch { key } && key@ == key_of(
            task_id,
        ),
        Request::DeleteNote { task_id } => op matches SecretOp::Remove { key } && key@ == key_of(
            task_id,
        ),
        Request::ListNotes => op matches SecretOp::List { prefix } && prefix@ == encode_utf8(
            note_prefix(origin),
        ),
        Request::SaveIdentity { private_key_hex, public_key_hex } => op matches SecretOp::StoreIdentity {
            key,
            private_key_hex: p,
            public_key_hex: q,
        } && key@ == identity_key_bytes() && p@ == private_key_hex@ && q@ == public_key_hex@,
        Request::GetIdentity => op matches SecretOp::FetchIdentity { key } && key@
            == identity_key_bytes(),
    }
}

/// The store operation that serves `request` from `origin`.
pub fn plan_request(origin: &Option<Origin>, request: &Request) -> (op: SecretOp)
    ensures
        serves(op, *origin, *request),
{
    let prefix = instance_prefix(origin);
    match request {
        Request::SaveNote { task_id, text } => SecretOp::Store {
            key: note_key(prefix.as_str(), *task_id),
            value: vstd::slice::slice_to_vec(text.as_str().as_bytes()),
        },
        Request::GetNote { task_id } => SecretOp::Fetch { key: note_key(prefix.as_str(), *task_id) },
        Request::DeleteNote { task_id } => SecretOp::Remove {
            key: note_key(prefix.as_str(), *task_id),
        },
        Request::ListNotes => SecretOp::List {
            prefix: vstd::slice::slice_to_vec(prefix.as_str().as_bytes()),
        },
        Request::SaveIdentity { private_key_hex, public_key_hex } => SecretOp::StoreIdentity {
            key: identity_key(),
            private_key_hex: private_key_hex.clone(),
            public_key_hex: public_key_hex.clone(),
        },
        Request::GetIdentity => SecretOp::FetchIdentity { key: identity_key() },
    }
}

/// Whether the store's reply is of the kind the request's operation gives.
pub open spec fn reply_fits(request: Request, reply: SecretReply) -> bool {
    match request {
        Request::SaveNote { .. } => reply is Stored,
        Request::GetNote { .. } => reply is Fetched,
        Request::DeleteNote { .. } => reply is Removed,
        Request::ListNotes => reply is Listed,
        Request::SaveIdentity { .. } => reply is Stored,
        Request::GetIdentity => reply is IdentityFetched,
    }
}

/// The note text that stored bytes give back: the text they encode when
/// they are UTF-8, nothing otherwise.
pub open spec fn note_text_is(stored: Option<Vec<u8>>, text: Option<String>) -> bool {
    match stored {
        Some(bytes) => if valid_utf8(bytes@) {
            text matches Some(t) && t@ == decode_utf8(bytes@)
        } else {
            text is None
        },
        None => text is None,
    }
}

/// Whether `response` is the delegate's answer to `request` from `origin`
/// once the store gave `reply`.
pub open spec fn is_response(
    origin: Option<Origin>,
    request: Request,
    reply: SecretReply,
    response: Response,
) -> bool {
    match (request, reply) {
        (Request::SaveNote { task_id, .. }, SecretReply::Stored(ok)) => if ok {
            response == Response::Saved { task_id }
        } else {
            response matches Response::Error { message } && message@ == "set_secret failed"@
        },
        (Request::GetNote { task_id }, SecretReply::Fetched(stored)) => response matches Response::Note {
            task_id: t,
            text,
        } && t == task_id && note_text_is(stored, text),
        (Request::DeleteNote { task_id }, SecretReply::Removed) => response == Response::Deleted {
            task_id,
        },
        (Request::ListNotes, SecretReply::Listed(keys)) => response matches Response::NotesList {
            task_ids,
        } && is_sorted(task_ids@) && task_ids@.to_multiset() == listed_note_ids(
            encode_utf8(note_prefix(origin)),
            keys@,
        ).to_multiset(),
        (Request::SaveIdentity { .. }, SecretReply::Stored(ok)) => if ok {
            response == Response::IdentitySaved
        } else {
            response matches Response::Error { message } && message@
                == "set_secret failed for identity"@
        },
        (Request::GetIdentity, SecretReply::IdentityFetched(found)) => match found {
            Some((p, q)) => response == Response::Identity {
                private_key_hex: Some(p),
                public_key_hex: Some(q),
            },
            None => response == Response::Identity { private_key_hex: None, public_key_hex: None },
        },
        _ => false,
    }
}

/// The answer to `request` from `origin`, given the store's reply to the
/// operation `plan_request` chose.
pub fn respond(origin: &Option<Origin>, request: Request, reply: SecretReply) -> (response: Response)
    requires
        reply_fits(request, reply),
    ensures
        is_response(*origin, request, reply, response),
{
    match (request, reply) {
        (Request::SaveNote { task_id, .. }, SecretReply::Stored(ok)) => if ok {
            Response::Saved { task_id }
        } else {
            Response::Error { message: String::from_str("set_secret failed") }
        },
        (Request::GetNote { task_id }, SecretReply::Fetched(stored)) => {
            let text = match stored {
                Some(bytes) => string_from_utf8(bytes),
                None => None,
            };
            Response::Note { task_id, text }
        },
        (Request::DeleteNote { task_id }, SecretReply::Removed) => Response::Deleted { task_id },
        (Request::ListNotes, SecretReply::Listed(keys)) => {
            let prefix = instance_prefix(origin);
            Response::NotesList { task_ids: note_ids(prefix.as_str(), keys) }
        },
        (Request::SaveIdentity { .. }, SecretReply::Stored(ok)) => if ok {
            Response::IdentitySaved
        } else {
            Response::Error { message: String::from_str("set_secret failed for identity") }
        },
        (Request::GetIdentity, SecretReply::IdentityFetched(found)) => match found {
            Some((p, q)) => Response::Identity { private_key_hex: Some(p), public_key_hex: Some(q) },
            None => Response::Identity { private_key_hex: None, public_key_hex: None },
        },
        _ => {
            assert(false);
            Response::IdentitySaved
        },
    }
}

/// The ids of the keys, in order, whose prefix is `prefix`.
pub open spec fn ids_under(prefix: Seq<char>, prefixes: Seq<Seq<char>>, ids: Seq<u64>) -> Seq<u64>
    decreases ids.len(),
{
    if ids.len() == 0 || prefixes.len() == 0 {
        Seq::empty()
    } else if prefixes.last() == prefix {
        ids_under(prefix, prefixes.drop_last(), ids.drop_last()).push(ids.last())
    } else {
        ids_under(prefix, prefixes.drop_last(), ids.drop_last())
    }
}

proof fn lemma_ascii_encoding(text: Seq<char>)
    requires
        vstd::utf8::is_ascii_chars(text),
    ensures
        encode_utf8(text).len() == text.len(),
        forall|i: int| 0 <= i < text.len() ==> #[trigger] encode_utf8(text)[i] == text[i] as u8,
{
    vstd::utf8::is_ascii_chars_encode_utf8(text);
}

proof fn lemma_own_key_names_its_id(prefix: Seq<char>, id: u64)
    ensures
        note_id_of_key(encode_utf8(prefix), note_key_bytes(prefix, id)) == Some(id),
{
    let p = encode_utf8(prefix);
    let key = note_key_bytes(prefix, id);
    let digits = decimal_digits(id as nat);
    crate::text::decimal_text_round_trip(id);
    vstd::utf8::encode_utf8_valid_utf8(prefix);
    assert(key.take(p.len() as int) =~= p);
    assert(key.skip(p.len() as int) =~= digits);
    lemma_digits_after_text_are_utf8(p, key);
}

proof fn lemma_other_key_not_listed(mine: Seq<char>, theirs: Seq<char>, id: u64)
    requires
        is_note_prefix(mine),
        is_note_prefix(theirs),
        mine != theirs,
    ensures
        note_id_of_key(encode_utf8(mine), note_key_bytes(theirs, id)) is None,
{
    let p = encode_utf8(mine);
    let key = note_key_bytes(theirs, id);
    let q = encode_utf8(theirs);
    lemma_ascii_encoding(mine);
    lemma_ascii_encoding(theirs);
    if p.len() <= key.len() && key.take(p.len() as int) == p {
        let m = mine.len() as int;
        let t = theirs.len() as int;
        assert(key.take(p.len() as int)[m - 1] == p[m - 1]);
        if m < t {
            assert(key[m - 1] == q[m - 1]);
            assert(theirs[m - 1] != ':');
            assert(mine[m - 1] == ':');
            assert(false);
        } else if m > t {
            assert(key[t - 1] == q[t - 1]);
            assert(key.take(p.len() as int)[t - 1] == p[t - 1]);
            assert(mine[t - 1] != ':');
            assert(false);
        } else {
            assert forall|i: int| 0 <= i < m implies mine[i] == theirs[i] by {
                assert(key.take(p.len() as int)[i] == p[i]);
                assert(key[i] == q[i]);
                assert('\0' <= mine[i] <= '\u{7f}');
                assert('\0' <= theirs[i] <= '\u{7f}');
            }
            assert(mine =~= theirs);
        }
    }
}

/// Listing the notes of an origin gives back exactly the task ids of the
/// notes saved under its prefix, in whatever order, and none of the notes
/// saved under the prefix of another origin.
pub proof fn notes_listing_returns_own_notes(
    prefix: Seq<char>,
    prefixes: Seq<Seq<char>>,
    ids: Seq<u64>,
    keys: Seq<Vec<u8>>,
)
    requires
        is_note_prefix(prefix),
        prefixes.len() == ids.len(),
        keys.len() == ids.len(),
        forall|i: int|
            0 <= i < keys.len() ==> is_note_prefix(#[trigger] prefixes[i]) && keys[i]@
                == note_key_bytes(prefixes[i], ids[i]),
    ensures
        listed_note_ids(encode_utf8(prefix), keys) == ids_under(prefix, prefixes, ids),
    decreases keys.len(),
{
    if keys.len() > 0 {
        let n = keys.len() - 1;
        notes_listing_returns_own_notes(
            prefix,
            prefixes.drop_last(),
            ids.drop_last(),
            keys.drop_last(),
        );
        if prefixes[n] == prefix {
            lemma_own_key_names_its_id(prefix, ids[n]);
        } else {
            lemma_other_key_not_listed(prefix, prefixes[n], ids[n]);
        }
    }
}

/// Notes never share a secret key: two note keys are equal only for the
/// same prefix (so the same web app) and the same task.
pub proof fn note_keys_are_distinct(p: Seq<char>, q: Seq<char>, i: u64, j: u64)
    requires
        is_note_prefix(p),
        is_note_prefix(q),
        note_key_bytes(p, i) == note_key_bytes(q, j),
    ensures
        p == q,
        i == j,
{
    lemma_own_key_names_its_id(p, i);
    lemma_own_key_names_its_id(q, j);
    if p != q {
        lemma_other_key_not_listed(p, q, j);
    }
}

/// What the secret store holds under a key, as the operations of this
/// module write it: note bytes, or the two hex strings of the identity
/// (which are encoded together around the library and decoded on reading).
pub enum StoredSecret {
    Bytes(Seq<u8>),
    IdentityPair(Seq<char>, Seq<char>),
}

/// The store after `op`, for a store that keeps what it is given.
pub open spec fn store_after(store: Map<Seq<u8>, StoredSecret>, op: SecretOp) -> Map<
    Seq<u8>,
    StoredSecret,
> {
    match op {
        SecretOp::Store { key, value } => store.insert(key@, StoredSecret::Bytes(value@)),
        SecretOp::Remove { key } => store.remove(key@),
        SecretOp::StoreIdentity { key, private_key_hex, public_key_hex } => store.insert(
            key@,
            StoredSecret::IdentityPair(private_key_hex@, public_key_hex@),
        ),
        _ => store,
    }
}

/// Whether `reply` is what a store that keeps what it is given, holding
/// `store`, answers to `op`.
pub open spec fn store_answers(store: Map<Seq<u8>, StoredSecret>, op: SecretOp, reply: SecretReply) -> bool {
    match op {
        SecretOp::Store { .. } => reply == SecretReply::Stored(true),
        SecretOp::StoreIdentity { .. } => reply == SecretReply::Stored(true),
        SecretOp::Remove { .. } => reply is Removed,
        SecretOp::Fetch { key } => reply matches SecretReply::Fetched(found) && if store.contains_key(
            key@,
        ) && store[key@] is Bytes {
            found matches Some(bytes) && bytes@ == store[key@]->Bytes_0
        } else {
            found is None
        },
        SecretOp::FetchIdentity { key } => reply matches SecretReply::IdentityFetched(found)
            && if store.contains_key(key@) && store[key@] is IdentityPair {
            found matches Some(pair) && pair.0@ == store[key@]->IdentityPair_0 && pair.1@
                == store[key@]->IdentityPair_1
        } else {
            found is None
        },
        SecretOp::List { prefix } => reply matches SecretReply::Listed(keys) && forall|i: int|
            0 <= i < keys.len() ==> store.contains_key(#[trigger] keys[i]@) && prefix@.is_prefix_of(
                keys[i]@,
            ),
    }
}

/// Whether the request saves or deletes the note of `task_id`.
pub open spec fn writes_note(request: Request, task_id: u64) -> bool {
    match request {
        Request::SaveNote { task_id: t, .. } => t == task_id,
        Request::DeleteNote { task_id: t } => t == task_id,
        _ => false,
    }
}

proof fn lemma_request_leaves_note_alone(
    prefix: Seq<char>,
    task_id: u64,
    store: Map<Seq<u8>, StoredSecret>,
    origin: Option<Origin>,
    request: Request,
    op: SecretOp,
)
    requires
        is_note_prefix(prefix),
        is_note_prefix(note_prefix(origin)),
        serves(op, origin, request),
        !(note_prefix(origin) == prefix && writes_note(request, task_id)),
    ensures
        ({
            let key = note_key_bytes(prefix, task_id);
            &&& store_after(store, op).contains_key(key) == store.contains_key(key)
            &&& store.contains_key(key) ==> store_after(store, op)[key] == store[key]
        }),
{
    let key = note_key_bytes(prefix, task_id);
    match request {
        Request::SaveNote { task_id: t, .. } => {
            if note_key_bytes(note_prefix(origin), t) == key {
                note_keys_are_distinct(note_prefix(origin), prefix, t, task_id);
            }
        },
        Request::DeleteNote { task_id: t } => {
            if note_key_bytes(note_prefix(origin), t) == key {
                note_keys_are_distinct(note_prefix(origin), prefix, t, task_id);
            }
        },
        Request::SaveIdentity { .. } => {
            lemma_identity_key_is_no_note_key(prefix, task_id);
        },
        _ => {},
    }
}

proof fn lemma_identity_key_is_no_note_key(prefix: Seq<char>, task_id: u64)
    requires
        is_note_prefix(prefix),
    ensures
        note_key_bytes(prefix, task_id) != identity_key_bytes(),
{
    lemma_ascii_encoding(prefix);
    assert(prefix[0] == 'n') by {
        reveal_strlit("note:");
        assert("note:"@[0] == 'n');
        assert(prefix.take(5)[0] == prefix[0]);
    }
    assert(encode_utf8(prefix)[0] == 0x6e);
    assert(note_key_bytes(prefix, task_id)[0] == encode_utf8(prefix)[0]);
    assert(identity_key_bytes()[0] == 0x69);
}

proof fn lemma_request_leaves_identity_alone(
    store: Map<Seq<u8>, StoredSecret>,
    origin: Option<Origin>,
    request: Request,
    op: SecretOp,
)
    requires
        is_note_prefix(note_prefix(origin)),
        serves(op, origin, request),
        !(request is SaveIdentity),
    ensures
        ({
            let key = identity_key_bytes();
            &&& store_after(store, op).contains_key(key) == store.contains_key(key)
            &&& store.contains_key(key) ==> store_after(store, op)[key] == store[key]
        }),
{
    match request {
        Request::SaveNote { task_id: t, .. } => {
            lemma_identity_key_is_no_note_key(note_prefix(origin), t);
        },
        Request::DeleteNote { task_id: t } => {
            lemma_identity_key_is_no_note_key(note_prefix(origin), t);
        },
        _ => {},
    }
}

/// The store after the operations, in order.
pub open spec fn store_after_all(store: Map<Seq<u8>, StoredSecret>, ops: Seq<SecretOp>) -> Map<
    Seq<u8>,
    StoredSecret,
>
    decreases ops.len(),
{
    if ops.len() == 0 {
        store
    } else {
        store_after(store_after_all(store, ops.drop_last()), ops.last())
    }
}

/// Each operation serves the request at the same place, sent from the
/// origin at the same place, and each origin's note prefix has the shape
/// `instance_prefix` gives every prefix.
pub open spec fn serves_all(ops: Seq<SecretOp>, origins: Seq<Option<Origin>>, requests: Seq<Request>) -> bool {
    &&& ops.len() == origins.len()
    &&& ops.len() == requests.len()
    &&& forall|i: int|
        0 <= i < ops.len() ==> serves(#[trigger] ops[i], origins[i], requests[i])
            && is_note_prefix(note_prefix(origins[i]))
}

/// Requests that do not save or delete the note of task `task_id` under
/// `prefix`, however many, leave that note as it was. (Origins that share
/// the prefix share the note.)
pub proof fn requests_leave_a_note_alone(
    prefix: Seq<char>,
    task_id: u64,
    store: Map<Seq<u8>, StoredSecret>,
    origins: Seq<Option<Origin>>,
    requests: Seq<Request>,
    ops: Seq<SecretOp>,
)
    requires
        is_note_prefix(prefix),
        serves_all(ops, origins, requests),
        forall|i: int|
            0 <= i < requests.len() ==> !(note_prefix(origins[i]) == prefix && writes_note(
                #[trigger] requests[i],
                task_id,
            )),
    ensures
        ({
            let key = note_key_bytes(prefix, task_id);
            &&& store_after_all(store, ops).contains_key(key) == store.contains_key(key)
            &&& store.contains_key(key) ==> store_after_all(store, ops)[key] == store[key]
        }),
    decreases ops.len(),
{
    if ops.len() > 0 {
        let n = ops.len() - 1;
        requests_leave_a_note_alone(
            prefix,
            task_id,
            store,
            origins.drop_last(),
            requests.drop_last(),
            ops.drop_last(),
        );
        assert(serves(ops[n], origins[n], requests[n]));
        assert(!(note_prefix(origins[n]) == prefix && writes_note(requests[n], task_id)));
        lemma_request_leaves_note_alone(
            prefix,
            task_id,
            store_after_all(store, ops.drop_last()),
            origins[n],
            requests[n],
            ops[n],
        );
    }
}

/// Requests other than `SaveIdentity`, however many, leave the identity
/// secret as it was.
pub proof fn requests_leave_the_identity_alone(
    store: Map<Seq<u8>, StoredSecret>,
    origins: Seq<Option<Origin>>,
    requests: Seq<Request>,
    ops: Seq<SecretOp>,
)
    requires
        serves_all(ops, origins, requests),
        forall|i: int| 0 <= i < requests.len() ==> !(#[trigger] requests[i] is SaveIdentity),
    ensures
        ({
            let key = identity_key_bytes();
            &&& store_after_all(store, ops).contains_key(key) == store.contains_key(key)
            &&& store.contains_key(key) ==> store_after_all(store, ops)[key] == store[key]
        }),
    decreases ops.len(),
{
    if ops.len() > 0 {
        let n = ops.len() - 1;
        requests_leave_the_identity_alone(
            store,
            origins.drop_last(),
            requests.drop_last(),
            ops.drop_last(),
        );
        assert(serves(ops[n], origins[n], requests[n]));
        assert(!(requests[n] is SaveIdentity));
        lemma_request_leaves_identity_alone(
            store_after_all(store, ops.drop_last()),
            origins[n],
            requests[n],
            ops[n],
        );
    }
}

/// What a read gives back of a write. Saving `text` as the note of a task
/// is answered `Saved`; after any requests that do not save or delete that
/// note, reading it from the same origin answers the saved text, and the
/// read changes no secret.
pub proof fn saved_note_is_read_back(
    origin: Option<Origin>,
    task_id: u64,
    text: String,
    store: Map<Seq<u8>, StoredSecret>,
    save: SecretOp,
    saved: SecretReply,
    save_response: Response,
    origins: Seq<Option<Origin>>,
    requests: Seq<Request>,
    ops: Seq<SecretOp>,
    fetch: SecretOp,
    fetched: SecretReply,
    response: Response,
)
    requires
        is_note_prefix(note_prefix(origin)),
        serves(save, origin, Request::SaveNote { task_id, text }),
        store_answers(store, save, saved),
        is_response(origin, Request::SaveNote { task_id, text }, saved, save_response),
        serves_all(ops, origins, requests),
        forall|i: int|
            0 <= i < requests.len() ==> !(note_prefix(origins[i]) == note_prefix(origin)
                && writes_note(#[trigger] requests[i], task_id)),
        serves(fetch, origin, Request::GetNote { task_id }),
        store_answers(store_after_all(store_after(store, save), ops), fetch, fetched),
        is_response(origin, Request::GetNote { task_id }, fetched, response),
    ensures
        save_response == (Response::Saved { task_id }),
        (response matches Response::Note { task_id: t, text: Some(s) } && t == task_id && s@ == text@),
        store_after(store_after_all(store_after(store, save), ops), fetch) == store_after_all(
            store_after(store, save),
            ops,
        ),
{
    requests_leave_a_note_alone(
        note_prefix(origin),
        task_id,
        store_after(store, save),
        origins,
        requests,
        ops,
    );
    vstd::utf8::encode_utf8_valid_utf8(text@);
    vstd::utf8::encode_utf8_decode_utf8(text@);
}

/// Reading the note of a task that the store does not hold under the
/// origin's prefix, after any requests that do not save it, answers no
/// text, and changes no secret.
pub proof fn unsaved_note_reads_nothing(
    origin: Option<Origin>,
    task_id: u64,
    store: Map<Seq<u8>, StoredSecret>,
    origins: Seq<Option<Origin>>,
    requests: Seq<Request>,
    ops: Seq<SecretOp>,
    fetch: SecretOp,
    fetched: SecretReply,
    response: Response,
)
    requires
        is_note_prefix(note_prefix(origin)),
        !store.contains_key(note_key_bytes(note_prefix(origin), task_id)),
        serves_all(ops, origins, requests),
        forall|i: int|
            0 <= i < requests.len() ==> !(note_prefix(origins[i]) == note_prefix(origin)
                && writes_note(#[trigger] requests[i], task_id)),
        serves(fetch, origin, Request::GetNote { task_id }),
        store_answers(store_after_all(store, ops), fetch, fetched),
        is_response(origin, Request::GetNote { task_id }, fetched, response),
    ensures
        response == (Response::Note { task_id, text: None }),
        store_after(store_after_all(store, ops), fetch) == store_after_all(store, ops),
{
    requests_leave_a_note_alone(note_prefix(origin), task_id, store, origins, requests, ops);
}

/// The identity saved last is the one read back: saving the two hex
/// strings is answered `IdentitySaved`, and reading the identity after any
/// requests other than `SaveIdentity` answers both strings, without changing
/// any secret.
pub proof fn saved_identity_is_read_back(
    origin: Option<Origin>,
    private_key_hex: String,
    public_key_hex: String,
    store: Map<Seq<u8>, StoredSecret>,
    save: SecretOp,
    saved: SecretReply,
    save_response: Response,
    origins: Seq<Option<Origin>>,
    requests: Seq<Request>,
    ops: Seq<SecretOp>,
    fetch: SecretOp,
    fetched: SecretReply,
    response: Response,
)
    requires
        serves(save, origin, Request::SaveIdentity { private_key_hex, public_key_hex }),
        store_answers(store, save, saved),
        is_response(origin, Request::SaveIdentity { private_key_hex, public_key_hex }, saved, save_response),
        serves_all(ops, origins, requests),
        forall|i: int| 0 <= i < requests.len() ==> !(#[trigger] requests[i] is SaveIdentity),
        serves(fetch, origin, Request::GetIdentity),
        store_answers(store_after_all(store_after(store, save), ops), fetch, fetched),
        is_response(origin, Request::GetIdentity, fetched, response),
    ensures
        save_response == Response::IdentitySaved,
        (response matches Response::Identity { private_key_hex: Some(p), public_key_hex: Some(q) }
            && p@ == private_key_hex@ && q@ == public_key_hex@),
        store_after(store_after_all(store_after(store, save), ops), fetch) == store_after_all(
            store_after(store, save),
            ops,
        ),
{
    requests_leave_the_identity_alone(store_after(store, save), origins, requests, ops);
}

/// With no identity stored, and none saved by the requests since, reading
/// it answers no key.
pub proof fn missing_identity_reads_nothing(
    origin: Option<Origin>,
    store: Map<Seq<u8>, StoredSecret>,
    origins: Seq<Option<Origin>>,
    requests: Seq<Request>,
    ops: Seq<SecretOp>,
    fetch: SecretOp,
    fetched: SecretReply,
    response: Response,
)
    requires
        !store.contains_key(identity_key_bytes()),
        serves_all(ops, origins, requests),
        forall|i: int| 0 <= i < requests.len() ==> !(#[trigger] requests[i] is SaveIdentity),
        serves(fetch, origin, Request::GetIdentity),
        store_answers(store_after_all(store, ops), fetch, fetched),
        is_response(origin, Request::GetIdentity, fetched, response),
    ensures
        response == (Response::Identity { private_key_hex: None, public_key_hex: None }),
{
    requests_leave_the_identity_alone(store, origins, requests, ops);
}

/// A web app's note prefix names its contract instance: the text between
/// `note:` and the final `:` decodes, into 32 bytes, to exactly the instance
/// id, in order (given that decoding undoes the Base58 encoding of the id,
/// which `instance_prefix` establishes for every id it writes).
pub proof fn web_app_prefix_names_its_instance(id: [u8; 32])
    requires
        base58_into_32(base58_text(id@)) == Some(id@),
    ensures
        ({
            let p = note_prefix(Some(Origin::WebApp(id)));
            base58_into_32(p.subrange(5, p.len() - 1)) == Some(id@)
        }),
{
    let p = note_prefix(Some(Origin::WebApp(id)));
    assert(p.subrange(5, p.len() - 1) =~= base58_text(id@)) by {
        reveal_strlit("note:");
        reveal_strlit(":");
    }
}

/// Listing asks for the notes an origin saves: the prefix of the `List`
/// operation that serves `ListNotes` begins the key under which a
/// `SaveNote` from the same origin stores its note, and the key, read under
/// that prefix, names the saved task.
pub proof fn listing_covers_saved_notes(
    origin: Option<Origin>,
    task_id: u64,
    text: String,
    save: SecretOp,
    list: SecretOp,
)
    requires
        serves(save, origin, Request::SaveNote { task_id, text }),
        serves(list, origin, Request::ListNotes),
    ensures
        list->List_prefix@.is_prefix_of(save->Store_key@),
        note_id_of_key(list->List_prefix@, save->Store_key@) == Some(task_id),
{
    lemma_own_key_names_its_id(note_prefix(origin), task_id);
    let p = encode_utf8(note_prefix(origin));
    let key = note_key_bytes(note_prefix(origin), task_id);
    assert(key.take(p.len() as int) =~= p);
    assert(key.subrange(0, p.len() as int) =~= p);
}

proof fn lemma_listed_ids_hold(keys: Seq<Vec<u8>>, prefix: Seq<u8>, i: int, id: u64)
    requires
        0 <= i < keys.len(),
        note_id_of_key(prefix, keys[i]@) == Some(id),
    ensures
        listed_note_ids(prefix, keys).contains(id),
    decreases keys.len(),
{
    let rest = keys.drop_last();
    let before = listed_note_ids(prefix, rest);
    if i == keys.len() - 1 {
        assert(listed_note_ids(prefix, keys) == before + seq![id]);
        assert((before + seq![id])[before.len() as int] == id);
    } else {
        assert(rest[i] == keys[i]);
        lemma_listed_ids_hold(rest, prefix, i, id);
        let j = choose|j: int| 0 <= j < before.len() && before[j] == id;
        match note_id_of_key(prefix, keys.last()@) {
            Some(v) => {
                assert(listed_note_ids(prefix, keys) == before + seq![v]);
                assert((before + seq![v])[j] == id);
            },
            None => {
                assert(listed_note_ids(prefix, keys) == before);
            },
        }
    }
}

/// Save then list: when the keys the store lists include the key under
/// which an origin's `SaveNote` stored its note, the origin's `NotesList`
/// answer holds that task id.
pub proof fn listing_returns_saved_notes(
    origin: Option<Origin>,
    task_id: u64,
    text: String,
    save: SecretOp,
    keys: Vec<Vec<u8>>,
    i: int,
    response: Response,
)
    requires
        serves(save, origin, Request::SaveNote { task_id, text }),
        0 <= i < keys@.len(),
        keys@[i]@ == save->Store_key@,
        is_response(origin, Request::ListNotes, SecretReply::Listed(keys), response),
    ensures
        (response matches Response::NotesList { task_ids } && task_ids@.contains(task_id)),
{
    lemma_own_key_names_its_id(note_prefix(origin), task_id);
    let prefix = encode_utf8(note_prefix(origin));
    lemma_listed_ids_hold(keys@, prefix, i, task_id);
    let listed = listed_note_ids(prefix, keys@);
    vstd::seq_lib::to_multiset_contains(listed, task_id);
    if let Response::NotesList { task_ids } = response {
        vstd::seq_lib::to_multiset_contains(task_ids@, task_id);
    }
}

/// Notes are kept apart per web app: the same task's note saved by two web
/// apps backed by different contract instances goes under two different
/// keys (given that decoding undoes the Base58 encoding of each id, as
/// `instance_prefix` establishes, and that both prefixes have the shape it
/// gives every prefix).
pub proof fn web_apps_keep_their_notes_apart(
    a: [u8; 32],
    b: [u8; 32],
    task_id: u64,
    text_a: String,
    text_b: String,
    save_a: SecretOp,
    save_b: SecretOp,
)
    requires
        a@ != b@,
        base58_into_32(base58_text(a@)) == Some(a@),
        base58_into_32(base58_text(b@)) == Some(b@),
        is_note_prefix(note_prefix(Some(Origin::WebApp(a)))),
        is_note_prefix(note_prefix(Some(Origin::WebApp(b)))),
        serves(save_a, Some(Origin::WebApp(a)), Request::SaveNote { task_id, text: text_a }),
        serves(save_b, Some(Origin::WebApp(b)), Request::SaveNote { task_id, text: text_b }),
    ensures
        save_a->Store_key@ != save_b->Store_key@,
{
    let (pa, pb) = (note_prefix(Some(Origin::WebApp(a))), note_prefix(Some(Origin::WebApp(b))));
    if save_a->Store_key@ == save_b->Store_key@ {
        note_keys_are_distinct(pa, pb, task_id, task_id);
        assert(pa == pb);
        web_app_prefix_names_its_instance(a);
        web_app_prefix_names_its_instance(b);
        assert(pa.subrange(5, pa.len() - 1) == pb.subrange(5, pb.len() - 1));
        assert(a@ == b@);
    }
}

} // verus!
