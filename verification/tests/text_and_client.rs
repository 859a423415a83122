use ed25519_dalek::{Signer, SigningKey, VerifyingKey};
use freenet_todo::client::{
    decode_key, hex_short, identity_from_private_hex, identity_from_secret, on_delegate_reply,
    task_delta, toggle_delta, ws_url, ClientAction,
};
use freenet_todo::delegate::Response;
use freenet_todo::text::{
    bytes_to_hex, decimal_bytes, hex_decode_checked, hex_to_bytes, parse_u64, HexError,
};
use freenet_todo::todo::TodoState;

#[test]
fn decimal_text() {
    assert_eq!(decimal_bytes(0), b"0".to_vec());
    assert_eq!(decimal_bytes(1234), b"1234".to_vec());
    assert_eq!(parse_u64(b"1234"), Some(1234));
    assert_eq!(parse_u64(b"+5"), Some(5));
    assert_eq!(parse_u64(b"0042"), Some(42));
    assert_eq!(parse_u64(b"18446744073709551615"), Some(u64::MAX));
    assert_eq!(parse_u64(b"18446744073709551616"), None);
    assert_eq!(parse_u64(b""), None);
    assert_eq!(parse_u64(b"+"), None);
    assert_eq!(parse_u64(b"-1"), None);
    assert_eq!(parse_u64(b"++1"), None);
    assert_eq!(parse_u64(b"1a"), None);
}

#[test]
fn hex_text() {
    assert_eq!(bytes_to_hex(&[0x00, 0x0f, 0xa0, 0xff]), "000fa0ff");
    assert_eq!(bytes_to_hex(&[]), "");
    assert_eq!(hex_to_bytes("000fa0ff"), Ok(vec![0x00, 0x0f, 0xa0, 0xff]));
    assert_eq!(hex_to_bytes("ABcd"), Ok(vec![0xab, 0xcd]));
    assert_eq!(hex_to_bytes("+f10"), Ok(vec![0x0f, 0x10]));
    assert_eq!(hex_to_bytes(""), Ok(vec![]));
    assert_eq!(hex_to_bytes("zz1"), Err(HexError::InvalidDigit));
    assert_eq!(hex_to_bytes("-1"), Err(HexError::InvalidDigit));
    assert_eq!(hex_to_bytes("é0"), Err(HexError::InvalidDigit));
    assert_eq!(hex_decode_checked("abc"), Err(HexError::BrokenPair));
    assert_eq!(hex_decode_checked("a€"), Err(HexError::BrokenPair));
    assert_eq!(hex_decode_checked("0g€"), Err(HexError::InvalidDigit));
    let bytes: Vec<u8> = (0..=255).collect();
    assert_eq!(hex_to_bytes(&bytes_to_hex(&bytes)), Ok(bytes));
}

#[test]
fn socket_address_follows_page_protocol() {
    assert_eq!(
        ws_url("https:", "example.org"),
        "wss://example.org/v1/contract/command?encodingProtocol=native"
    );
    assert_eq!(
        ws_url("http:", "127.0.0.1:7509"),
        "ws://127.0.0.1:7509/v1/contract/command?encodingProtocol=native"
    );
    assert_eq!(ws_url("", ""), "ws:///v1/contract/command?encodingProtocol=native");
}

#[test]
fn key_files_are_trimmed_base58() {
    let key = [9u8; 32];
    let text = format!("  {}\n", bs58::encode(key).into_string());
    assert_eq!(decode_key(&text), Some(key));
    let mut short = [0u8; 32];
    short[0] = 0x01;
    short[1] = 0x02;
    let text = format!("{}\n", bs58::encode([1u8, 2]).into_string());
    assert_eq!(decode_key(&text), Some(short));
    assert_eq!(decode_key("0OIl"), None);
    assert_eq!(decode_key(&bs58::encode([1u8; 33]).into_string()), None);
}

#[test]
fn identity_matches_ed25519() {
    let secret = [5u8; 32];
    let sk = SigningKey::from_bytes(&secret);
    let id = identity_from_secret(secret);
    assert_eq!(id.public_key, sk.verifying_key().to_bytes());
    assert_eq!(id.private_key_hex, "05".repeat(32));
    assert_eq!(id.public_key_hex, bytes_to_hex(&sk.verifying_key().to_bytes()));
    assert_eq!(id.short_id, id.public_key_hex[..8]);
    assert_eq!(hex_short(&[1, 2, 3, 4, 5]), "01020304");
}

#[test]
fn identity_is_restored_from_its_hex() {
    let id = identity_from_secret([42u8; 32]);
    let back = identity_from_private_hex(&id.private_key_hex).unwrap();
    assert_eq!(back.secret_key, [42u8; 32]);
    assert_eq!(back.public_key, id.public_key);
    assert!(identity_from_private_hex("0102").is_none());
    assert!(identity_from_private_hex(&"zz".repeat(32)).is_none());
}

#[test]
fn new_task_delta_is_signed_by_the_identity() {
    let secret = [11u8; 32];
    let delta = task_delta(&secret, "write tests".into(), 1_700_000_000_000);
    assert!(delta.toggles.is_empty());
    assert_eq!(delta.tasks.len(), 1);
    let t = delta.tasks.get(&1_700_000_000_000_000).unwrap();
    assert_eq!(t.text, "write tests");
    assert_eq!(t.created_at, 1_700_000_000_000);
    let sk = SigningKey::from_bytes(&secret);
    assert_eq!(t.author, sk.verifying_key().to_bytes());
    assert_eq!(t.signature, sk.sign(&t.signing_bytes()).to_bytes());
    let vk = VerifyingKey::from_bytes(&t.author).unwrap();
    assert!(vk.verify_strict(&t.signing_bytes(), &ed25519_dalek::Signature::from_bytes(&t.signature)).is_ok());
    let mut state = TodoState::default();
    state.merge(delta.clone());
    assert_eq!(state, delta);
}

#[test]
fn done_toggle_delta_is_signed_by_the_identity() {
    let secret = [12u8; 32];
    let delta = toggle_delta(&secret, 77, 1234);
    assert!(delta.tasks.is_empty());
    let t = delta.toggles.get(&77).unwrap();
    assert!(t.done);
    assert_eq!(t.ts, 1234);
    assert_eq!(t.verify(), Ok(true));
    let mut state = TodoState::default();
    state.merge(delta.clone());
    assert_eq!(state, delta);
}

#[test]
fn delegate_replies_drive_the_client() {
    let secret = [5u8; 32];
    let stored = Response::Identity {
        private_key_hex: Some(bytes_to_hex(&secret)),
        public_key_hex: Some(String::from("ignored")),
    };
    match on_delegate_reply(&stored) {
        ClientAction::UseIdentity(identity) => {
            assert_eq!(identity.secret_key, secret);
            assert_eq!(identity.public_key_hex, identity_from_secret(secret).public_key_hex);
        }
        _ => panic!("a stored identity must be taken"),
    }
    let short = Response::Identity { private_key_hex: Some(String::from("0a0b")), public_key_hex: None };
    assert!(matches!(on_delegate_reply(&short), ClientAction::Nothing));
    let bad = Response::Identity { private_key_hex: Some(String::from("zz")), public_key_hex: None };
    assert!(matches!(on_delegate_reply(&bad), ClientAction::Nothing));
    let missing = Response::Identity { private_key_hex: None, public_key_hex: None };
    assert!(matches!(on_delegate_reply(&missing), ClientAction::CreateIdentity));
    match on_delegate_reply(&Response::NotesList { task_ids: vec![3, 1, 2] }) {
        ClientAction::ShowReply { fetch_notes } => assert_eq!(fetch_notes, vec![3, 1, 2]),
        _ => panic!("a notes list is shown and its notes fetched"),
    }
    match on_delegate_reply(&Response::Note { task_id: 4, text: Some(String::from("hi")) }) {
        ClientAction::ShowReply { fetch_notes } => assert!(fetch_notes.is_empty()),
        _ => panic!("a note is shown"),
    }
    assert!(matches!(on_delegate_reply(&Response::IdentitySaved), ClientAction::ShowReply { .. }));
    assert!(matches!(on_delegate_reply(&Response::Deleted { task_id: 4 }), ClientAction::Nothing));
}
