use freenet_todo::delegate::{
    identity_key, instance_prefix, note_ids, note_key, plan_request, respond, Origin, Request,
    Response, SecretOp, SecretReply,
};

fn web_app() -> Option<Origin> {
    Some(Origin::WebApp([0u8; 32]))
}

#[test]
fn prefix_of_web_app_names_the_instance() {
    let id = [7u8; 32];
    let expected = format!("note:{}:", bs58::encode(id).into_string());
    assert_eq!(instance_prefix(&Some(Origin::WebApp(id))), expected);
    assert_eq!(instance_prefix(&web_app()), format!("note:{}:", "1".repeat(32)));
}

#[test]
fn prefix_without_web_app_is_shared() {
    assert_eq!(instance_prefix(&None), "note:_:");
    assert_eq!(instance_prefix(&Some(Origin::Delegate)), "note:_:");
}

#[test]
fn note_key_is_prefix_then_decimal_id() {
    assert_eq!(note_key("note:_:", 42), b"note:_:42".to_vec());
    assert_eq!(note_key("note:_:", 0), b"note:_:0".to_vec());
    assert_eq!(note_key("p", u64::MAX), b"p18446744073709551615".to_vec());
    assert_eq!(identity_key(), b"identity".to_vec());
}

#[test]
fn listing_keeps_own_decimal_ids_sorted() {
    let keys: Vec<Vec<u8>> = vec![
        b"note:A:30".to_vec(),
        b"note:A:4".to_vec(),
        b"note:AB:5".to_vec(),
        b"note:A:+7".to_vec(),
        b"note:A:x1".to_vec(),
        b"note:A:".to_vec(),
        b"note:A:18446744073709551616".to_vec(),
        b"note:A:007".to_vec(),
        b"identity".to_vec(),
        vec![b'n', b'o', b't', b'e', b':', b'A', b':', b'1', 0xff],
    ];
    assert_eq!(note_ids("note:A:", keys), vec![4, 7, 7, 30]);
}

#[test]
fn saving_a_note_stores_its_text_under_its_key() {
    let req = Request::SaveNote { task_id: 3, text: "buy milk".into() };
    match plan_request(&None, &req) {
        SecretOp::Store { key, value } => {
            assert_eq!(key, b"note:_:3".to_vec());
            assert_eq!(value, b"buy milk".to_vec());
        }
        _ => panic!("expected a store"),
    }
    assert_eq!(respond(&None, req, SecretReply::Stored(true)), Response::Saved { task_id: 3 });
    let req = Request::SaveNote { task_id: 3, text: "x".into() };
    assert_eq!(
        respond(&None, req, SecretReply::Stored(false)),
        Response::Error { message: "set_secret failed".into() }
    );
}

#[test]
fn reading_a_note_decodes_utf8() {
    let req = Request::GetNote { task_id: 8 };
    match plan_request(&web_app(), &req) {
        SecretOp::Fetch { key } => {
            assert_eq!(key, format!("note:{}:8", "1".repeat(32)).into_bytes())
        }
        _ => panic!("expected a fetch"),
    }
    assert_eq!(
        respond(&web_app(), Request::GetNote { task_id: 8 }, SecretReply::Fetched(Some("é".as_bytes().to_vec()))),
        Response::Note { task_id: 8, text: Some("é".into()) }
    );
    assert_eq!(
        respond(&web_app(), Request::GetNote { task_id: 8 }, SecretReply::Fetched(Some(vec![0xc3]))),
        Response::Note { task_id: 8, text: None }
    );
    assert_eq!(
        respond(&web_app(), Request::GetNote { task_id: 8 }, SecretReply::Fetched(None)),
        Response::Note { task_id: 8, text: None }
    );
}

#[test]
fn deleting_and_listing_notes() {
    match plan_request(&None, &Request::DeleteNote { task_id: 2 }) {
        SecretOp::Remove { key } => assert_eq!(key, b"note:_:2".to_vec()),
        _ => panic!("expected a removal"),
    }
    assert_eq!(
        respond(&None, Request::DeleteNote { task_id: 2 }, SecretReply::Removed),
        Response::Deleted { task_id: 2 }
    );
    match plan_request(&None, &Request::ListNotes) {
        SecretOp::List { prefix } => assert_eq!(prefix, b"note:_:".to_vec()),
        _ => panic!("expected a listing"),
    }
    let keys = vec![b"note:_:9".to_vec(), b"note:_:1".to_vec(), b"note:B:2".to_vec()];
    assert_eq!(
        respond(&None, Request::ListNotes, SecretReply::Listed(keys)),
        Response::NotesList { task_ids: vec![1, 9] }
    );
}

#[test]
fn identity_is_saved_and_read_back() {
    let req = Request::SaveIdentity { private_key_hex: "aa".into(), public_key_hex: "bb".into() };
    match plan_request(&web_app(), &req) {
        SecretOp::StoreIdentity { key, private_key_hex, public_key_hex } => {
            assert_eq!(key, b"identity".to_vec());
            assert_eq!(private_key_hex, "aa");
            assert_eq!(public_key_hex, "bb");
        }
        _ => panic!("expected an identity store"),
    }
    assert_eq!(respond(&None, req, SecretReply::Stored(true)), Response::IdentitySaved);
    let req = Request::SaveIdentity { private_key_hex: "aa".into(), public_key_hex: "bb".into() };
    assert_eq!(
        respond(&None, req, SecretReply::Stored(false)),
        Response::Error { message: "set_secret failed for identity".into() }
    );
    match plan_request(&None, &Request::GetIdentity) {
        SecretOp::FetchIdentity { key } => assert_eq!(key, b"identity".to_vec()),
        _ => panic!("expected an identity fetch"),
    }
    assert_eq!(
        respond(&None, Request::GetIdentity, SecretReply::IdentityFetched(Some(("aa".into(), "bb".into())))),
        Response::Identity { private_key_hex: Some("aa".into()), public_key_hex: Some("bb".into()) }
    );
    assert_eq!(
        respond(&None, Request::GetIdentity, SecretReply::IdentityFetched(None)),
        Response::Identity { private_key_hex: None, public_key_hex: None }
    );
}

#[test]
fn saved_note_is_read_back() {
    let origin = Some(Origin::WebApp([3u8; 32]));
    let text = String::from("call Ana — 5€");
    let (save_key, value) = match plan_request(&origin, &Request::SaveNote { task_id: 11, text: text.clone() }) {
        SecretOp::Store { key, value } => (key, value),
        _ => panic!("expected a store"),
    };
    let fetch_key = match plan_request(&origin, &Request::GetNote { task_id: 11 }) {
        SecretOp::Fetch { key } => key,
        _ => panic!("expected a fetch"),
    };
    assert_eq!(fetch_key, save_key);
    assert_eq!(
        respond(&origin, Request::GetNote { task_id: 11 }, SecretReply::Fetched(Some(value))),
        Response::Note { task_id: 11, text: Some(text) }
    );
}

#[test]
fn notes_of_different_apps_or_tasks_do_not_collide() {
    let a = instance_prefix(&Some(Origin::WebApp([1u8; 32])));
    let b = instance_prefix(&Some(Origin::WebApp([2u8; 32])));
    let shared = instance_prefix(&None);
    assert_ne!(note_key(&a, 12), note_key(&b, 12));
    assert_ne!(note_key(&a, 12), note_key(&shared, 12));
    assert_ne!(note_key(&a, 1), note_key(&a, 12));
    assert_eq!(note_key(&a, 12), note_key(&a, 12));
}
