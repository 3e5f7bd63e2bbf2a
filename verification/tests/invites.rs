//! Invite links: the JSON framing, the base64 identifier, and reading one
//! back.
use base64::Engine;
use fracpack::invite::{decode_invite_id, generate_invite_link, invite_params_json};

#[test]
fn params_json_shape() {
    let j = invite_params_json(b"alice", b"chat", b"PUB_K1_abc", b"https://x/cb");
    assert_eq!(
        String::from_utf8(j).unwrap(),
        r#"{"inviter":"alice","app":"chat","pk":"PUB_K1_abc","cb":"https://x/cb"}"#
    );
}

#[test]
fn params_json_escapes_values() {
    let j = invite_params_json(b"a\"b", b"c\\d", b"\x01", b"");
    assert_eq!(
        String::from_utf8(j).unwrap(),
        r#"{"inviter":"a\"b","app":"c\\d","pk":"\u0001","cb":""}"#
    );
}

#[test]
fn link_carries_encoded_params() {
    let link = generate_invite_link(
        "https://invite.example",
        b"alice",
        b"chat",
        b"PUB_K1_abc",
        b"https://x/cb",
    );
    let json = invite_params_json(b"alice", b"chat", b"PUB_K1_abc", b"https://x/cb");
    let expected_id = base64::engine::general_purpose::URL_SAFE.encode(&json);
    assert_eq!(
        link,
        format!("https://invite.example/invited?id={}", expected_id)
    );
}

#[test]
fn decode_inverts_the_identifier() {
    let json = invite_params_json(b"bob", b"files", b"PUB_K1_xyz", b"https://y/done");
    let id = base64::engine::general_purpose::URL_SAFE.encode(&json);
    assert_eq!(decode_invite_id(&id), Some(json));
}

#[test]
fn decode_rejects_bad_base64_and_bad_text() {
    assert_eq!(decode_invite_id("not%%base64"), None);
    // valid base64 of bytes that are not UTF-8
    let id = base64::engine::general_purpose::URL_SAFE.encode([0xFFu8, 0xFE]);
    assert_eq!(decode_invite_id(&id), None);
}
