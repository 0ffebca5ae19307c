use anything_engine::textjson::frame_context;
use anything_engine::types::AuthAccount;

fn account(slug: &str, json: &str) -> AuthAccount {
    AuthAccount { slug: slug.to_string(), payload_json: json.to_string() }
}

#[test]
fn context_frames_accounts_and_variables() {
    let accounts = vec![account("a", "{\"v\":1}"), account("b", "{}")];
    let vars = "x\"y\\z\nw".to_string();
    let framed = frame_context(&accounts, Some(&vars));
    assert_eq!(
        framed,
        "{\"accounts\":{\"a\":{\"v\":1},\"b\":{}},\"variables\":\"x\\\"y\\\\z\\nw\"}"
    );
}

#[test]
fn context_without_variables_has_no_variables_key() {
    let framed = frame_context(&vec![], None);
    assert_eq!(framed, "{\"accounts\":{}}");
}

#[test]
fn control_characters_escape_as_unicode() {
    let vars = "\u{0001}\u{001f}\t".to_string();
    let framed = frame_context(&vec![], Some(&vars));
    assert_eq!(framed, "{\"accounts\":{},\"variables\":\"\\u0001\\u001f\\t\"}");
}

#[test]
fn framed_context_is_valid_json() {
    let accounts = vec![account("we\"ird\\slug", "{\"token\":\"t\"}")];
    let vars = "line\r\nbreak".to_string();
    let framed = frame_context(&accounts, Some(&vars));
    let parsed: serde_json::Value = serde_json::from_str(&framed).unwrap();
    assert_eq!(parsed["accounts"]["we\"ird\\slug"]["token"], "t");
    assert_eq!(parsed["variables"], "line\r\nbreak");
}
