use anything_engine::bundler::{bundle_context, BundleError};
use anything_engine::types::{AuthAccount, TaskConfig};

fn slack_account() -> AuthAccount {
    AuthAccount {
        slug: "slack".to_string(),
        payload_json: "{\"token\":\"abc\"}".to_string(),
    }
}

fn config(variables: Option<&str>, inputs: Option<&str>) -> TaskConfig {
    TaskConfig {
        variables: variables.map(|s| s.to_string()),
        inputs: inputs.map(|s| s.to_string()),
    }
}

#[test]
fn two_phase_rendering_resolves_account_token() {
    let accounts = vec![slack_account()];
    let cfg = config(
        Some("{{ accounts.slack.token }}"),
        Some("{\"token\":\"{{ variables }}\"}"),
    );
    let payload = bundle_context(&cfg, &accounts).unwrap();
    assert_eq!(payload.fields.len(), 1);
    assert_eq!(payload.fields[0].key, "token");
    assert_eq!(payload.fields[0].value, "abc");
    assert!(payload.fields[0].is_text);
}

#[test]
fn inputs_render_without_variables() {
    let accounts = vec![slack_account()];
    let cfg = config(None, Some("{\"url\":\"{{ accounts.slack.token }}\"}"));
    let payload = bundle_context(&cfg, &accounts).unwrap();
    assert_eq!(payload.fields[0].key, "url");
    assert_eq!(payload.fields[0].value, "abc");
}

#[test]
fn missing_inputs_is_fatal() {
    let accounts = vec![slack_account()];
    let cfg = config(Some("{{ accounts.slack.token }}"), None);
    assert!(matches!(bundle_context(&cfg, &accounts), Err(BundleError::MissingInputs)));
}

#[test]
fn missing_inputs_without_variables_is_fatal() {
    let cfg = config(None, None);
    assert!(matches!(bundle_context(&cfg, &vec![]), Err(BundleError::MissingInputs)));
}

#[test]
fn malformed_variables_template_is_fatal() {
    let accounts = vec![slack_account()];
    let cfg = config(Some("{% if %}"), Some("{\"a\":\"b\"}"));
    assert!(matches!(bundle_context(&cfg, &accounts), Err(BundleError::TemplateError(_))));
}

#[test]
fn malformed_inputs_template_is_fatal() {
    let accounts = vec![slack_account()];
    let cfg = config(None, Some("{% endfor %}"));
    assert!(matches!(bundle_context(&cfg, &accounts), Err(BundleError::TemplateError(_))));
}

#[test]
fn non_object_rendered_inputs_are_refused() {
    let accounts = vec![slack_account()];
    let cfg = config(None, Some("[1, 2, 3]"));
    assert!(matches!(bundle_context(&cfg, &accounts), Err(BundleError::InvalidOutput)));
}

#[test]
fn non_string_values_arrive_as_json_text() {
    let cfg = config(None, Some("{\"count\": 3, \"url\": \"http://example\"}"));
    let payload = bundle_context(&cfg, &vec![]).unwrap();
    let count = payload.fields.iter().find(|f| f.key == "count").unwrap();
    assert!(!count.is_text);
    assert_eq!(count.value, "3");
    let url = payload.fields.iter().find(|f| f.key == "url").unwrap();
    assert!(url.is_text);
    assert_eq!(url.value, "http://example");
}

#[test]
fn several_accounts_are_all_in_context() {
    let accounts = vec![
        slack_account(),
        AuthAccount {
            slug: "mail".to_string(),
            payload_json: "{\"token\":\"xyz\"}".to_string(),
        },
    ];
    let cfg = config(
        None,
        Some("{\"a\":\"{{ accounts.slack.token }}\",\"b\":\"{{ accounts.mail.token }}\"}"),
    );
    let payload = bundle_context(&cfg, &accounts).unwrap();
    let get = |k: &str| payload.fields.iter().find(|f| f.key == k).unwrap().value.clone();
    assert_eq!(get("a"), "abc");
    assert_eq!(get("b"), "xyz");
}

#[test]
fn account_slug_with_special_characters_is_escaped() {
    let accounts = vec![AuthAccount {
        slug: "we\"ird\\slug".to_string(),
        payload_json: "{\"v\":\"ok\"}".to_string(),
    }];
    // the slug itself cannot be addressed by a dotted template path, but a
    // context holding it must still frame as valid JSON for other lookups
    let cfg = config(None, Some("{\"fixed\":\"yes\"}"));
    let payload = bundle_context(&cfg, &accounts).unwrap();
    assert_eq!(payload.fields[0].key, "fixed");
    assert_eq!(payload.fields[0].value, "yes");
}
