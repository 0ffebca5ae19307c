//! The context bundler: resolves one task's templated configuration against
//! runtime context immediately before the task executes.
//!
//! The context starts from the task's refreshed auth-provider accounts, framed
//! as JSON text by `textjson`. A present `variables` template is rendered
//! first and its rendered text joins the context; the `inputs` template is
//! then rendered against that richer context, and what it renders to is
//! decomposed into the task's resolved payload. Rendering happens in the
//! template engine outside the library, so nothing is claimed about rendered
//! text; everything around the two render calls is exact.
use vstd::prelude::*;
use crate::types::{AuthAccount, TaskConfig};
use crate::textjson::frame_context;

verus! {

/// Why bundling failed: a template did not parse or render, the task declares
/// no inputs, or the rendered inputs are not a JSON object.
#[derive(Clone, Debug)]
pub enum BundleError {
    TemplateError(String),
    MissingInputs,
    InvalidOutput,
}

/// One top-level field of a resolved payload. A JSON string value arrives
/// decoded in `value` with `is_text` set; any other value arrives as its JSON
/// text with `is_text` clear.
#[derive(Clone, Debug)]
pub struct PayloadField {
    pub key: String,
    pub value: String,
    pub is_text: bool,
}

/// A task's resolved execution payload: the top-level fields of the JSON
/// object its `inputs` template rendered to.
#[derive(Clone, Debug)]
pub struct Payload {
    pub fields: Vec<PayloadField>,
}

/// View of one payload field: key, value, and whether the value was a JSON
/// string.
pub open spec fn field_view(f: PayloadField) -> (Seq<char>, Seq<char>, bool) {
    (f.key@, f.value@, f.is_text)
}

/// View of a payload's field list.
pub open spec fn fields_view(fs: Seq<PayloadField>) -> Seq<(Seq<char>, Seq<char>, bool)> {
    fs.map_values(|f: PayloadField| field_view(f))
}

/// The decomposition of a JSON text into its object's top-level fields, keys
/// sorted, string values decoded and other values re-serialized; `None` when
/// the text is not a JSON object. What this names is computed by serde_json
/// and depends on the text alone.
pub uninterp spec fn json_fields_of(s: Seq<char>) -> Option<Seq<(Seq<char>, Seq<char>, bool)>>;

/// Relies on `serde_json::from_str` to parse the text, and on serde_json's
/// `Display` for `Value` to re-serialize non-string field values. The parse is
/// deterministic and serde_json's object map iterates its keys in sorted
/// order, so the result is a function of the text alone; `json_fields_of`
/// names it.
#[verifier::external_body]
fn parse_fields(s: &str) -> (r: Option<Vec<PayloadField>>)
    ensures
        match r {
            Some(v) => json_fields_of(s@) == Some(fields_view(v@)),
            None => json_fields_of(s@) is None,
        },
{
    let v: serde_json::Value = match serde_json::from_str(s) {
        Ok(v) => v,
        Err(_) => return None,
    };
    match v {
        serde_json::Value::Object(m) => Some(
            m.into_iter().map(
                |(k, val)| match val {
                    serde_json::Value::String(t) => PayloadField { key: k, value: t, is_text: true },
                    other => PayloadField { key: k, value: other.to_string(), is_text: false },
                },
            ).collect(),
        ),
        _ => None,
    }
}

/// Relies on `tera::Tera::one_off` to render the template against the context
/// given as JSON text (parsed by `serde_json::from_str` and converted by
/// `tera::Context::from_value`), with auto-escaping off. A template may reach
/// the clock or the process environment through tera's built-in functions, so
/// nothing is stated about the rendered text; a failure of the parse, the
/// conversion or the render comes back as the error's message.
#[verifier::external_body]
fn render_template(template: &str, context_json: &str) -> (r: Result<String, String>) {
    let value: serde_json::Value = match serde_json::from_str(context_json) {
        Ok(v) => v,
        Err(e) => return Err(e.to_string()),
    };
    let context = match tera::Context::from_serialize(&value) {
        Ok(c) => c,
        Err(e) => return Err(e.to_string()),
    };
    match tera::Tera::one_off(template, &context, false) {
        Ok(s) => Ok(s),
        Err(e) => Err(e.to_string()),
    }
}

/// Turns what the `inputs` template rendered to into the task's resolved
/// payload: exactly the decomposition `json_fields_of` names, or
/// `InvalidOutput` exactly when the rendered text is not a JSON object.
pub fn finish_bundle(rendered: &str) -> (r: Result<Payload, BundleError>)
    ensures
        match r {
            Ok(p) => json_fields_of(rendered@) == Some(fields_view(p.fields@)),
            Err(e) => e is InvalidOutput && json_fields_of(rendered@) is None,
        },
{
    match parse_fields(rendered) {
        Some(fields) => Ok(Payload { fields }),
        None => Err(BundleError::InvalidOutput),
    }
}

/// Resolves a task's templated configuration against its runtime context.
///
/// The context holds the given accounts under `accounts.<slug>`. A present
/// `variables` template is rendered against it and the rendered text joins the
/// context under `variables`; the `inputs` template is rendered against that
/// richer context and its output, a JSON object, becomes the payload. A task
/// without `inputs` is refused with `MissingInputs`; a template failure is
/// `TemplateError` with the engine's message; rendered inputs that are no JSON
/// object are `InvalidOutput`.
pub fn bundle_context(config: &TaskConfig, accounts: &Vec<AuthAccount>) -> (r: Result<
    Payload,
    BundleError,
>)
    ensures
        config.variables is None && config.inputs is None ==> r matches Err(
            BundleError::MissingInputs,
        ),
        r matches Err(BundleError::MissingInputs) ==> config.inputs is None,
        r matches Err(BundleError::TemplateError(_)) ==> (config.variables is Some
            || config.inputs is Some),
        r matches Err(BundleError::InvalidOutput) ==> config.inputs is Some,
        r matches Ok(p) ==> config.inputs is Some && exists|s: Seq<char>|
            #[trigger] json_fields_of(s) == Some(fields_view(p.fields@)),
{
    let rendered_vars: Option<String> = match &config.variables {
        Some(vars_template) => {
            let base_context = frame_context(accounts, None);
            match render_template(vars_template.as_str(), base_context.as_str()) {
                Ok(rendered) => Some(rendered),
                Err(message) => {
                    return Err(BundleError::TemplateError(message));
                },
            }
        },
        None => None,
    };
    let inputs_template = match &config.inputs {
        Some(t) => t,
        None => {
            return Err(BundleError::MissingInputs);
        },
    };
    let context = match &rendered_vars {
        Some(v) => frame_context(accounts, Some(v)),
        None => frame_context(accounts, None),
    };
    let rendered_inputs = match render_template(inputs_template.as_str(), context.as_str()) {
        Ok(rendered) => rendered,
        Err(message) => {
            return Err(BundleError::TemplateError(message));
        },
    };
    finish_bundle(rendered_inputs.as_str())
}

} // verus!
