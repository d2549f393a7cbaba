//! The endpoint settings and the JSON body sent for each prompt.
use vstd::prelude::*;
use vstd::string::StringExecFns;

verus! {

/// Which model to ask, and where. Read-only for the whole session.
pub struct EndpointConfig {
    pub model: String,
    pub url: String,
}

impl EndpointConfig {
    pub fn new(model: String, url: String) -> (r: EndpointConfig)
        ensures
            r.model == model,
            r.url == url,
    {
        EndpointConfig { model, url }
    }
}

/// The JSON string literal, quotes and escapes included, that stands for `s`.
pub uninterp spec fn json_string(s: Seq<char>) -> Seq<char>;

/// Relies on serde_json::to_string on a `str`: the JSON string literal for the
/// text. Serialising a `str` has no failing case.
#[verifier::external_body]
fn json_quote(s: &str) -> (r: String)
    ensures
        r@ == json_string(s@),
{
    serde_json::to_string(s).unwrap_or_default()
}

/// The request body for `prompt`: `{"model":<model>,"prompt":<prompt>}`.
pub open spec fn payload_of(model: Seq<char>, prompt: Seq<char>) -> Seq<char> {
    "{\"model\":"@ + json_string(model) + ",\"prompt\":"@ + json_string(prompt) + "}"@
}

/// Builds the JSON request body that asks the configured model about `prompt`.
pub fn request_payload(config: &EndpointConfig, prompt: &str) -> (r: String)
    ensures
        r@ == payload_of(config.model@, prompt@),
{
    let mut body = String::from_str("{\"model\":");
    let model = json_quote(config.model.as_str());
    body.append(model.as_str());
    body.append(",\"prompt\":");
    let text = json_quote(prompt);
    body.append(text.as_str());
    body.append("}");
    body
}

} // verus!
