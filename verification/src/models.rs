//! The OpenAI-style model objects that the server lists.
use vstd::prelude::*;

use crate::json::{json_str, push_json_str};

verus! {

/// The `object` field of a model object.
pub const MODEL_OBJECT: &'static str = "model";
/// The `owned_by` field of a model object.
pub const MODEL_OWNER: &'static str = "seedrelay";
/// The `created` field of a model object.
pub const MODEL_CREATED_AT: u64 = 0;

/// `{"created":0,"id":<model>,"object":"model","owned_by":"seedrelay"}`.
pub open spec fn model_object_text(model: Seq<char>) -> Seq<char> {
    "{\"created\":0,\"id\":"@ + json_str(model) + ",\"object\":\"model\",\"owned_by\":\"seedrelay\"}"@
}

/// `{"data":[<model object>],"object":"list"}`.
pub open spec fn model_list_text(model: Seq<char>) -> Seq<char> {
    "{\"data\":["@ + model_object_text(model) + "],\"object\":\"list\"}"@
}

/// The message of a model-not-found error.
pub open spec fn model_not_found_message(model: Seq<char>) -> Seq<char> {
    "The model `"@ + model + "` does not exist or is not supported by this SeedRelay instance."@
}

/// `{"error":{"code":"model_not_found","message":...,"param":"model","type":"invalid_request_error"}}`.
pub open spec fn model_not_found_text(model: Seq<char>) -> Seq<char> {
    "{\"error\":{\"code\":\"model_not_found\",\"message\":"@ + json_str(model_not_found_message(model))
        + ",\"param\":\"model\",\"type\":\"invalid_request_error\"}}"@
}

fn push_model_object(out: &mut String, model: &str)
    ensures
        final(out)@ == old(out)@ + model_object_text(model@),
{
    out.append("{\"created\":0,\"id\":");
    push_json_str(out, model);
    out.append(",\"object\":\"model\",\"owned_by\":\"seedrelay\"}");
    assert(final(out)@ =~= old(out)@ + model_object_text(model@));
}

/// The JSON text of the model object for `model`.
pub fn model_object_response(model: &str) -> (r: String)
    ensures
        r@ == model_object_text(model@),
{
    let mut out = String::new();
    push_model_object(&mut out, model);
    assert(out@ =~= model_object_text(model@));
    out
}

/// The JSON text of the model list, which holds `model` alone.
pub fn model_list_response(model: &str) -> (r: String)
    ensures
        r@ == model_list_text(model@),
{
    let mut out = String::new();
    out.append("{\"data\":[");
    push_model_object(&mut out, model);
    out.append("],\"object\":\"list\"}");
    assert(out@ =~= model_list_text(model@));
    out
}

/// The JSON text of the error for a model that this server does not serve.
pub fn model_not_found_error(model: &str) -> (r: String)
    ensures
        r@ == model_not_found_text(model@),
{
    let mut message = String::new();
    message.append("The model `");
    message.append(model);
    message.append("` does not exist or is not supported by this SeedRelay instance.");
    assert(message@ =~= model_not_found_message(model@));
    let mut out = String::new();
    out.append("{\"error\":{\"code\":\"model_not_found\",\"message\":");
    push_json_str(&mut out, message.as_str());
    out.append(",\"param\":\"model\",\"type\":\"invalid_request_error\"}}");
    assert(out@ =~= model_not_found_text(model@));
    out
}

} // verus!
