//! JSON-RPC messages: what is sent, and what a message that comes in is.

use vstd::prelude::*;
use vstd::string::*;

use crate::json::{
    as_integer, at, copy_at, entry_of, get, integer_model, text_of_document, Json, JsonModel,
};

verus! {

broadcast use {
    vstd::string::group_string_axioms,
    vstd::seq_lib::group_seq_properties,
};

// ---------------------------------------------------------------------------
// Outgoing messages
// ---------------------------------------------------------------------------

/// A request.
pub open spec fn request_model(id: i64, method: Seq<char>, params: JsonModel) -> JsonModel {
    JsonModel::Object(
        seq![
            ("jsonrpc"@, JsonModel::Text("2.0"@)),
            ("id"@, integer_model(id)),
            ("method"@, JsonModel::Text(method)),
            ("params"@, params),
        ],
    )
}

/// A notification, to which no reply is expected.
pub open spec fn notification_model(method: Seq<char>, params: JsonModel) -> JsonModel {
    JsonModel::Object(
        seq![
            ("jsonrpc"@, JsonModel::Text("2.0"@)),
            ("method"@, JsonModel::Text(method)),
            ("params"@, params),
        ],
    )
}

/// The reply to a request: a result under the id of the request.
pub open spec fn reply_model(id: JsonModel, result: JsonModel) -> JsonModel {
    JsonModel::Object(
        seq![("jsonrpc"@, JsonModel::Text("2.0"@)), ("id"@, id), ("result"@, result)],
    )
}

/// A request.
pub fn request_message(id: i64, method: &str, params: Json) -> (message: Json)
    ensures
        message@ == request_model(id, method@, params@),
{
    let message: Json = Json::object().with("jsonrpc", Json::text("2.0")).with(
        "id",
        Json::integer(id),
    ).with("method", Json::text(method)).with("params", params);
    assert(message@->Object_0 == request_model(id, method@, params@)->Object_0);
    message
}

/// A notification.
pub fn notification(method: &str, params: Json) -> (message: Json)
    ensures
        message@ == notification_model(method@, params@),
{
    let message: Json = Json::object().with("jsonrpc", Json::text("2.0")).with(
        "method",
        Json::text(method),
    ).with("params", params);
    assert(message@->Object_0 == notification_model(method@, params@)->Object_0);
    message
}

/// A reply with a null result: it acknowledges a request without doing
/// anything about it.
pub fn acknowledgement(id: &Json) -> (message: Json)
    ensures
        message@ == reply_model(id@, JsonModel::Null),
{
    let message: Json = Json::object().with("jsonrpc", Json::text("2.0")).with(
        "id",
        id.clone(),
    ).with("result", Json::Null);
    assert(message@->Object_0 == reply_model(id@, JsonModel::Null)->Object_0);
    message
}

// ---------------------------------------------------------------------------
// Incoming messages
// ---------------------------------------------------------------------------

/// The request that a message answers, where it answers one: it has an integer
/// id and names no method.
pub open spec fn answered_id(message: JsonModel) -> Option<i64> {
    if get(message, "method"@) is None {
        as_integer(at(message, "id"@))
    } else {
        None
    }
}

/// What a message answers: its result, or an object with its error.
pub open spec fn answer_of(message: JsonModel) -> JsonModel {
    match get(message, "result"@) {
        Some(result) => result,
        None => JsonModel::Object(seq![("error"@, at(message, "error"@))]),
    }
}

/// An answer to a request, under the id of the request.
#[derive(Debug)]
pub struct Answer {
    pub id: i64,
    pub payload: Json,
}

/// Whether an optional answer is the one that a message gives.
pub open spec fn is_answer(answer: Option<Answer>, message: JsonModel) -> bool {
    match answer {
        Some(a) => answered_id(message) == Some(a.id) && a.payload@ == answer_of(message),
        None => answered_id(message) is None,
    }
}

/// The answer that a message gives, where it gives one.
pub fn answer_in(message: &Json) -> (answer: Option<Answer>)
    ensures
        is_answer(answer, message@),
{
    if message.get("method").is_some() {
        return None;
    }
    let id: i64 = match message.get("id") {
        Some(value) => match value.as_integer() {
            Some(id) => id,
            None => {
                return None;
            },
        },
        None => {
            return None;
        },
    };
    let payload: Json = match message.get("result") {
        Some(result) => result.clone(),
        None => {
            let error: Json = copy_at(message.get("error"));
            let wrapped: Json = Json::object().with("error", error);
            assert(wrapped@->Object_0 == seq![("error"@, error@)]);
            wrapped
        },
    };
    Some(Answer { id, payload })
}

/// The words for an answer that reports an error.
pub open spec fn error_words(label: Seq<char>, method: Seq<char>, error: JsonModel) -> Seq<char> {
    label + " error for "@ + method + ": "@ + text_of_document(error)
}

/// The error that an answer reports, where it reports one.
pub open spec fn reported_error(payload: JsonModel) -> Option<JsonModel> {
    match get(payload, "error"@) {
        Some(error) => if error is Null {
            None
        } else {
            Some(error)
        },
        None => None,
    }
}

/// The result of a request, or the words for the error that came instead.
pub fn outcome(label: &str, method: &str, payload: Json) -> (res: Result<Json, String>)
    ensures
        match res {
            Ok(result) => reported_error(payload@) is None && result == payload,
            Err(words) => {
                &&& reported_error(payload@) matches Some(error) && words@ == error_words(
                    label@,
                    method@,
                    error,
                )
            },
        },
{
    if let Some(error) = payload.get("error") {
        let reported: bool = match error {
            Json::Null => false,
            _ => true,
        };
        if reported {
            let text: String = error.to_text();
            return Err(
                label.to_owned().concat(" error for ").concat(method).concat(": ").concat(
                    text.as_str(),
                ),
            );
        }
    }
    Ok(payload)
}

/// A reply is taken for the answer to the request whose id it carries, with
/// the result that it carries; a request and a notification are taken for no
/// answer.
pub proof fn law_replies_answer_requests(
    id: i64,
    result: JsonModel,
    method: Seq<char>,
    params: JsonModel,
)
    ensures
        answered_id(reply_model(integer_model(id), result)) == Some(id),
        answer_of(reply_model(integer_model(id), result)) == result,
        answered_id(request_model(id, method, params)) is None,
        answered_id(notification_model(method, params)) is None,
{
    reveal_strlit("jsonrpc");
    reveal_strlit("id");
    reveal_strlit("method");
    reveal_strlit("result");
    assert("method"@[0] != "result"@[0]);
    assert("jsonrpc"@.len() != "method"@.len());
    assert("id"@.len() != "method"@.len());
    assert("jsonrpc"@.len() != "id"@.len());
    assert("jsonrpc"@.len() != "result"@.len());
    assert("id"@.len() != "result"@.len());
    reveal_with_fuel(entry_of, 5);
    let reply = reply_model(integer_model(id), result)->Object_0;
    assert(reply.drop_first()[0] == reply[1]);
    assert(reply.drop_first().drop_first()[0] == reply[2]);
    let request = request_model(id, method, params)->Object_0;
    assert(request.drop_first()[0] == request[1]);
    assert(request.drop_first().drop_first()[0] == request[2]);
    let note = notification_model(method, params)->Object_0;
    assert(note.drop_first()[0] == note[1]);
}

/// A message says what it is: a request has its id, its method and its
/// parameters, a notification its method and its parameters and no id, a reply
/// the id that it answers and its result. Each names the version that is
/// spoken.
pub proof fn law_messages_carry_their_parts(
    id: i64,
    method: Seq<char>,
    params: JsonModel,
    answered: JsonModel,
    result: JsonModel,
)
    ensures
        ({
            let request = request_model(id, method, params);
            let notice = notification_model(method, params);
            let reply = reply_model(answered, result);
            &&& at(request, "jsonrpc"@) == JsonModel::Text("2.0"@)
            &&& as_integer(at(request, "id"@)) == Some(id)
            &&& at(request, "method"@) == JsonModel::Text(method)
            &&& at(request, "params"@) == params
            &&& at(notice, "jsonrpc"@) == JsonModel::Text("2.0"@)
            &&& get(notice, "id"@) is None
            &&& at(notice, "method"@) == JsonModel::Text(method)
            &&& at(notice, "params"@) == params
            &&& at(reply, "jsonrpc"@) == JsonModel::Text("2.0"@)
            &&& at(reply, "id"@) == answered
            &&& at(reply, "result"@) == result
            &&& get(reply, "method"@) is None
            &&& get(reply, "error"@) is None
        }),
{
    reveal_strlit("jsonrpc");
    reveal_strlit("id");
    reveal_strlit("method");
    reveal_strlit("params");
    reveal_strlit("result");
    reveal_strlit("error");
    assert("jsonrpc"@.len() == 7 && "id"@.len() == 2 && "method"@.len() == 6);
    assert("params"@.len() == 6 && "result"@.len() == 6 && "error"@.len() == 5);
    assert("method"@[0] != "params"@[0] && "method"@[0] != "result"@[0] && "params"@[0]
        != "result"@[0]);
    reveal_with_fuel(entry_of, 5);
}

/// A reply that carries an error in place of a result is an answer that reports
/// just that error, and one whose result is no object with an error reports
/// none.
pub proof fn law_errors_are_reported(message: JsonModel, id: i64)
    requires
        get(message, "method"@) is None,
        as_integer(at(message, "id"@)) == Some(id),
    ensures
        answered_id(message) == Some(id),
        get(message, "result"@) is None ==> reported_error(answer_of(message)) == match at(
            message,
            "error"@,
        ) {
            JsonModel::Null => None,
            error => Some(error),
        },
        get(message, "result"@) matches Some(result) ==> answer_of(message) == result && (at(
            result,
            "error"@,
        ) == JsonModel::Null ==> reported_error(answer_of(message)) is None),
{
    let wrapped = seq![("error"@, at(message, "error"@))];
    assert(wrapped[0].0 == "error"@);
}

/// An answer is told just for a message that answers a request, under the id of
/// that request; an error is told with who reports it, for what, and what it
/// says.
pub proof fn law_outcomes_are_result_or_error(
    label: &str,
    method: &str,
    payload: Json,
    res: Result<Json, String>,
)
    requires
        call_ensures(outcome, (label, method, payload), res),
    ensures
        at(payload@, "error"@) == JsonModel::Null ==> res == Ok::<Json, String>(payload),
        at(payload@, "error"@) != JsonModel::Null ==> (res matches Err(words) && words@ == label@
            + " error for "@ + method@ + ": "@ + text_of_document(at(payload@, "error"@))),
{
}

} // verus!
