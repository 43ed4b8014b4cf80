use vstd::prelude::*;
use vstd::string::StrSliceExecFns;
use vstd::string::StringExecFns;
use crate::text::{ends_with, starts_with, trim, trim_spec};

verus! {

/// What the generator reads of a reply that parses as JSON: whether it parsed,
/// and its `message` and `insight` members where they are strings.
pub struct JsonFields {
    pub valid: bool,
    pub message: Option<String>,
    pub insight: Option<String>,
}

/// The characters of an optional string.
pub open spec fn opt_string_view(o: Option<String>) -> Option<Seq<char>> {
    match o {
        Some(s) => Some(s@),
        None => None,
    }
}

/// The characters of an optional string slice.
pub open spec fn opt_str_view(o: Option<&str>) -> Option<Seq<char>> {
    match o {
        Some(s) => Some(s@),
        None => None,
    }
}

impl View for JsonFields {
    type V = (bool, Option<Seq<char>>, Option<Seq<char>>);

    open spec fn view(&self) -> (bool, Option<Seq<char>>, Option<Seq<char>>) {
        (self.valid, opt_string_view(self.message), opt_string_view(self.insight))
    }
}

/// What `serde_json` makes of `text`: whether it is a JSON document, and the
/// string values of its top-level `message` and `insight` members.
pub uninterp spec fn json_message_fields(text: Seq<char>) -> (bool, Option<Seq<char>>, Option<
    Seq<char>,
>);

/// Parses `text` with `serde_json::from_str` into a `serde_json::Value`; where
/// that succeeds, reads `value["message"]` and `value["insight"]` with
/// `Value::as_str`. The contract names the outcome (`json_message_fields`), which
/// depends on `text` alone, and states that a text that does not parse carries
/// no member.
#[verifier::external_body]
fn parse_reply_fields(text: &str) -> (r: JsonFields)
    ensures
        r@ == json_message_fields(text@),
        !r.valid ==> r.message is None && r.insight is None,
{
    match serde_json::from_str::<serde_json::Value>(text) {
        Ok(value) => JsonFields {
            valid: true,
            message: value["message"].as_str().map(String::from),
            insight: value["insight"].as_str().map(String::from),
        },
        Err(_) => JsonFields { valid: false, message: None, insight: None },
    }
}

/// The opening of a fenced JSON block in Markdown.
pub const JSON_FENCE_OPEN: &'static str = "```json";

/// The close of a fenced block in Markdown.
pub const FENCE_CLOSE: &'static str = "```";

/// A reply with its JSON fence taken off and trimmed. The reply is trimmed; where
/// it then opens with a JSON fence the fence is cut off, and otherwise the
/// untrimmed reply is used; where that ends with a fence close, the close is cut
/// off, and otherwise the untrimmed reply is used again; what is left is trimmed.
pub open spec fn cleaned_response(response: Seq<char>) -> Seq<char> {
    let t = trim_spec(response);
    let open = JSON_FENCE_OPEN@;
    let close = FENCE_CLOSE@;
    let a = if open.len() <= t.len() && t.take(open.len() as int) == open {
        t.skip(open.len() as int)
    } else {
        response
    };
    let b = if close.len() <= a.len() && a.skip(a.len() - close.len()) == close {
        a.take(a.len() - close.len())
    } else {
        response
    };
    trim_spec(b)
}

/// A reply that, trimmed, is a JSON fence around a body is cleaned to the
/// trimmed body.
pub proof fn lemma_fenced_reply_is_unwrapped(response: Seq<char>, body: Seq<char>)
    requires
        trim_spec(response) == JSON_FENCE_OPEN@ + body + FENCE_CLOSE@,
    ensures
        cleaned_response(response) == trim_spec(body),
{
    let t = trim_spec(response);
    let open = JSON_FENCE_OPEN@;
    let close = FENCE_CLOSE@;
    assert(t.take(open.len() as int) =~= open);
    let a = t.skip(open.len() as int);
    assert(a =~= body + close);
    assert(a.skip(a.len() - close.len()) =~= close);
    assert(a.take(a.len() - close.len()) =~= body);
}

/// A reply that opens with a JSON fence (once trimmed) but whose rest does not
/// end with a fence close is cleaned to the whole reply, trimmed.
pub proof fn lemma_unclosed_fence_keeps_whole_reply(response: Seq<char>)
    requires
        JSON_FENCE_OPEN@.len() <= trim_spec(response).len(),
        trim_spec(response).take(JSON_FENCE_OPEN@.len() as int) == JSON_FENCE_OPEN@,
        !({
            let rest = trim_spec(response).skip(JSON_FENCE_OPEN@.len() as int);
            FENCE_CLOSE@.len() <= rest.len() && rest.skip(rest.len() - FENCE_CLOSE@.len())
                == FENCE_CLOSE@
        }),
    ensures
        cleaned_response(response) == trim_spec(response),
{
}

/// A reply without an opening JSON fence but ending with a fence close is
/// cleaned to the reply without that close, trimmed.
pub proof fn lemma_close_without_open_is_cut(response: Seq<char>)
    requires
        !(JSON_FENCE_OPEN@.len() <= trim_spec(response).len() && trim_spec(response).take(
            JSON_FENCE_OPEN@.len() as int,
        ) == JSON_FENCE_OPEN@),
        FENCE_CLOSE@.len() <= response.len(),
        response.skip(response.len() - FENCE_CLOSE@.len()) == FENCE_CLOSE@,
    ensures
        cleaned_response(response) == trim_spec(response.take(response.len() - FENCE_CLOSE@.len())),
{
}

/// A reply with no fence is only trimmed.
pub proof fn lemma_unfenced_reply_is_trimmed(response: Seq<char>)
    requires
        !(JSON_FENCE_OPEN@.len() <= trim_spec(response).len() && trim_spec(response).take(
            JSON_FENCE_OPEN@.len() as int,
        ) == JSON_FENCE_OPEN@),
        !(FENCE_CLOSE@.len() <= response.len() && response.skip(
            response.len() - FENCE_CLOSE@.len(),
        ) == FENCE_CLOSE@),
    ensures
        cleaned_response(response) == trim_spec(response),
{
}

/// The message and insight read from a cleaned reply, given what the JSON parse
/// made of it: where it parsed, the `message` member (the cleaned reply where
/// there is none) and the `insight` member; where it did not, the cleaned reply
/// and `fallback_insight`.
pub open spec fn reply_message_and_insight(
    clean: Seq<char>,
    parsed: (bool, Option<Seq<char>>, Option<Seq<char>>),
    fallback_insight: Option<Seq<char>>,
) -> (Seq<char>, Option<Seq<char>>) {
    if parsed.0 {
        (
            match parsed.1 {
                Some(m) => m,
                None => clean,
            },
            parsed.2,
        )
    } else {
        (clean, fallback_insight)
    }
}

/// Takes the JSON fence off a reply and trims it (see `cleaned_response`).
pub fn clean_response(response: &str) -> (r: &str)
    ensures
        r@ == cleaned_response(response@),
{
    let t = trim(response);
    let a: &str = if starts_with(t, JSON_FENCE_OPEN) {
        let from = JSON_FENCE_OPEN.unicode_len();
        let to = t.unicode_len();
        t.substring_char(from, to)
    } else {
        response
    };
    let b: &str = if ends_with(a, FENCE_CLOSE) {
        let to = a.unicode_len() - FENCE_CLOSE.unicode_len();
        a.substring_char(0, to)
    } else {
        response
    };
    trim(b)
}

/// The message and insight of a cleaned reply, given what the JSON parse made of
/// it (see `reply_message_and_insight`).
pub fn message_and_insight(clean: &str, parsed: JsonFields, fallback_insight: Option<&str>) -> (r: (
    String,
    Option<String>,
))
    ensures
        (r.0@, opt_string_view(r.1)) == reply_message_and_insight(
            clean@,
            parsed@,
            opt_str_view(fallback_insight),
        ),
        !parsed.valid ==> r.0@ == clean@ && opt_string_view(r.1) == opt_str_view(fallback_insight),
        parsed.valid ==> opt_string_view(r.1) == opt_string_view(parsed.insight),
        parsed.valid && parsed.message is None ==> r.0@ == clean@,
        (parsed.valid && parsed.message is Some) ==> r.0@ == parsed.message->0@,
{
    if parsed.valid {
        let message = match parsed.message {
            Some(m) => m,
            None => String::from_str(clean),
        };
        (message, parsed.insight)
    } else {
        let insight = match fallback_insight {
            Some(s) => Some(String::from_str(s)),
            None => None,
        };
        (String::from_str(clean), insight)
    }
}

/// The message and insight of a language model's reply: the reply is cleaned of
/// a JSON fence and trimmed; where it then parses as JSON its `message` (the
/// cleaned reply where it has none) and `insight` members are taken, and where it
/// does not, the cleaned reply and `fallback_insight`.
pub fn extract_message_and_insight(response: &str, fallback_insight: Option<&str>) -> (r: (
    String,
    Option<String>,
))
    ensures
        (r.0@, opt_string_view(r.1)) == reply_message_and_insight(
            cleaned_response(response@),
            json_message_fields(cleaned_response(response@)),
            opt_str_view(fallback_insight),
        ),
        ({
            let clean = cleaned_response(response@);
            let parsed = json_message_fields(clean);
            &&& !parsed.0 ==> r.0@ == clean && opt_string_view(r.1) == opt_str_view(
                fallback_insight,
            )
            &&& parsed.0 ==> opt_string_view(r.1) == parsed.2
            &&& parsed.0 && parsed.1 is None ==> r.0@ == clean
            &&& (parsed.0 && parsed.1 is Some) ==> r.0@ == parsed.1->0
        }),
{
    let clean = clean_response(response);
    let parsed = parse_reply_fields(clean);
    message_and_insight(clean, parsed, fallback_insight)
}

} // verus!
