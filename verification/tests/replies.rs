use decon_recon_server::prompts::get_construct_translation_prompt;
use decon_recon_server::reply::{clean_response, extract_message_and_insight, message_and_insight, JsonFields};
use decon_recon_server::text::{ends_with, is_whitespace, starts_with, str_eq, trim};

fn template_prompt(a: &str, b: &str, c: &str, d: &str, e: &str, f: &str) -> String {
    format!(
        "You are a language construction expert. Your task is to analyse a given text and rewrite it such a way that it retains the core meaning but adds the aspect in the text related to the given aspect.

Optional profile information about the recipient ({}): {}
Aspect name: {}
Aspect description: {}

{}

Guidelines:
- Add ONLY elements specific to the requested aspect's modality layer.
- DO NOT modify aspects from other modality layers - preserve all elements from modalities other than the target modality.
- Only add elements within the target modality layer (the layer that this aspect belongs to).
- BE CONCISE and stay below 100 words
- DO NOT USE markdown formatting.
- Preserve all other semantic elements from all other modality layers.
- Keep the message coherent and natural.
- Maintain readability and flow.
- Ensure the core meaning remains intact.
- Be conservative - only add what is clearly part of the target modality layer, not elements from other layers.
- Rewrite the message as much as possible, don't simply add a phrase at the end.

Also provide snippet from the given profile or required addition to the profile to rewrite the message as short phrase such as:
\"likes Elephants\", or \"has a Southern accent\".

IMPORTANT: You must respond with ONLY a valid JSON object in the following format. Do not include any other text, explanations, or markdown formatting:

{{
  \"message\": \"the rewritten message\",
  \"insight\": \"insight about character profile as a short phrase, based on the aspect and the message\"
}}

Please construct this content:
{}",
        a, b, c, d, e, f
    )
}

#[test]
fn prompt_matches_template() {
    let p = get_construct_translation_prompt(
        "Elias",
        "Elias is nervous",
        "Paranoia",
        "fear of being watched",
        "Modality Layer: emotional:paranoia - fear of being watched",
        "The clock stopped.",
    );
    assert_eq!(
        p,
        template_prompt(
            "Elias",
            "Elias is nervous",
            "Paranoia",
            "fear of being watched",
            "Modality Layer: emotional:paranoia - fear of being watched",
            "The clock stopped."
        )
    );
    assert!(p.ends_with("Please construct this content:\nThe clock stopped."));
    assert!(p.contains("{\n  \"message\": \"the rewritten message\","));
}

#[test]
fn prompt_with_empty_fields() {
    assert_eq!(
        get_construct_translation_prompt("", "", "", "", "", ""),
        template_prompt("", "", "", "", "", "")
    );
}

#[test]
fn json_reply_gives_message_and_insight() {
    let (m, i) = extract_message_and_insight(
        "{\"message\": \"I saw nothing.\", \"insight\": \"is paranoid\"}",
        Some("fallback"),
    );
    assert_eq!(m, "I saw nothing.");
    assert_eq!(i.as_deref(), Some("is paranoid"));
}

#[test]
fn fenced_json_reply_is_unwrapped() {
    let reply = "  ```json\n{\"message\": \"Fine.\", \"insight\": \"terse\"}\n```  \n";
    assert_eq!(clean_response(reply), "{\"message\": \"Fine.\", \"insight\": \"terse\"}");
    let (m, i) = extract_message_and_insight(reply, None);
    assert_eq!(m, "Fine.");
    assert_eq!(i.as_deref(), Some("terse"));
}

#[test]
fn plain_reply_is_trimmed_and_keeps_fallback() {
    let (m, i) = extract_message_and_insight("\n  Just words, no JSON.\t ", Some("likes cats"));
    assert_eq!(m, "Just words, no JSON.");
    assert_eq!(i.as_deref(), Some("likes cats"));
    let (m2, i2) = extract_message_and_insight("words", None);
    assert_eq!(m2, "words");
    assert_eq!(i2, None);
}

#[test]
fn json_reply_without_message_uses_cleaned_text() {
    let (m, i) = extract_message_and_insight(" {\"insight\": 3} ", Some("fb"));
    assert_eq!(m, "{\"insight\": 3}");
    assert_eq!(i, None);
    let (m2, i2) = extract_message_and_insight("42", Some("fb"));
    assert_eq!(m2, "42");
    assert_eq!(i2, None);
}

#[test]
fn open_fence_without_close_falls_back_to_whole_reply() {
    let reply = "```json {\"message\": \"x\"}";
    assert_eq!(clean_response(reply), reply);
    let (m, i) = extract_message_and_insight(reply, Some("f"));
    assert_eq!(m, reply);
    assert_eq!(i.as_deref(), Some("f"));
}

#[test]
fn close_fence_alone_is_cut() {
    assert_eq!(clean_response(" text ```"), "text");
    assert_eq!(clean_response(""), "");
    assert_eq!(clean_response("```json```"), "");
}

#[test]
fn message_and_insight_from_parsed_fields() {
    let parsed = JsonFields { valid: true, message: Some("m".to_string()), insight: None };
    assert_eq!(message_and_insight("clean", parsed, Some("f")), ("m".to_string(), None));
    let parsed = JsonFields { valid: true, message: None, insight: Some("i".to_string()) };
    assert_eq!(message_and_insight("clean", parsed, Some("f")), ("clean".to_string(), Some("i".to_string())));
    let parsed = JsonFields { valid: false, message: None, insight: None };
    assert_eq!(message_and_insight("clean", parsed, Some("f")), ("clean".to_string(), Some("f".to_string())));
}

#[test]
fn trim_removes_unicode_whitespace() {
    assert_eq!(trim("\u{3000}\u{a0} abc d\u{2029}\r\n"), "abc d");
    assert_eq!(trim(" \t "), "");
    assert_eq!(trim("x"), "x");
    assert_eq!(trim("\u{200b}x"), "\u{200b}x");
    for c in ['\u{85}', '\u{1680}', '\u{2000}', '\u{200a}', '\u{2028}', '\u{202f}', '\u{205f}', '\u{b}', '\u{c}'] {
        assert!(is_whitespace(c));
        assert_eq!(trim(&format!("{}y{}", c, c)), "y");
    }
    assert!(!is_whitespace('\u{200b}'));
    assert!(!is_whitespace('a'));
}

#[test]
fn trim_is_idempotent_on_examples() {
    for s in ["  a b  ", "\u{3000}é\u{3000}", "", "  ", "x"] {
        let once = trim(s);
        assert_eq!(trim(once), once);
    }
}

#[test]
fn prefix_suffix_and_equality() {
    assert!(starts_with("```json{}", "```json"));
    assert!(!starts_with("``json", "```json"));
    assert!(starts_with("abc", ""));
    assert!(ends_with("abc```", "```"));
    assert!(!ends_with("``", "```"));
    assert!(str_eq("héllo", "héllo"));
    assert!(!str_eq("hello", "hellö"));
}
