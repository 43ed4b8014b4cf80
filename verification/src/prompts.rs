use vstd::prelude::*;
use vstd::string::StringExecFns;

verus! {

/// Opens the prompt: the task, up to where the recipient is named.
pub const CONSTRUCT_PROMPT_OPENING: &'static str = "You are a language construction expert. Your task is to analyse a given text and rewrite it such a way that it retains the core meaning but adds the aspect in the text related to the given aspect.

Optional profile information about the recipient (";

/// Stands between the recipient's name and their profile.
pub const CONSTRUCT_PROMPT_AFTER_NAME: &'static str = "): ";

/// Stands between the profile and the aspect's name.
pub const CONSTRUCT_PROMPT_AFTER_PROFILE: &'static str = "
Aspect name: ";

/// Stands between the aspect's name and its description.
pub const CONSTRUCT_PROMPT_AFTER_ASPECT_NAME: &'static str = "
Aspect description: ";

/// Stands between the aspect's description and the layer context.
pub const CONSTRUCT_PROMPT_AFTER_ASPECT_DESCRIPTION: &'static str = "

";

/// Stands between the layer context and the message: the guidelines and the reply format.
pub const CONSTRUCT_PROMPT_AFTER_CONTEXT: &'static str = "

Guidelines:
- Add ONLY elements specific to the requested aspect's modality layer.
- DO NOT modify aspects from other modality layers - preserve all elements from modalities other than the target modality.
- Only add elements within the target modality layer (the layer that this aspect belongs to).
- BE CONCISE and stay below 100 words
- DO NOT USE markdown formatting.
- Preserve all other semantic elements from all other modality layers.
- Keep the message coherent and natural.
- Maintain readability and flow.
- Ensure the core meaning remains intact.
- Be conservative - only add what is clearly part of the target modality layer, not elements from other layers.
- Rewrite the message as much as possible, don't simply add a phrase at the end.

Also provide snippet from the given profile or required addition to the profile to rewrite the message as short phrase such as:
\"likes Elephants\", or \"has a Southern accent\".

IMPORTANT: You must respond with ONLY a valid JSON object in the following format. Do not include any other text, explanations, or markdown formatting:

{
  \"message\": \"the rewritten message\",
  \"insight\": \"insight about character profile as a short phrase, based on the aspect and the message\"
}

Please construct this content:
";

/// The prompt that asks for `message` to be rewritten with an aspect added,
/// for a recipient described by `character_name` and `character_profile`.
pub open spec fn construct_prompt(
    character_name: Seq<char>,
    character_profile: Seq<char>,
    aspect_name: Seq<char>,
    aspect_description: Seq<char>,
    layer_context: Seq<char>,
    message: Seq<char>,
) -> Seq<char> {
    CONSTRUCT_PROMPT_OPENING@ + character_name + CONSTRUCT_PROMPT_AFTER_NAME@ + character_profile
        + CONSTRUCT_PROMPT_AFTER_PROFILE@ + aspect_name + CONSTRUCT_PROMPT_AFTER_ASPECT_NAME@
        + aspect_description + CONSTRUCT_PROMPT_AFTER_ASPECT_DESCRIPTION@ + layer_context
        + CONSTRUCT_PROMPT_AFTER_CONTEXT@ + message
}

/// A prompt opens with the task text and ends with the message to rewrite, and
/// prompts that differ only in their message differ.
pub proof fn lemma_prompt_frames_message(
    character_name: Seq<char>,
    character_profile: Seq<char>,
    aspect_name: Seq<char>,
    aspect_description: Seq<char>,
    layer_context: Seq<char>,
    message: Seq<char>,
    other_message: Seq<char>,
)
    ensures
        ({
            let p = construct_prompt(
                character_name,
                character_profile,
                aspect_name,
                aspect_description,
                layer_context,
                message,
            );
            &&& p.take(CONSTRUCT_PROMPT_OPENING@.len() as int) == CONSTRUCT_PROMPT_OPENING@
            &&& p.skip(p.len() - message.len()) == message
            &&& p.len() >= message.len() + CONSTRUCT_PROMPT_OPENING@.len() + CONSTRUCT_PROMPT_AFTER_CONTEXT@.len()
        }),
        message != other_message ==> construct_prompt(
            character_name,
            character_profile,
            aspect_name,
            aspect_description,
            layer_context,
            message,
        ) != construct_prompt(
            character_name,
            character_profile,
            aspect_name,
            aspect_description,
            layer_context,
            other_message,
        ),
{
    let head = CONSTRUCT_PROMPT_OPENING@ + character_name + CONSTRUCT_PROMPT_AFTER_NAME@
        + character_profile + CONSTRUCT_PROMPT_AFTER_PROFILE@ + aspect_name
        + CONSTRUCT_PROMPT_AFTER_ASPECT_NAME@ + aspect_description
        + CONSTRUCT_PROMPT_AFTER_ASPECT_DESCRIPTION@ + layer_context + CONSTRUCT_PROMPT_AFTER_CONTEXT@;
    let p = head + message;
    let q = head + other_message;
    assert(p =~= construct_prompt(
        character_name,
        character_profile,
        aspect_name,
        aspect_description,
        layer_context,
        message,
    ));
    assert(q =~= construct_prompt(
        character_name,
        character_profile,
        aspect_name,
        aspect_description,
        layer_context,
        other_message,
    ));
    assert(p.take(CONSTRUCT_PROMPT_OPENING@.len() as int) =~= CONSTRUCT_PROMPT_OPENING@);
    assert(p.skip(p.len() - message.len()) =~= message);
    if message != other_message && p == q {
        assert(p.skip(head.len() as int) =~= message);
        assert(q.skip(head.len() as int) =~= other_message);
    }
}

/// The prompt that asks a language model to rewrite `message` so that it takes
/// on the given aspect, for the given recipient, and to answer in JSON with the
/// rewritten message and an insight into the recipient.
pub fn get_construct_translation_prompt(
    character_name: &str,
    character_profile: &str,
    aspect_name: &str,
    aspect_description: &str,
    layer_context: &str,
    message: &str,
) -> (r: String)
    ensures
        r@ == construct_prompt(
            character_name@,
            character_profile@,
            aspect_name@,
            aspect_description@,
            layer_context@,
            message@,
        ),
{
    let mut prompt = String::from_str(CONSTRUCT_PROMPT_OPENING);
    prompt.append(character_name);
    prompt.append(CONSTRUCT_PROMPT_AFTER_NAME);
    prompt.append(character_profile);
    prompt.append(CONSTRUCT_PROMPT_AFTER_PROFILE);
    prompt.append(aspect_name);
    prompt.append(CONSTRUCT_PROMPT_AFTER_ASPECT_NAME);
    prompt.append(aspect_description);
    prompt.append(CONSTRUCT_PROMPT_AFTER_ASPECT_DESCRIPTION);
    prompt.append(layer_context);
    prompt.append(CONSTRUCT_PROMPT_AFTER_CONTEXT);
    prompt.append(message);
    prompt
}

} // verus!
