use vstd::prelude::*;
use vstd::string::StringExecFns;
use crate::error::AppError;
use crate::llm::{LlmProvider, LlmService, service_for};
use crate::models::{CampaignData, aspect_in_layers, character_with_id, context_line};
use crate::prompts::{construct_prompt, get_construct_translation_prompt};

verus! {

/// Generates utterances with a language model.
pub struct UtteranceGenerator {
    pub llm_service: LlmService,
}

impl UtteranceGenerator {
    /// A generator that talks to `provider` through the service that
    /// `LlmService::new` makes of the arguments, or the error it gives.
    pub fn new(
        provider: LlmProvider,
        model: &str,
        endpoint_var: Option<String>,
        api_key_var: Option<String>,
    ) -> (r: Result<UtteranceGenerator, AppError>)
        ensures
            match r {
                Ok(g) => !(provider == LlmProvider::Mistral && api_key_var is None) && service_for(
                    g.llm_service,
                    provider,
                    model@,
                    endpoint_var,
                    api_key_var,
                ),
                Err(e) => provider == LlmProvider::Mistral && api_key_var is None && (
                e matches AppError::EnvVarNotSet(v) && v@ == "MISTRAL_API_KEY"@),
            },
    {
        let llm_service = LlmService::new(provider, model, endpoint_var, api_key_var)?;
        Ok(UtteranceGenerator { llm_service })
    }

    /// The prompt that asks for `message` to be rewritten for the character with
    /// id `character_id`, adding the aspect with id `aspect_id` in the context of
    /// its layer; `CharacterNotFound(character_id)` where the campaign has no such
    /// character, else `SubmodalityNotFound(aspect_id)` where it has no such
    /// aspect. The prompt is what a construction sends to the language model.
    pub fn construction_prompt(
        campaign_data: &CampaignData,
        character_id: &str,
        aspect_id: &str,
        message: &str,
    ) -> (r: Result<String, AppError>)
        ensures
            match character_with_id(campaign_data.characters@, character_id@) {
                None => r matches Err(e) && (e matches AppError::CharacterNotFound(v) && v@
                    == character_id@),
                Some(c) => match aspect_in_layers(campaign_data.modalities@, aspect_id@) {
                    None => r matches Err(e) && (e matches AppError::SubmodalityNotFound(v) && v@
                        == aspect_id@),
                    Some(a) => r matches Ok(p) && p@ == construct_prompt(
                        c.name@,
                        c.description@,
                        a.name@,
                        a.description@,
                        context_line(a),
                        message@,
                    ),
                },
            },
    {
        let character = match campaign_data.find_character(character_id) {
            Some(c) => c,
            None => {
                return Err(AppError::CharacterNotFound(String::from_str(character_id)));
            },
        };
        let aspect = match campaign_data.find_modality_aspect(aspect_id) {
            Some(a) => a,
            None => {
                return Err(AppError::SubmodalityNotFound(String::from_str(aspect_id)));
            },
        };
        let modality_context = campaign_data.get_modality_context(aspect_id);
        Ok(
            get_construct_translation_prompt(
                character.name.as_str(),
                character.description.as_str(),
                aspect.name.as_str(),
                aspect.description.as_str(),
                modality_context.as_str(),
                message,
            ),
        )
    }
}

} // verus!
