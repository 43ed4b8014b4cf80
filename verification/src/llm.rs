use vstd::prelude::*;
use vstd::string::StringExecFns;
use crate::error::AppError;
use crate::models::GenerationResult;
use crate::reply::opt_string_view;
use crate::text::str_eq;

verus! {

/// The language-model services the generator can talk to.
#[derive(Debug, Clone, Copy, PartialEq, Eq, Structural)]
pub enum LlmProvider {
    Mistral,
    Ollama,
}

/// Where the Mistral chat API is reached unless the environment says otherwise.
pub const MISTRAL_DEFAULT_ENDPOINT: &'static str = "https://api.mistral.ai/v1/chat/completions";

/// Where a local Ollama server is reached unless the environment says otherwise.
pub const OLLAMA_DEFAULT_ENDPOINT: &'static str = "http://localhost:11434/api/generate";

/// The environment variable that holds the Mistral API key.
pub const MISTRAL_API_KEY_VAR: &'static str = "MISTRAL_API_KEY";

/// The environment variable that overrides the Mistral endpoint.
pub const MISTRAL_ENDPOINT_VAR: &'static str = "MISTRAL_API_ENDPOINT";

/// The environment variable that overrides the Ollama endpoint.
pub const OLLAMA_ENDPOINT_VAR: &'static str = "OLLAMA_ENDPOINT";

impl LlmProvider {
    /// The provider a command-line name stands for: `mistral` or `ollama`.
    pub fn from_name(name: &str) -> (r: Option<LlmProvider>)
        ensures
            r == (if name@ == "mistral"@ {
                Some(LlmProvider::Mistral)
            } else if name@ == "ollama"@ {
                Some(LlmProvider::Ollama)
            } else {
                None
            }),
    {
        if str_eq(name, "mistral") {
            Some(LlmProvider::Mistral)
        } else if str_eq(name, "ollama") {
            Some(LlmProvider::Ollama)
        } else {
            None
        }
    }

    /// The environment variable that can override the provider's endpoint.
    pub fn endpoint_variable(&self) -> (r: &'static str)
        ensures
            r@ == (match *self {
                LlmProvider::Mistral => MISTRAL_ENDPOINT_VAR@,
                LlmProvider::Ollama => OLLAMA_ENDPOINT_VAR@,
            }),
    {
        match self {
            LlmProvider::Mistral => MISTRAL_ENDPOINT_VAR,
            LlmProvider::Ollama => OLLAMA_ENDPOINT_VAR,
        }
    }

    /// The environment variable that holds the provider's API key, where it
    /// needs one.
    pub fn api_key_variable(&self) -> (r: Option<&'static str>)
        ensures
            match *self {
                LlmProvider::Mistral => r matches Some(v) && v@ == MISTRAL_API_KEY_VAR@,
                LlmProvider::Ollama => r is None,
            },
    {
        match self {
            LlmProvider::Mistral => Some(MISTRAL_API_KEY_VAR),
            LlmProvider::Ollama => None,
        }
    }
}

/// How the generator reaches a language model: the provider, its endpoint, the
/// API key where one is needed, and the model to ask.
pub struct LlmService {
    pub provider: LlmProvider,
    pub endpoint: String,
    pub api_key: Option<String>,
    pub model: String,
}

/// Whether `e` is the error for an unset environment variable named `name`.
pub open spec fn is_env_var_not_set(e: AppError, name: Seq<char>) -> bool {
    e matches AppError::EnvVarNotSet(v) && v@ == name
}

/// Whether `e` is a language-model error with the message `message`.
pub open spec fn is_llm_error(e: AppError, message: Seq<char>) -> bool {
    e matches AppError::Llm(m) && m@ == message
}

/// Whether `s` is the service for `provider` and `model` made of the values of
/// the endpoint and API key variables: the endpoint is the variable's value or
/// the provider's default; Mistral keeps the key, Ollama takes none.
pub open spec fn service_for(
    s: LlmService,
    provider: LlmProvider,
    model: Seq<char>,
    endpoint_var: Option<String>,
    api_key_var: Option<String>,
) -> bool {
    let default_endpoint = match provider {
        LlmProvider::Mistral => MISTRAL_DEFAULT_ENDPOINT@,
        LlmProvider::Ollama => OLLAMA_DEFAULT_ENDPOINT@,
    };
    &&& s.provider == provider
    &&& s.model@ == model
    &&& s.endpoint@ == (match endpoint_var {
        Some(v) => v@,
        None => default_endpoint,
    })
    &&& opt_string_view(s.api_key) == (match provider {
        LlmProvider::Mistral => opt_string_view(api_key_var),
        LlmProvider::Ollama => None,
    })
}

impl LlmService {
    /// The service for `provider` and `model`, given the values of the
    /// provider's endpoint variable and API key variable (`None` where unset).
    /// The endpoint is the variable's value or the provider's default. Mistral
    /// needs an API key and fails with `EnvVarNotSet("MISTRAL_API_KEY")` without
    /// one; Ollama takes none.
    pub fn new(
        provider: LlmProvider,
        model: &str,
        endpoint_var: Option<String>,
        api_key_var: Option<String>,
    ) -> (r: Result<LlmService, AppError>)
        ensures
            match r {
                Ok(s) => !(provider == LlmProvider::Mistral && api_key_var is None) && service_for(
                    s,
                    provider,
                    model@,
                    endpoint_var,
                    api_key_var,
                ),
                Err(e) => provider == LlmProvider::Mistral && api_key_var is None
                    && is_env_var_not_set(e, MISTRAL_API_KEY_VAR@),
            },
            r is Err <==> (provider == LlmProvider::Mistral && api_key_var is None),
            r matches Ok(s) ==> s.provider == provider && s.model@ == model@,
            r matches Ok(s) ==> (endpoint_var matches Some(v) ==> s.endpoint@ == v@),
            r matches Ok(s) ==> (endpoint_var is None && provider == LlmProvider::Mistral
                ==> s.endpoint@ == MISTRAL_DEFAULT_ENDPOINT@),
            r matches Ok(s) ==> (endpoint_var is None && provider == LlmProvider::Ollama
                ==> s.endpoint@ == OLLAMA_DEFAULT_ENDPOINT@),
            r matches Ok(s) ==> (provider == LlmProvider::Ollama ==> s.api_key is None),
            r matches Ok(s) ==> (provider == LlmProvider::Mistral ==> (s.api_key matches Some(k)
                && api_key_var matches Some(v) && k@ == v@)),
            r matches Err(e) ==> (e matches AppError::EnvVarNotSet(v) && v@ == "MISTRAL_API_KEY"@),
    {
        match provider {
            LlmProvider::Mistral => {
                let endpoint = match endpoint_var {
                    Some(v) => v,
                    None => String::from_str(MISTRAL_DEFAULT_ENDPOINT),
                };
                match api_key_var {
                    None => Err(AppError::EnvVarNotSet(String::from_str(MISTRAL_API_KEY_VAR))),
                    Some(key) => Ok(
                        LlmService {
                            provider,
                            endpoint,
                            api_key: Some(key),
                            model: String::from_str(model),
                        },
                    ),
                }
            },
            LlmProvider::Ollama => {
                let endpoint = match endpoint_var {
                    Some(v) => v,
                    None => String::from_str(OLLAMA_DEFAULT_ENDPOINT),
                };
                Ok(LlmService { provider, endpoint, api_key: None, model: String::from_str(model) })
            },
        }
    }

    /// A stand-in service that no request reaches.
    pub fn new_mock() -> (r: LlmService)
        ensures
            r.provider == LlmProvider::Ollama,
            r.endpoint@ == "mock"@,
            r.api_key is None,
            r.model@ == "mock-model"@,
    {
        LlmService {
            provider: LlmProvider::Ollama,
            endpoint: String::from_str("mock"),
            api_key: None,
            model: String::from_str("mock-model"),
        }
    }

    /// The API key to send to Mistral; `EnvVarNotSet("MISTRAL_API_KEY")` where the
    /// service has none.
    pub fn mistral_api_key(&self) -> (r: Result<&String, AppError>)
        ensures
            match self.api_key {
                Some(k) => r matches Ok(v) && *v == k,
                None => r matches Err(e) && is_env_var_not_set(e, MISTRAL_API_KEY_VAR@),
            },
    {
        match &self.api_key {
            Some(k) => Ok(k),
            None => Err(AppError::EnvVarNotSet(String::from_str(MISTRAL_API_KEY_VAR))),
        }
    }

    /// The text of a model's reply, given whether the HTTP status was a success,
    /// the status as text, and the reply's content where the reply had it as a
    /// string: an `Llm` error `API error: <status>` for a failed status, an `Llm`
    /// error for a reply without content, the content otherwise.
    pub fn reply_text(status_ok: bool, status: &str, content: Option<String>) -> (r: Result<
        String,
        AppError,
    >)
        ensures
            !status_ok ==> (r matches Err(e) && is_llm_error(e, "API error: "@ + status@)),
            status_ok && content is None ==> (r matches Err(e) && is_llm_error(
                e,
                "Invalid API response format"@,
            )),
            status_ok && content is Some ==> (r matches Ok(t) && t@ == content->0@),
    {
        if !status_ok {
            let mut message = String::from_str("API error: ");
            message.append(status);
            return Err(AppError::Llm(message));
        }
        match content {
            Some(text) => Ok(text),
            None => Err(AppError::Llm(String::from_str("Invalid API response format"))),
        }
    }

    /// The structured result of a reply: what it parses to as a
    /// `GenerationResult` where it does, and otherwise the whole text as the
    /// message with no insight and no profile snippet.
    pub fn structured_result(text: String, parsed: Option<GenerationResult>) -> (r: GenerationResult)
        ensures
            match parsed {
                Some(p) => r == p,
                None => r.message@ == text@ && r.insight is None && r.profile_snippet is None,
            },
    {
        match parsed {
            Some(p) => p,
            None => GenerationResult { message: text, insight: None, profile_snippet: None },
        }
    }

    /// The stand-in reply to a prompt: `Mock response to: <prompt>`.
    pub fn generate_text_mock(&self, prompt: &str) -> (r: Result<String, AppError>)
        ensures
            r matches Ok(t) && t@ == "Mock response to: "@ + prompt@,
    {
        let mut text = String::from_str("Mock response to: ");
        text.append(prompt);
        Ok(text)
    }

    /// The stand-in structured reply to a prompt.
    pub fn generate_structured_mock(&self, prompt: &str) -> (r: Result<GenerationResult, AppError>)
        ensures
            r matches Ok(g) && g.message@ == "Mock structured response to: "@ + prompt@
                && opt_string_view(g.insight) == Some("Mock insight"@) && opt_string_view(
                g.profile_snippet,
            ) == Some("Mock profile snippet"@),
    {
        let mut message = String::from_str("Mock structured response to: ");
        message.append(prompt);
        Ok(
            GenerationResult {
                message,
                insight: Some(String::from_str("Mock insight")),
                profile_snippet: Some(String::from_str("Mock profile snippet")),
            },
        )
    }
}

} // verus!
