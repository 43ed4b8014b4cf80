use decon_recon_server::error::AppError;
use decon_recon_server::export::ExportedUtterance;
use decon_recon_server::generator::UtteranceGenerator;
use decon_recon_server::llm::{LlmProvider, LlmService};
use decon_recon_server::models::{
    Campaign, CampaignData, Character, GenerationResult, ModalityAspect, ModalityLayer,
};
use decon_recon_server::prompts::get_construct_translation_prompt;

#[test]
fn mistral_without_key_is_refused() {
    let r = LlmService::new(LlmProvider::Mistral, "m", None, None);
    match r {
        Err(AppError::EnvVarNotSet(v)) => assert_eq!(v, "MISTRAL_API_KEY"),
        _ => panic!("expected EnvVarNotSet"),
    }
}

#[test]
fn mistral_with_key_uses_default_or_given_endpoint() {
    let s = LlmService::new(LlmProvider::Mistral, "mistral-tiny", None, Some("SECRET-REDACTED".to_string())).unwrap();
    assert_eq!(s.endpoint, "https://api.mistral.ai/v1/chat/completions");
    assert_eq!(s.api_key.as_deref(), Some("SECRET-REDACTED"));
    assert_eq!(s.model, "mistral-tiny");
    assert_eq!(s.provider, LlmProvider::Mistral);
    let s = LlmService::new(LlmProvider::Mistral, "m", Some("http://proxy".to_string()), Some("k".to_string())).unwrap();
    assert_eq!(s.endpoint, "http://proxy");
}

#[test]
fn ollama_takes_no_key() {
    let s = LlmService::new(LlmProvider::Ollama, "mistral-small3.2:latest", None, Some("k".to_string())).unwrap();
    assert_eq!(s.endpoint, "http://localhost:11434/api/generate");
    assert_eq!(s.api_key, None);
    assert_eq!(s.model, "mistral-small3.2:latest");
    let s = LlmService::new(LlmProvider::Ollama, "x", Some("http://gpu:1".to_string()), None).unwrap();
    assert_eq!(s.endpoint, "http://gpu:1");
}

#[test]
fn mock_service_and_replies() {
    let s = LlmService::new_mock();
    assert_eq!(s.provider, LlmProvider::Ollama);
    assert_eq!(s.endpoint, "mock");
    assert_eq!(s.model, "mock-model");
    assert_eq!(s.api_key, None);
    assert_eq!(s.generate_text_mock("hi").unwrap(), "Mock response to: hi");
    let g = s.generate_structured_mock("hi").unwrap();
    assert_eq!(g.message, "Mock structured response to: hi");
    assert_eq!(g.insight.as_deref(), Some("Mock insight"));
    assert_eq!(g.profile_snippet.as_deref(), Some("Mock profile snippet"));
}

#[test]
fn api_key_needed_for_mistral_requests() {
    let s = LlmService::new_mock();
    match s.mistral_api_key() {
        Err(AppError::EnvVarNotSet(v)) => assert_eq!(v, "MISTRAL_API_KEY"),
        _ => panic!("expected EnvVarNotSet"),
    }
    let s = LlmService::new(LlmProvider::Mistral, "m", None, Some("k".to_string())).unwrap();
    assert_eq!(s.mistral_api_key().unwrap(), "k");
}

#[test]
fn reply_text_errors() {
    match LlmService::reply_text(false, "404 Not Found", Some("x".to_string())) {
        Err(AppError::Llm(m)) => assert_eq!(m, "API error: 404 Not Found"),
        _ => panic!("expected Llm error"),
    }
    match LlmService::reply_text(true, "200 OK", None) {
        Err(AppError::Llm(m)) => assert_eq!(m, "Invalid API response format"),
        _ => panic!("expected Llm error"),
    }
    assert_eq!(LlmService::reply_text(true, "200 OK", Some("text".to_string())).unwrap(), "text");
}

#[test]
fn structured_result_falls_back_to_text() {
    let r = LlmService::structured_result("plain".to_string(), None);
    assert_eq!(r.message, "plain");
    assert!(r.insight.is_none() && r.profile_snippet.is_none());
    let parsed = GenerationResult { message: "m".to_string(), insight: Some("i".to_string()), profile_snippet: None };
    let r = LlmService::structured_result("plain".to_string(), Some(parsed));
    assert_eq!(r.message, "m");
    assert_eq!(r.insight.as_deref(), Some("i"));
}

#[test]
fn provider_names_and_variables() {
    assert_eq!(LlmProvider::from_name("mistral"), Some(LlmProvider::Mistral));
    assert_eq!(LlmProvider::from_name("ollama"), Some(LlmProvider::Ollama));
    assert_eq!(LlmProvider::from_name("Mistral"), None);
    assert_eq!(LlmProvider::from_name(""), None);
    assert_eq!(LlmProvider::Mistral.endpoint_variable(), "MISTRAL_API_ENDPOINT");
    assert_eq!(LlmProvider::Ollama.endpoint_variable(), "OLLAMA_ENDPOINT");
    assert_eq!(LlmProvider::Mistral.api_key_variable(), Some("MISTRAL_API_KEY"));
    assert_eq!(LlmProvider::Ollama.api_key_variable(), None);
}

#[test]
fn generator_new_follows_service() {
    assert!(matches!(UtteranceGenerator::new(LlmProvider::Mistral, "m", None, None), Err(AppError::EnvVarNotSet(_))));
    let g = UtteranceGenerator::new(LlmProvider::Ollama, "m", None, None).unwrap();
    assert_eq!(g.llm_service.endpoint, "http://localhost:11434/api/generate");
}

fn data() -> CampaignData {
    CampaignData {
        campaign: Campaign {
            id: "c".to_string(),
            title: "T".to_string(),
            hub_location: "h".to_string(),
            description: "d".to_string(),
            introduction: "i".to_string(),
            resolution: "r".to_string(),
        },
        characters: vec![Character {
            id: "elias".to_string(),
            name: "Elias".to_string(),
            location: "l".to_string(),
            description: "a clockmaker".to_string(),
            preferential_modalities: vec![],
            secret: "s".to_string(),
        }],
        modalities: vec![ModalityLayer {
            level: 1,
            id: "emotional".to_string(),
            name: "Emotional".to_string(),
            layman_name: "feelings".to_string(),
            full_description: "f".to_string(),
            aspects: vec![ModalityAspect {
                id: "emotional:paranoia".to_string(),
                name: "Paranoia".to_string(),
                layman_name: "p".to_string(),
                description: "fear".to_string(),
                icon: None,
            }],
        }],
        substants: vec![],
    }
}

#[test]
fn construction_prompt_for_known_character_and_aspect() {
    let p = UtteranceGenerator::construction_prompt(&data(), "elias", "emotional:paranoia", "Hi").unwrap();
    assert_eq!(
        p,
        get_construct_translation_prompt("Elias", "a clockmaker", "Paranoia", "fear", "Modality Layer: emotional:paranoia - fear", "Hi")
    );
}

#[test]
fn construction_prompt_errors() {
    match UtteranceGenerator::construction_prompt(&data(), "rosa", "nope", "Hi") {
        Err(AppError::CharacterNotFound(v)) => assert_eq!(v, "rosa"),
        _ => panic!("expected CharacterNotFound"),
    }
    match UtteranceGenerator::construction_prompt(&data(), "elias", "nope", "Hi") {
        Err(AppError::SubmodalityNotFound(v)) => assert_eq!(v, "nope"),
        _ => panic!("expected SubmodalityNotFound"),
    }
}

#[test]
fn exported_utterance_defaults() {
    let e = ExportedUtterance::from_fields(None, Some("c".to_string()), None, None, None, None, None, Some("p".to_string()));
    assert_eq!(e.id, "");
    assert_eq!(e.character_id, "c");
    assert_eq!(e.substant_id, "");
    assert_eq!(e.utterance, "");
    assert_eq!(e.insight, None);
    assert_eq!(e.construction_depth, None);
    assert_eq!(e.used_aspect, None);
    assert_eq!(e.constructed_from.as_deref(), Some("p"));
}

#[test]
fn exported_depth_is_cut_to_u32() {
    let depth = |n: i64| ExportedUtterance::from_fields(None, None, None, None, None, Some(n), None, None).construction_depth;
    assert_eq!(depth(3), Some(3));
    assert_eq!(depth((1i64 << 32) + 5), Some(5));
    assert_eq!(depth(-1), Some(u32::MAX));
}

#[test]
fn app_error_other_variants_hold_their_text() {
    let e = AppError::InvalidAction("fly".to_string());
    assert!(matches!(e, AppError::InvalidAction(ref s) if s == "fly"));
    let e = AppError::CampaignNotFound("x".to_string());
    assert!(matches!(e, AppError::CampaignNotFound(ref s) if s == "x"));
    let io = AppError::Io(std::io::Error::new(std::io::ErrorKind::NotFound, "gone"));
    assert!(matches!(io, AppError::Io(_)));
    let json = AppError::Json(serde_json::from_str::<serde_json::Value>("{").unwrap_err());
    assert!(matches!(json, AppError::Json(_)));
    let toml_err = AppError::Toml(toml::from_str::<toml::Value>("= =").unwrap_err());
    assert!(matches!(toml_err, AppError::Toml(_)));
}

use decon_recon_server::export::{exported_from_records, exported_utterances, UtteranceRecord};

#[test]
fn generator_for_mistral_needs_key() {
    match UtteranceGenerator::new(LlmProvider::Mistral, "m", Some("http://x".to_string()), None) {
        Err(AppError::EnvVarNotSet(v)) => assert_eq!(v, "MISTRAL_API_KEY"),
        _ => panic!("expected EnvVarNotSet"),
    }
    let g = UtteranceGenerator::new(LlmProvider::Mistral, "m", None, Some("k".to_string())).unwrap();
    assert_eq!(g.llm_service.api_key.as_deref(), Some("k"));
}

#[test]
fn exported_utterances_from_toml_text() {
    let text = r#"
[[utterances]]
id = "a"
character_id = "elias"
substant_id = "s1"
utterance = "Hello"
construction_depth = 2
used_aspect = "core:fact"

[[utterances]]
id = 7
insight = "shy"
constructed_from = "a"
"#;
    let r = exported_utterances(text).unwrap();
    assert_eq!(r.len(), 2);
    assert_eq!(r[0].id, "a");
    assert_eq!(r[0].character_id, "elias");
    assert_eq!(r[0].utterance, "Hello");
    assert_eq!(r[0].construction_depth, Some(2));
    assert_eq!(r[0].used_aspect.as_deref(), Some("core:fact"));
    assert_eq!(r[0].insight, None);
    assert_eq!(r[1].id, "");
    assert_eq!(r[1].insight.as_deref(), Some("shy"));
    assert_eq!(r[1].constructed_from.as_deref(), Some("a"));
    assert_eq!(r[1].construction_depth, None);
}

#[test]
fn exported_utterances_edge_cases() {
    assert!(exported_utterances("").unwrap().is_empty());
    assert!(exported_utterances("title = \"x\"").unwrap().is_empty());
    assert!(exported_utterances("utterances = 3").unwrap().is_empty());
    assert!(exported_utterances("[[utterances]]\nid = ").is_err());
    let r = exported_utterances("utterances = [1, \"x\"]").unwrap();
    assert_eq!(r.len(), 2);
    assert_eq!(r[1].id, "");
}

#[test]
fn exported_from_records_maps_each_record() {
    assert_eq!(exported_from_records(Err("bad".to_string())).err().as_deref(), Some("bad"));
    assert!(exported_from_records(Ok(None)).unwrap().is_empty());
    let rec = UtteranceRecord {
        id: Some("i".to_string()),
        character_id: None,
        substant_id: None,
        utterance: Some("t".to_string()),
        insight: None,
        construction_depth: Some(-2),
        used_aspect: None,
        constructed_from: None,
    };
    let r = exported_from_records(Ok(Some(vec![rec]))).unwrap();
    assert_eq!(r[0].id, "i");
    assert_eq!(r[0].utterance, "t");
    assert_eq!(r[0].construction_depth, Some(u32::MAX - 1));
}
