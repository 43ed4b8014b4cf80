use decon_recon_server::campaign::{
    build_utterance, create_utterance, create_utterance_with_insight, get_modalities_with_levels,
    get_preferential_modalities,
};
use decon_recon_server::models::{
    Campaign, CampaignData, Character, ModalityAspect, ModalityLayer, Substant,
};

fn aspect(id: &str, name: &str, description: &str) -> ModalityAspect {
    ModalityAspect {
        id: id.to_string(),
        name: name.to_string(),
        layman_name: format!("{} (plain)", name),
        description: description.to_string(),
        icon: None,
    }
}

fn layer(level: u32, id: &str, aspects: Vec<ModalityAspect>) -> ModalityLayer {
    ModalityLayer {
        level,
        id: id.to_string(),
        name: id.to_uppercase(),
        layman_name: id.to_string(),
        full_description: format!("the {} layer", id),
        aspects,
    }
}

fn character(id: &str, name: &str, prefs: &[&str]) -> Character {
    Character {
        id: id.to_string(),
        name: name.to_string(),
        location: "town hall".to_string(),
        description: format!("{} is nervous", name),
        preferential_modalities: prefs.iter().map(|s| s.to_string()).collect(),
        secret: "saw everything".to_string(),
    }
}

fn sample_campaign() -> CampaignData {
    CampaignData {
        campaign: Campaign {
            id: "town-hall-murder".to_string(),
            title: "Murder at the Town Hall".to_string(),
            hub_location: "town hall".to_string(),
            description: "A body was found.".to_string(),
            introduction: "It was a dark night.".to_string(),
            resolution: "The butler did it.".to_string(),
        },
        characters: vec![
            character("elias", "Elias", &["emotional:paranoia", "core:fact"]),
            character("rosa", "Rosa", &["social:politeness"]),
            character("elias", "Second Elias", &[]),
        ],
        modalities: vec![
            layer(
                2,
                "emotional",
                vec![
                    aspect("emotional:paranoia", "Paranoia", "fear of being watched"),
                    aspect("emotional:defensiveness", "Defensiveness", "guarding oneself"),
                ],
            ),
            layer(0, "core", vec![aspect("core:fact", "Fact", "plain statement")]),
            layer(
                1,
                "social",
                vec![
                    aspect("social:politeness", "Politeness", "courteous wording"),
                    aspect("loose", "Loose", "an aspect whose id names no layer"),
                ],
            ),
            layer(
                5,
                "emotional",
                vec![aspect("emotional:paranoia", "Other paranoia", "a later duplicate")],
            ),
        ],
        substants: vec![Substant { id: "s1".to_string(), factoid: "The clock stopped.".to_string() }],
    }
}

#[test]
fn find_character_returns_first_match() {
    let data = sample_campaign();
    let c = data.find_character("elias").unwrap();
    assert_eq!(c.name, "Elias");
    assert_eq!(data.find_character("rosa").unwrap().name, "Rosa");
    assert!(data.find_character("nobody").is_none());
    assert!(data.find_character("").is_none());
}

#[test]
fn find_modality_aspect_searches_layers_in_order() {
    let data = sample_campaign();
    let a = data.find_modality_aspect("emotional:paranoia").unwrap();
    assert_eq!(a.name, "Paranoia");
    assert_eq!(data.find_modality_aspect("loose").unwrap().name, "Loose");
    assert_eq!(data.find_modality_aspect("core:fact").unwrap().description, "plain statement");
    assert!(data.find_modality_aspect("emotional:joy").is_none());
}

#[test]
fn modality_context_line_and_empty_for_unknown() {
    let data = sample_campaign();
    assert_eq!(
        data.get_modality_context("emotional:paranoia"),
        "Modality Layer: emotional:paranoia - fear of being watched"
    );
    assert_eq!(data.get_modality_context("emotional:joy"), "");
}

#[test]
fn modalities_sorted_by_level_and_stable() {
    let data = sample_campaign();
    let ids = [
        "emotional:defensiveness",
        "unknown:aspect",
        "core:fact",
        "social:politeness",
        "emotional:paranoia",
        "loose",
    ];
    let r = get_modalities_with_levels(&data, &ids);
    let got: Vec<(String, u32)> = r.iter().map(|m| (m.aspect.id.clone(), m.level)).collect();
    assert_eq!(
        got,
        vec![
            ("core:fact".to_string(), 0),
            ("loose".to_string(), 0),
            ("social:politeness".to_string(), 1),
            ("emotional:defensiveness".to_string(), 2),
            ("emotional:paranoia".to_string(), 2),
        ]
    );
    assert_eq!(r[4].aspect.name, "Paranoia");
    assert_eq!(r[4].aspect.description, "fear of being watched");
}

#[test]
fn modalities_with_levels_of_nothing_is_empty() {
    let data = sample_campaign();
    assert!(get_modalities_with_levels(&data, &[]).is_empty());
    assert!(get_modalities_with_levels(&data, &["a:b", "c"]).is_empty());
}

#[test]
fn modalities_keep_duplicates_in_order() {
    let data = sample_campaign();
    let r = get_modalities_with_levels(&data, &["emotional:paranoia", "core:fact", "emotional:paranoia"]);
    let levels: Vec<u32> = r.iter().map(|m| m.level).collect();
    assert_eq!(levels, vec![0, 2, 2]);
}

#[test]
fn preferential_modalities_of_character() {
    let data = sample_campaign();
    let prefs = get_preferential_modalities(&data.characters[0]);
    assert_eq!(prefs, vec!["emotional:paranoia", "core:fact"]);
    assert!(get_preferential_modalities(&data.characters[2]).is_empty());
}

fn assert_uuid_v4(id: &str) {
    let chars: Vec<char> = id.chars().collect();
    assert_eq!(chars.len(), 36);
    for (i, c) in chars.iter().enumerate() {
        if i == 8 || i == 13 || i == 18 || i == 23 {
            assert_eq!(*c, '-');
        } else {
            assert!(c.is_ascii_hexdigit() && !c.is_ascii_uppercase());
        }
    }
    assert_eq!(chars[14], '4');
}

#[test]
fn create_utterance_fills_fields() {
    let u = create_utterance("elias", "s1", "The clock stopped.", Some("prev"), Some("core:fact"));
    assert_uuid_v4(&u.id);
    assert_eq!(u.character_id, "elias");
    assert_eq!(u.substant_id, "s1");
    assert_eq!(u.utterance, "The clock stopped.");
    assert_eq!(u.insight, None);
    assert_eq!(u.construction_depth, 0);
    assert_eq!(u.constructed_from.as_deref(), Some("prev"));
    assert_eq!(u.used_aspect.as_deref(), Some("core:fact"));
}

#[test]
fn create_utterance_with_insight_fills_fields() {
    let u = create_utterance_with_insight("rosa", "s2", "Hello", Some("likes tea"), 3, None, None);
    assert_uuid_v4(&u.id);
    assert_eq!(u.insight.as_deref(), Some("likes tea"));
    assert_eq!(u.construction_depth, 3);
    assert_eq!(u.constructed_from, None);
    assert_eq!(u.used_aspect, None);
    let other = create_utterance_with_insight("rosa", "s2", "Hello", None, 3, None, None);
    assert_ne!(u.id, other.id);
}

#[test]
fn build_utterance_keeps_given_id() {
    let u = build_utterance("id-1".to_string(), "c", "s", "t", None, 7, Some("p"), None);
    assert_eq!(u.id, "id-1");
    assert_eq!(u.construction_depth, 7);
    assert_eq!(u.constructed_from.as_deref(), Some("p"));
}

#[test]
fn find_substant_by_id() {
    let data = sample_campaign();
    assert_eq!(data.find_substant("s1").unwrap().factoid, "The clock stopped.");
    assert!(data.find_substant("s2").is_none());
}
