use decon_recon_server::chain::{
    can_build_chains, chain_aspect, chain_length, find_existing_utterance,
    generate_modality_combinations, ChainState,
};
use decon_recon_server::campaign::build_utterance;
use decon_recon_server::models::{ModalityAspect, ModalityAspectWithLevel, Utterance};

fn m(id: &str, level: u32) -> ModalityAspectWithLevel {
    ModalityAspectWithLevel {
        aspect: ModalityAspect {
            id: id.to_string(),
            name: id.to_string(),
            layman_name: id.to_string(),
            description: String::new(),
            icon: Some("*".to_string()),
        },
        level,
    }
}

fn ids(chains: &Vec<Vec<ModalityAspectWithLevel>>) -> Vec<Vec<String>> {
    chains.iter().map(|c| c.iter().map(|x| x.aspect.id.clone()).collect()).collect()
}

fn names(v: Vec<Vec<&str>>) -> Vec<Vec<String>> {
    v.into_iter().map(|c| c.into_iter().map(String::from).collect()).collect()
}

#[test]
fn combinations_of_two_from_four_start_at_core() {
    let mods = vec![m("a", 0), m("b", 1), m("c", 2), m("d", 3)];
    let r = generate_modality_combinations(&mods, 2);
    assert_eq!(ids(&r), names(vec![vec!["a", "b"], vec!["a", "c"], vec!["a", "d"]]));
    assert_eq!(r[2][1].level, 3);
    assert_eq!(r[0][0].aspect.icon.as_deref(), Some("*"));
}

#[test]
fn combinations_may_start_at_any_core_modality() {
    let mods = vec![m("a", 0), m("b", 0), m("c", 1), m("d", 2)];
    let r = generate_modality_combinations(&mods, 2);
    assert_eq!(
        ids(&r),
        names(vec![vec!["a", "b"], vec!["a", "c"], vec!["a", "d"], vec!["b", "c"], vec!["b", "d"]])
    );
}

#[test]
fn combinations_core_is_lowest_level_present() {
    let mods = vec![m("x", 3), m("y", 1), m("z", 2), m("w", 1)];
    let r = generate_modality_combinations(&mods, 2);
    assert_eq!(ids(&r), names(vec![vec!["y", "z"], vec!["y", "w"]]));
}

#[test]
fn combinations_edge_cases() {
    let mods = vec![m("a", 0), m("b", 1), m("c", 2)];
    assert_eq!(generate_modality_combinations(&mods, 0).len(), 1);
    assert!(generate_modality_combinations(&mods, 0)[0].is_empty());
    assert_eq!(ids(&generate_modality_combinations(&mods, 3)), names(vec![vec!["a", "b", "c"]]));
    assert!(generate_modality_combinations(&mods, 4).is_empty());
    assert!(generate_modality_combinations(&vec![], 1).is_empty());
    assert_eq!(generate_modality_combinations(&vec![], 0).len(), 1);
}

#[test]
fn combination_count_is_binomial_of_the_rest() {
    let mods: Vec<ModalityAspectWithLevel> = (0..7).map(|i| m(&format!("x{}", i), i)).collect();
    let r = generate_modality_combinations(&mods, 3);
    assert_eq!(r.len(), 15);
    for c in &r {
        assert_eq!(c.len(), 3);
        assert_eq!(c[0].level, 0);
        assert!(c[0].level < c[1].level && c[1].level < c[2].level);
    }
    let mut seen = ids(&r);
    seen.sort();
    seen.dedup();
    assert_eq!(seen.len(), 15);
}

#[test]
fn chain_length_defaults_to_modality_count() {
    assert_eq!(chain_length(None, 4), 4);
    assert_eq!(chain_length(Some(9), 4), 9);
    assert_eq!(chain_length(Some(0), 4), 0);
}

#[test]
fn chain_aspects_cycle() {
    let mods = vec![m("a", 0), m("b", 1), m("c", 2)];
    let order: Vec<String> = (0..7).map(|i| chain_aspect(&mods, i).aspect.id.clone()).collect();
    assert_eq!(order, vec!["a", "b", "c", "a", "b", "c", "a"]);
}

#[test]
fn chains_need_enough_modalities() {
    assert!(can_build_chains(5, 5));
    assert!(can_build_chains(6, 5));
    assert!(!can_build_chains(4, 5));
}

fn stored(id: &str, ch: &str, sub: &str, text: &str, depth: usize) -> Utterance {
    build_utterance(id.to_string(), ch, sub, text, None, depth, None, None)
}

#[test]
fn existing_utterance_needs_all_four_to_match() {
    let us = vec![
        stored("1", "elias", "s1", "Hello", 0),
        stored("2", "elias", "s1", "Hello", 1),
        stored("3", "elias", "s1", "Hello", 1),
        stored("4", "rosa", "s1", "Hello", 1),
    ];
    assert_eq!(find_existing_utterance(&us, "elias", "s1", "Hello", 1).unwrap().id, "2");
    assert_eq!(find_existing_utterance(&us, "rosa", "s1", "Hello", 1).unwrap().id, "4");
    assert!(find_existing_utterance(&us, "rosa", "s1", "Hello", 0).is_none());
    assert!(find_existing_utterance(&us, "elias", "s2", "Hello", 0).is_none());
    assert!(find_existing_utterance(&us, "elias", "s1", "hello", 0).is_none());
    assert!(find_existing_utterance(&vec![], "elias", "s1", "Hello", 0).is_none());
}

#[test]
fn chain_state_links_utterances() {
    let mut state = ChainState::start("The clock stopped.");
    assert_eq!(state.current_message, "The clock stopped.");
    assert_eq!(state.previous_utterance_id, None);
    let first = state.new_utterance(0, "elias", "s1", "The clock... stopped?", Some("nervous"), "emotional:paranoia");
    assert_eq!(first.construction_depth, 0);
    assert_eq!(first.constructed_from, None);
    assert_eq!(first.used_aspect.as_deref(), Some("emotional:paranoia"));
    assert_eq!(first.insight.as_deref(), Some("nervous"));
    state.follow(&first);
    assert_eq!(state.current_message, "The clock... stopped?");
    assert_eq!(state.previous_utterance_id.as_deref(), Some(first.id.as_str()));
    let second = state.new_utterance(1, "elias", "s1", "Who stopped it?", None, "core:fact");
    assert_eq!(second.construction_depth, 1);
    assert_eq!(second.constructed_from.as_deref(), Some(first.id.as_str()));
    let reused = stored("old", "elias", "s1", "Reused text", 2);
    state.follow(&reused);
    assert_eq!(state.current_message, "Reused text");
    assert_eq!(state.previous_utterance_id.as_deref(), Some("old"));
}

use decon_recon_server::chain::{ChainMode, GenerationTally, StepAction, StepOutcome};

#[test]
fn record_step_follows_and_counts() {
    let mut tally = GenerationTally::new();
    let mut state = ChainState::start("f");
    let u = stored("u1", "c", "s", "one", 0);
    assert_eq!(state.record_step(&mut tally, ChainMode::Campaign, &StepOutcome::Saved(u)), StepAction::Continue);
    assert_eq!(state.current_message, "one");
    assert_eq!(state.previous_utterance_id.as_deref(), Some("u1"));
    let r = stored("r1", "c", "s", "two", 1);
    assert_eq!(state.record_step(&mut tally, ChainMode::Campaign, &StepOutcome::Reused(r)), StepAction::Continue);
    assert_eq!(state.previous_utterance_id.as_deref(), Some("r1"));
    assert_eq!((tally.created, tally.reused, tally.total()), (1, 1, 2));
}

#[test]
fn record_step_failed_save_depends_on_mode() {
    let failed = || StepOutcome::SaveFailed(stored("x", "c", "s", "lost", 0));

    let mut tally = GenerationTally::new();
    let mut state = ChainState::start("f");
    assert_eq!(state.record_step(&mut tally, ChainMode::Single, &failed()), StepAction::StopCommand);
    assert_eq!(state.current_message, "f");

    let mut state = ChainState::start("f");
    assert_eq!(state.record_step(&mut tally, ChainMode::AllChains, &failed()), StepAction::Continue);
    assert_eq!(state.current_message, "lost");
    assert_eq!(state.previous_utterance_id.as_deref(), Some("x"));

    let mut state = ChainState::start("f");
    assert_eq!(state.record_step(&mut tally, ChainMode::Campaign, &failed()), StepAction::Continue);
    assert_eq!(state.current_message, "f");
    assert_eq!(state.previous_utterance_id, None);
    assert_eq!((tally.created, tally.reused), (0, 0));
}

#[test]
fn record_step_failed_generation_stops() {
    let mut tally = GenerationTally::new();
    let mut state = ChainState::start("f");
    assert_eq!(state.record_step(&mut tally, ChainMode::Single, &StepOutcome::GenerationFailed), StepAction::StopCommand);
    assert_eq!(state.record_step(&mut tally, ChainMode::AllChains, &StepOutcome::GenerationFailed), StepAction::StopChain);
    assert_eq!(state.record_step(&mut tally, ChainMode::Campaign, &StepOutcome::GenerationFailed), StepAction::StopChain);
    assert_eq!(state.current_message, "f");
}
