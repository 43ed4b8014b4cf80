//! Campaign data, prompt construction and utterance-chain planning for the
//! Decon-Recon dialogue generator.
//!
//! The library holds the game's data model (campaigns, characters, modality
//! layers and their aspects, substants and utterances) and the logic that works
//! on it: lookups, ordering of a character's preferred modality aspects by
//! layer level, building the prompts handed to a language model, reading the
//! model's reply, and planning the chains of utterances that are generated.
//! Reading files, talking to the model over the network and the command line
//! live in the program around the library.

pub mod models;
pub mod error;
pub mod text;
pub mod campaign;
pub mod prompts;
pub mod reply;
pub mod chain;
pub mod llm;
pub mod generator;
pub mod export;
