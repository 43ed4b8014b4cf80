use vstd::prelude::*;
use vstd::string::StringExecFns;
use crate::text::str_eq;

verus! {

/// A campaign: the story frame that a deck of characters and substants belongs to.
#[derive(Debug, Clone)]
pub struct Campaign {
    pub id: String,
    pub title: String,
    pub hub_location: String,
    pub description: String,
    pub introduction: String,
    pub resolution: String,
}

/// A character of a campaign, with the modality aspects it prefers.
#[derive(Debug, Clone)]
pub struct Character {
    pub id: String,
    pub name: String,
    pub location: String,
    pub description: String,
    pub preferential_modalities: Vec<String>,
    pub secret: String,
}

/// One layer of the modality tree, with its level and aspects.
#[derive(Debug, Clone)]
pub struct ModalityLayer {
    pub level: u32,
    pub id: String,
    pub name: String,
    pub layman_name: String,
    pub full_description: String,
    pub aspects: Vec<ModalityAspect>,
}

/// One aspect (inflection) of a modality layer.
#[derive(Debug, Clone)]
pub struct ModalityAspect {
    pub id: String,
    pub name: String,
    pub layman_name: String,
    pub description: String,
    pub icon: Option<String>,
}

/// A modality aspect together with the level of the layer it was placed on.
#[derive(Debug, Clone)]
pub struct ModalityAspectWithLevel {
    pub aspect: ModalityAspect,
    pub level: u32,
}

/// A neutral factoid of a campaign that any character can utter.
#[derive(Debug, Clone)]
pub struct Substant {
    pub id: String,
    pub factoid: String,
}

/// A node of a dialogue network.
#[derive(Debug, Clone)]
pub struct DialogueNode {
    pub id: String,
    pub content: String,
    pub embedding_hash: Option<String>,
}

/// What a language model answered to a construction request.
#[derive(Debug, Clone)]
pub struct GenerationResult {
    pub message: String,
    pub insight: Option<String>,
    pub profile_snippet: Option<String>,
}

/// One utterance of a character, built on a substant through a chain of aspects.
#[derive(Debug, Clone)]
pub struct Utterance {
    pub id: String,
    pub character_id: String,
    pub substant_id: String,
    pub utterance: String,
    pub insight: Option<String>,
    pub construction_depth: usize,
    pub constructed_from: Option<String>,
    pub used_aspect: Option<String>,
}

/// The list of utterances as it is stored for a campaign.
#[derive(Debug, Clone)]
pub struct UtterancesWrapper {
    pub utterances: Vec<Utterance>,
}

/// Everything that is known of one campaign.
#[derive(Debug, Clone)]
pub struct CampaignData {
    pub campaign: Campaign,
    pub characters: Vec<Character>,
    pub modalities: Vec<ModalityLayer>,
    pub substants: Vec<Substant>,
}


/// The first character of `characters` whose id is `id`.
pub open spec fn character_with_id(characters: Seq<Character>, id: Seq<char>) -> Option<Character>
    decreases characters.len(),
{
    if characters.len() == 0 {
        None
    } else if characters[0].id@ == id {
        Some(characters[0])
    } else {
        character_with_id(characters.drop_first(), id)
    }
}

/// The first substant of `substants` whose id is `id`.
pub open spec fn substant_with_id(substants: Seq<Substant>, id: Seq<char>) -> Option<Substant>
    decreases substants.len(),
{
    if substants.len() == 0 {
        None
    } else if substants[0].id@ == id {
        Some(substants[0])
    } else {
        substant_with_id(substants.drop_first(), id)
    }
}

/// The first aspect of `aspects` whose id is `id`.
pub open spec fn aspect_with_id(aspects: Seq<ModalityAspect>, id: Seq<char>) -> Option<
    ModalityAspect,
>
    decreases aspects.len(),
{
    if aspects.len() == 0 {
        None
    } else if aspects[0].id@ == id {
        Some(aspects[0])
    } else {
        aspect_with_id(aspects.drop_first(), id)
    }
}

/// The aspect with id `id` of the first layer, in the order of `layers`, that has
/// one.
pub open spec fn aspect_in_layers(layers: Seq<ModalityLayer>, id: Seq<char>) -> Option<
    ModalityAspect,
>
    decreases layers.len(),
{
    if layers.len() == 0 {
        None
    } else {
        match aspect_with_id(layers[0].aspects@, id) {
            Some(a) => Some(a),
            None => aspect_in_layers(layers.drop_first(), id),
        }
    }
}

/// The context line that describes an aspect to the language model.
pub open spec fn context_line(aspect: ModalityAspect) -> Seq<char> {
    "Modality Layer: "@ + aspect.id@ + " - "@ + aspect.description@
}

/// The context of the aspect with id `id`: its context line, or nothing where no
/// layer has such an aspect.
pub open spec fn modality_context(layers: Seq<ModalityLayer>, id: Seq<char>) -> Seq<char> {
    match aspect_in_layers(layers, id) {
        Some(a) => context_line(a),
        None => Seq::empty(),
    }
}

/// A character found by id has that id and is one of the characters.
pub proof fn lemma_character_with_id_matches(characters: Seq<Character>, id: Seq<char>)
    ensures
        character_with_id(characters, id) matches Some(c) ==> c.id@ == id && characters.contains(c),
        character_with_id(characters, id) is None ==> forall|i: int|
            0 <= i < characters.len() ==> #[trigger] characters[i].id@ != id,
    decreases characters.len(),
{
    if characters.len() > 0 && characters[0].id@ != id {
        let rest = characters.drop_first();
        lemma_character_with_id_matches(rest, id);
        if let Some(c) = character_with_id(characters, id) {
            let j = choose|j: int| 0 <= j < rest.len() && rest[j] == c;
            assert(characters[j + 1] == c);
        }
        assert forall|i: int| 0 <= i < characters.len() && character_with_id(characters, id) is None
            implies #[trigger] characters[i].id@ != id by {
            if i > 0 {
                assert(characters[i] == rest[i - 1]);
            }
        }
    } else if characters.len() > 0 {
        assert(characters.contains(characters[0]));
    }
}

proof fn lemma_aspect_with_id_matches(aspects: Seq<ModalityAspect>, id: Seq<char>)
    ensures
        aspect_with_id(aspects, id) matches Some(a) ==> a.id@ == id && aspects.contains(a),
        aspect_with_id(aspects, id) is None ==> forall|i: int|
            0 <= i < aspects.len() ==> #[trigger] aspects[i].id@ != id,
    decreases aspects.len(),
{
    if aspects.len() > 0 && aspects[0].id@ != id {
        let rest = aspects.drop_first();
        lemma_aspect_with_id_matches(rest, id);
        if let Some(a) = aspect_with_id(aspects, id) {
            let j = choose|j: int| 0 <= j < rest.len() && rest[j] == a;
            assert(aspects[j + 1] == a);
        }
        assert forall|i: int| 0 <= i < aspects.len() && aspect_with_id(aspects, id) is None
            implies #[trigger] aspects[i].id@ != id by {
            if i > 0 {
                assert(aspects[i] == rest[i - 1]);
            }
        }
    } else if aspects.len() > 0 {
        assert(aspects.contains(aspects[0]));
    }
}

/// An aspect found by id has that id and belongs to one of the layers; where
/// none is found, no layer has an aspect with that id.
pub proof fn lemma_aspect_in_layers_matches(layers: Seq<ModalityLayer>, id: Seq<char>)
    ensures
        aspect_in_layers(layers, id) matches Some(a) ==> a.id@ == id && exists|i: int|
            0 <= i < layers.len() && (#[trigger] layers[i]).aspects@.contains(a),
        aspect_in_layers(layers, id) is None ==> forall|i: int, j: int|
            0 <= i < layers.len() && 0 <= j < layers[i].aspects@.len() ==> (
            #[trigger] layers[i].aspects@[j]).id@ != id,
    decreases layers.len(),
{
    if layers.len() > 0 {
        let rest = layers.drop_first();
        lemma_aspect_with_id_matches(layers[0].aspects@, id);
        lemma_aspect_in_layers_matches(rest, id);
        match aspect_with_id(layers[0].aspects@, id) {
            Some(a) => {
                assert(layers[0].aspects@.contains(a));
            },
            None => {
                if let Some(a) = aspect_in_layers(layers, id) {
                    let i = choose|i: int| 0 <= i < rest.len() && (#[trigger] rest[i]).aspects@.contains(a);
                    assert(layers[i + 1] == rest[i]);
                }
                assert forall|i: int, j: int|
                    0 <= i < layers.len() && 0 <= j < layers[i].aspects@.len()
                        && aspect_in_layers(layers, id) is None implies (
                #[trigger] layers[i].aspects@[j]).id@ != id by {
                    if i > 0 {
                        assert(layers[i] == rest[i - 1]);
                    }
                }
            },
        }
    }
}

/// The context of an aspect id is empty exactly where no layer has an aspect
/// with that id.
pub proof fn lemma_context_empty_iff_unknown(layers: Seq<ModalityLayer>, id: Seq<char>)
    ensures
        (modality_context(layers, id).len() == 0) == (aspect_in_layers(layers, id) is None),
{
    reveal_strlit("Modality Layer: ");
}

/// The lookup finds the first entry with the id asked for: where some entry has
/// that id the result is the earliest such entry, and only where none has it is
/// there no result.
pub proof fn lemma_aspect_with_id_is_first(aspects: Seq<ModalityAspect>, id: Seq<char>)
    ensures
        aspect_with_id(aspects, id) matches Some(x) ==> x.id@ == id && exists|i: int|
            0 <= i < aspects.len() && #[trigger] aspects[i] == x && forall|j: int|
                0 <= j < i ==> (#[trigger] aspects[j]).id@ != id,
        (aspect_with_id(aspects, id) is None) == (forall|i: int|
            0 <= i < aspects.len() ==> (#[trigger] aspects[i]).id@ != id),
    decreases aspects.len(),
{
    if aspects.len() > 0 {
        let rest = aspects.drop_first();
        lemma_aspect_with_id_is_first(rest, id);
        if aspects[0].id@ == id {
            assert(aspects[0] == aspects[0]);
        } else {
            if let Some(x) = aspect_with_id(aspects, id) {
                let i = choose|i: int|
                    0 <= i < rest.len() && #[trigger] rest[i] == x && forall|j: int|
                        0 <= j < i ==> (#[trigger] rest[j]).id@ != id;
                assert(aspects[i + 1] == x);
                assert forall|j: int| 0 <= j < i + 1 implies (#[trigger] aspects[j]).id@ != id by {
                    if j > 0 {
                        assert(aspects[j] == rest[j - 1]);
                    }
                }
            }
            if forall|i: int| 0 <= i < rest.len() ==> (#[trigger] rest[i]).id@ != id {
                assert forall|i: int| 0 <= i < aspects.len() implies (#[trigger] aspects[i]).id@ != id by {
                    if i > 0 {
                        assert(aspects[i] == rest[i - 1]);
                    }
                }
            } else {
                let i = choose|i: int| 0 <= i < rest.len() && (#[trigger] rest[i]).id@ == id;
                assert(aspects[i + 1] == rest[i]);
            }
        }
    }
}

/// The aspect lookup finds the first aspect with the id asked for, searching the
/// layers in order and each layer's aspects in order: where some layer has such
/// an aspect the result is the earliest one, and only where none has is there no
/// result.
pub proof fn lemma_aspect_in_layers_is_first(layers: Seq<ModalityLayer>, id: Seq<char>)
    ensures
        aspect_in_layers(layers, id) matches Some(a) ==> a.id@ == id && exists|li: int, ai: int|
            0 <= li < layers.len() && 0 <= ai < layers[li].aspects@.len()
                && #[trigger] layers[li].aspects@[ai] == a && (forall|l: int, j: int|
                0 <= l < li && 0 <= j < layers[l].aspects@.len() ==> (
                #[trigger] layers[l].aspects@[j]).id@ != id) && (forall|j: int|
                0 <= j < ai ==> (#[trigger] layers[li].aspects@[j]).id@ != id),
        (aspect_in_layers(layers, id) is None) == (forall|l: int, j: int|
            0 <= l < layers.len() && 0 <= j < layers[l].aspects@.len() ==> (
            #[trigger] layers[l].aspects@[j]).id@ != id),
    decreases layers.len(),
{
    if layers.len() > 0 {
        let rest = layers.drop_first();
        let first = layers[0].aspects@;
        lemma_aspect_with_id_is_first(first, id);
        lemma_aspect_in_layers_is_first(rest, id);
        match aspect_with_id(first, id) {
            Some(a) => {
                let ai = choose|i: int|
                    0 <= i < first.len() && #[trigger] first[i] == a && forall|j: int|
                        0 <= j < i ==> (#[trigger] first[j]).id@ != id;
                assert(layers[0].aspects@[ai] == a);
                assert forall|j: int| 0 <= j < ai implies (#[trigger] layers[0].aspects@[j]).id@
                    != id by {
                    assert(first[j] == layers[0].aspects@[j]);
                }
                assert(layers[0].aspects@.contains(a));
            },
            None => {
                if let Some(a) = aspect_in_layers(layers, id) {
                    let (li, ai) = choose|li: int, ai: int|
                        0 <= li < rest.len() && 0 <= ai < rest[li].aspects@.len()
                            && #[trigger] rest[li].aspects@[ai] == a && (forall|l: int, j: int|
                            0 <= l < li && 0 <= j < rest[l].aspects@.len() ==> (
                            #[trigger] rest[l].aspects@[j]).id@ != id) && (forall|j: int|
                            0 <= j < ai ==> (#[trigger] rest[li].aspects@[j]).id@ != id);
                    assert(layers[li + 1] == rest[li]);
                    assert(layers[li + 1].aspects@[ai] == a);
                    assert forall|l: int, j: int|
                        0 <= l < li + 1 && 0 <= j < layers[l].aspects@.len() implies (
                    #[trigger] layers[l].aspects@[j]).id@ != id by {
                        if l > 0 {
                            assert(layers[l] == rest[l - 1]);
                            assert(rest[l - 1].aspects@[j] == layers[l].aspects@[j]);
                        } else {
                            assert(first[j] == layers[0].aspects@[j]);
                        }
                    }
                    assert forall|j: int| 0 <= j < ai implies (#[trigger] layers[li
                        + 1].aspects@[j]).id@ != id by {
                        assert(rest[li].aspects@[j] == layers[li + 1].aspects@[j]);
                    }
                }
                if forall|l: int, j: int|
                    0 <= l < rest.len() && 0 <= j < rest[l].aspects@.len() ==> (
                    #[trigger] rest[l].aspects@[j]).id@ != id {
                    assert forall|l: int, j: int|
                        0 <= l < layers.len() && 0 <= j < layers[l].aspects@.len() implies (
                    #[trigger] layers[l].aspects@[j]).id@ != id by {
                        if l > 0 {
                            assert(layers[l] == rest[l - 1]);
                            assert(rest[l - 1].aspects@[j] == layers[l].aspects@[j]);
                        } else {
                            assert(first[j] == layers[0].aspects@[j]);
                        }
                    }
                } else {
                    let (l, j) = choose|l: int, j: int|
                        0 <= l < rest.len() && 0 <= j < rest[l].aspects@.len() && (
                        #[trigger] rest[l].aspects@[j]).id@ == id;
                    assert(layers[l + 1] == rest[l]);
                    assert(layers[l + 1].aspects@[j] == rest[l].aspects@[j]);
                }
            },
        }
    }
}

/// The lookup finds the first entry with the id asked for: where some entry has
/// that id the result is the earliest such entry, and only where none has it is
/// there no result.
pub proof fn lemma_character_with_id_is_first(characters: Seq<Character>, id: Seq<char>)
    ensures
        character_with_id(characters, id) matches Some(x) ==> x.id@ == id && exists|i: int|
            0 <= i < characters.len() && #[trigger] characters[i] == x && forall|j: int|
                0 <= j < i ==> (#[trigger] characters[j]).id@ != id,
        (character_with_id(characters, id) is None) == (forall|i: int|
            0 <= i < characters.len() ==> (#[trigger] characters[i]).id@ != id),
    decreases characters.len(),
{
    if characters.len() > 0 {
        let rest = characters.drop_first();
        lemma_character_with_id_is_first(rest, id);
        if characters[0].id@ == id {
            assert(characters[0] == characters[0]);
        } else {
            if let Some(x) = character_with_id(characters, id) {
                let i = choose|i: int|
                    0 <= i < rest.len() && #[trigger] rest[i] == x && forall|j: int|
                        0 <= j < i ==> (#[trigger] rest[j]).id@ != id;
                assert(characters[i + 1] == x);
                assert forall|j: int| 0 <= j < i + 1 implies (#[trigger] characters[j]).id@ != id by {
                    if j > 0 {
                        assert(characters[j] == rest[j - 1]);
                    }
                }
            }
            if forall|i: int| 0 <= i < rest.len() ==> (#[trigger] rest[i]).id@ != id {
                assert forall|i: int| 0 <= i < characters.len() implies (#[trigger] characters[i]).id@ != id by {
                    if i > 0 {
                        assert(characters[i] == rest[i - 1]);
                    }
                }
            } else {
                let i = choose|i: int| 0 <= i < rest.len() && (#[trigger] rest[i]).id@ == id;
                assert(characters[i + 1] == rest[i]);
            }
        }
    }
}

/// The lookup finds the first entry with the id asked for: where some entry has
/// that id the result is the earliest such entry, and only where none has it is
/// there no result.
pub proof fn lemma_substant_with_id_is_first(substants: Seq<Substant>, id: Seq<char>)
    ensures
        substant_with_id(substants, id) matches Some(x) ==> x.id@ == id && exists|i: int|
            0 <= i < substants.len() && #[trigger] substants[i] == x && forall|j: int|
                0 <= j < i ==> (#[trigger] substants[j]).id@ != id,
        (substant_with_id(substants, id) is None) == (forall|i: int|
            0 <= i < substants.len() ==> (#[trigger] substants[i]).id@ != id),
    decreases substants.len(),
{
    if substants.len() > 0 {
        let rest = substants.drop_first();
        lemma_substant_with_id_is_first(rest, id);
        if substants[0].id@ == id {
            assert(substants[0] == substants[0]);
        } else {
            if let Some(x) = substant_with_id(substants, id) {
                let i = choose|i: int|
                    0 <= i < rest.len() && #[trigger] rest[i] == x && forall|j: int|
                        0 <= j < i ==> (#[trigger] rest[j]).id@ != id;
                assert(substants[i + 1] == x);
                assert forall|j: int| 0 <= j < i + 1 implies (#[trigger] substants[j]).id@ != id by {
                    if j > 0 {
                        assert(substants[j] == rest[j - 1]);
                    }
                }
            }
            if forall|i: int| 0 <= i < rest.len() ==> (#[trigger] rest[i]).id@ != id {
                assert forall|i: int| 0 <= i < substants.len() implies (#[trigger] substants[i]).id@ != id by {
                    if i > 0 {
                        assert(substants[i] == rest[i - 1]);
                    }
                }
            } else {
                let i = choose|i: int| 0 <= i < rest.len() && (#[trigger] rest[i]).id@ == id;
                assert(substants[i + 1] == rest[i]);
            }
        }
    }
}

impl ModalityAspect {
    /// A field-by-field copy of the aspect.
    pub fn duplicate(&self) -> (r: ModalityAspect)
        ensures
            r == *self,
    {
        let icon = match &self.icon {
            Some(i) => Some(i.clone()),
            None => None,
        };
        ModalityAspect {
            id: self.id.clone(),
            name: self.name.clone(),
            layman_name: self.layman_name.clone(),
            description: self.description.clone(),
            icon,
        }
    }
}

impl ModalityAspectWithLevel {
    /// A field-by-field copy.
    pub fn duplicate(&self) -> (r: ModalityAspectWithLevel)
        ensures
            r == *self,
    {
        ModalityAspectWithLevel { aspect: self.aspect.duplicate(), level: self.level }
    }
}

impl CampaignData {
    /// The first character whose id is `character_id`.
    pub fn find_character(&self, character_id: &str) -> (r: Option<&Character>)
        ensures
            match r {
                Some(c) => character_with_id(self.characters@, character_id@) == Some(*c),
                None => character_with_id(self.characters@, character_id@) is None,
            },
            match r {
                Some(x) => x.id@ == character_id@ && exists|i: int|
                    0 <= i < self.characters@.len() && #[trigger] self.characters@[i] == *x && forall|j: int|
                        0 <= j < i ==> (#[trigger] self.characters@[j]).id@ != character_id@,
                None => forall|i: int|
                    0 <= i < self.characters@.len() ==> (#[trigger] self.characters@[i]).id@ != character_id@,
            },
    {
        proof {
            lemma_character_with_id_is_first(self.characters@, character_id@);
        }
        let n = self.characters.len();
        let mut i: usize = 0;
        proof {
            assert(self.characters@.skip(0) =~= self.characters@);
        }
        while i < n
            invariant
                i <= n,
                n == self.characters@.len(),
                character_with_id(self.characters@, character_id@) == character_with_id(
                    self.characters@.skip(i as int),
                    character_id@,
                ),
            decreases n - i,
        {
            proof {
                assert(self.characters@.skip(i as int).drop_first() =~= self.characters@.skip(
                    i + 1,
                ));
            }
            if str_eq(self.characters[i].id.as_str(), character_id) {
                proof {
                    lemma_character_with_id_is_first(self.characters@, character_id@);
                }
                return Some(&self.characters[i]);
            }
            i = i + 1;
        }
        None
    }

    /// The first substant whose id is `substant_id`.
    pub fn find_substant(&self, substant_id: &str) -> (r: Option<&Substant>)
        ensures
            match r {
                Some(x) => substant_with_id(self.substants@, substant_id@) == Some(*x),
                None => substant_with_id(self.substants@, substant_id@) is None,
            },
            match r {
                Some(x) => x.id@ == substant_id@ && exists|i: int|
                    0 <= i < self.substants@.len() && #[trigger] self.substants@[i] == *x && forall|j: int|
                        0 <= j < i ==> (#[trigger] self.substants@[j]).id@ != substant_id@,
                None => forall|i: int|
                    0 <= i < self.substants@.len() ==> (#[trigger] self.substants@[i]).id@ != substant_id@,
            },
    {
        proof {
            lemma_substant_with_id_is_first(self.substants@, substant_id@);
        }
        let n = self.substants.len();
        let mut i: usize = 0;
        proof {
            assert(self.substants@.skip(0) =~= self.substants@);
        }
        while i < n
            invariant
                i <= n,
                n == self.substants@.len(),
                substant_with_id(self.substants@, substant_id@) == substant_with_id(
                    self.substants@.skip(i as int),
                    substant_id@,
                ),
            decreases n - i,
        {
            proof {
                assert(self.substants@.skip(i as int).drop_first() =~= self.substants@.skip(i + 1));
            }
            if str_eq(self.substants[i].id.as_str(), substant_id) {
                proof {
                    lemma_substant_with_id_is_first(self.substants@, substant_id@);
                }
                return Some(&self.substants[i]);
            }
            i = i + 1;
        }
        None
    }

    /// The aspect with id `aspect_id` of the first modality layer that has one.
    pub fn find_modality_aspect(&self, aspect_id: &str) -> (r: Option<&ModalityAspect>)
        ensures
            match r {
                Some(a) => aspect_in_layers(self.modalities@, aspect_id@) == Some(*a),
                None => aspect_in_layers(self.modalities@, aspect_id@) is None,
            },
            match r {
                Some(a) => a.id@ == aspect_id@ && exists|li: int, ai: int|
                    0 <= li < self.modalities@.len() && 0 <= ai < self.modalities@[li].aspects@.len()
                        && #[trigger] self.modalities@[li].aspects@[ai] == *a && (forall|l: int, j: int|
                        0 <= l < li && 0 <= j < self.modalities@[l].aspects@.len() ==> (
                        #[trigger] self.modalities@[l].aspects@[j]).id@ != aspect_id@) && (forall|
                        j: int,
                    |
                        0 <= j < ai ==> (#[trigger] self.modalities@[li].aspects@[j]).id@
                            != aspect_id@),
                None => forall|l: int, j: int|
                    0 <= l < self.modalities@.len() && 0 <= j < self.modalities@[l].aspects@.len()
                        ==> (#[trigger] self.modalities@[l].aspects@[j]).id@ != aspect_id@,
            },
    {
        proof {
            lemma_aspect_in_layers_is_first(self.modalities@, aspect_id@);
        }
        let n = self.modalities.len();
        let mut i: usize = 0;
        proof {
            assert(self.modalities@.skip(0) =~= self.modalities@);
        }
        while i < n
            invariant
                i <= n,
                n == self.modalities@.len(),
                aspect_in_layers(self.modalities@, aspect_id@) == aspect_in_layers(
                    self.modalities@.skip(i as int),
                    aspect_id@,
                ),
            decreases n - i,
        {
            proof {
                assert(self.modalities@.skip(i as int).drop_first() =~= self.modalities@.skip(
                    i + 1,
                ));
            }
            let layer = &self.modalities[i];
            let m = layer.aspects.len();
            let mut j: usize = 0;
            proof {
                assert(layer.aspects@.skip(0) =~= layer.aspects@);
            }
            while j < m
                invariant
                    j <= m,
                    i < n,
                    n == self.modalities@.len(),
                    *layer == self.modalities@[i as int],
                    self.modalities@.skip(i as int).drop_first() == self.modalities@.skip(i + 1),
                    aspect_in_layers(self.modalities@, aspect_id@) == aspect_in_layers(
                        self.modalities@.skip(i as int),
                        aspect_id@,
                    ),
                    m == layer.aspects@.len(),
                    aspect_with_id(layer.aspects@, aspect_id@) == aspect_with_id(
                        layer.aspects@.skip(j as int),
                        aspect_id@,
                    ),
                decreases m - j,
            {
                proof {
                    assert(layer.aspects@.skip(j as int).drop_first() =~= layer.aspects@.skip(
                        j + 1,
                    ));
                }
                if str_eq(layer.aspects[j].id.as_str(), aspect_id) {
                    proof {
                        lemma_aspect_in_layers_is_first(self.modalities@, aspect_id@);
                    }
                    return Some(&layer.aspects[j]);
                }
                j = j + 1;
            }
            proof {
                assert(layer.aspects@.skip(m as int) =~= Seq::<ModalityAspect>::empty());
            }
            i = i + 1;
        }
        None
    }

    /// The context line of the aspect with id `aspect_id`, or an empty string where
    /// no layer has such an aspect.
    pub fn get_modality_context(&self, aspect_id: &str) -> (r: String)
        ensures
            r@ == modality_context(self.modalities@, aspect_id@),
            match aspect_in_layers(self.modalities@, aspect_id@) {
                Some(a) => r@ == "Modality Layer: "@ + a.id@ + " - "@ + a.description@,
                None => r@.len() == 0,
            },
    {
        match self.find_modality_aspect(aspect_id) {
            Some(aspect) => {
                let mut line = String::from_str("Modality Layer: ");
                line.append(aspect.id.as_str());
                line.append(" - ");
                line.append(aspect.description.as_str());
                line
            },
            None => String::new(),
        }
    }
}

} // verus!
