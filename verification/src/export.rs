use vstd::prelude::*;
use crate::reply::opt_string_view;

verus! {

/// An utterance as it is exported for the game client, read from a stored
/// record whose fields may be missing.
pub struct ExportedUtterance {
    pub id: String,
    pub character_id: String,
    pub substant_id: String,
    pub utterance: String,
    pub insight: Option<String>,
    pub construction_depth: Option<u32>,
    pub used_aspect: Option<String>,
    pub constructed_from: Option<String>,
}

/// The characters of an optional text field, or nothing where it is missing.
pub open spec fn text_or_empty(o: Option<String>) -> Seq<char> {
    match o {
        Some(s) => s@,
        None => Seq::empty(),
    }
}

fn opt_clone(o: &Option<String>) -> (r: Option<String>)
    ensures
        opt_string_view(r) == opt_string_view(*o),
{
    match o {
        Some(s) => Some(s.clone()),
        None => None,
    }
}

fn or_empty(o: Option<String>) -> (r: String)
    ensures
        r@ == text_or_empty(o),
{
    match o {
        Some(s) => s,
        None => String::new(),
    }
}

/// The fields of a stored utterance record as the exporter reads them: id,
/// character, substant, text and insight where they are strings, the depth where
/// it is an integer, the aspect used and the utterance built on, where strings.
pub type RecordFields = (
    Option<Seq<char>>,
    Option<Seq<char>>,
    Option<Seq<char>>,
    Option<Seq<char>>,
    Option<Seq<char>>,
    Option<i64>,
    Option<Seq<char>>,
    Option<Seq<char>>,
);

/// A stored utterance record as read from the utterance file, each field where
/// it held a value of the expected kind.
pub struct UtteranceRecord {
    pub id: Option<String>,
    pub character_id: Option<String>,
    pub substant_id: Option<String>,
    pub utterance: Option<String>,
    pub insight: Option<String>,
    pub construction_depth: Option<i64>,
    pub used_aspect: Option<String>,
    pub constructed_from: Option<String>,
}

impl View for UtteranceRecord {
    type V = RecordFields;

    open spec fn view(&self) -> RecordFields {
        (
            opt_string_view(self.id),
            opt_string_view(self.character_id),
            opt_string_view(self.substant_id),
            opt_string_view(self.utterance),
            opt_string_view(self.insight),
            self.construction_depth,
            opt_string_view(self.used_aspect),
            opt_string_view(self.constructed_from),
        )
    }
}

/// The view of what reading an utterance file gives: the error message, or the
/// records of its `utterances` array where it has one.
pub open spec fn records_view(r: Result<Option<Vec<UtteranceRecord>>, String>) -> Result<
    Option<Seq<RecordFields>>,
    Seq<char>,
> {
    match r {
        Err(m) => Err(m@),
        Ok(None) => Ok(None),
        Ok(Some(v)) => Ok(Some(v@.map_values(|x: UtteranceRecord| x@))),
    }
}

/// What the `toml` crate makes of the text of an utterance file: the message of
/// its parse error, or the fields of each entry of the document's `utterances`
/// array, where the document has such an array.
pub uninterp spec fn toml_utterance_records(text: Seq<char>) -> Result<
    Option<Seq<RecordFields>>,
    Seq<char>,
>;

/// Parses `text` as a `toml::Value` (`str::parse`); on error gives the error's
/// text (`to_string`); otherwise reads the document's `utterances` entry with
/// `Value::get` and `Value::as_array`, and of each of its entries the fields
/// with `get`, `as_str` and `as_integer`. The contract names the outcome
/// (`toml_utterance_records`), which depends on `text` alone.
#[verifier::external_body]
fn parse_utterance_records(text: &str) -> (r: Result<Option<Vec<UtteranceRecord>>, String>)
    ensures
        records_view(r) == toml_utterance_records(text@),
{
    let value = text.parse::<toml::Value>().map_err(|e| e.to_string())?;
    let s = |t: &toml::Value, k: &str| t.get(k).and_then(toml::Value::as_str).map(String::from);
    Ok(value.get("utterances").and_then(toml::Value::as_array).map(|items| {
        items.iter().map(|t| UtteranceRecord {
            id: s(t, "id"), character_id: s(t, "character_id"), substant_id: s(t, "substant_id"),
            utterance: s(t, "utterance"), insight: s(t, "insight"),
            construction_depth: t.get("construction_depth").and_then(toml::Value::as_integer),
            used_aspect: s(t, "used_aspect"), constructed_from: s(t, "constructed_from"),
        }).collect()
    }))
}

/// Whether `e` is the exported form of a record with the fields `f`: a missing
/// id, character, substant or text becomes empty; the depth is cut to 32 bits;
/// the other fields stay missing where they are.
pub open spec fn exports(e: ExportedUtterance, f: RecordFields) -> bool {
    &&& e.id@ == text_or_empty_view(f.0)
    &&& e.character_id@ == text_or_empty_view(f.1)
    &&& e.substant_id@ == text_or_empty_view(f.2)
    &&& e.utterance@ == text_or_empty_view(f.3)
    &&& opt_string_view(e.insight) == f.4
    &&& e.construction_depth == (match f.5 {
        Some(n) => Some(n as u32),
        None => None,
    })
    &&& opt_string_view(e.used_aspect) == f.6
    &&& opt_string_view(e.constructed_from) == f.7
}

/// An exported utterance carries the record's fields: id, character, substant
/// and text as the record holds them (empty only where missing), the other text
/// fields unchanged, the depth cut to 32 bits.
pub proof fn lemma_export_keeps_fields(e: ExportedUtterance, f: RecordFields)
    requires
        exports(e, f),
    ensures
        e.id@ == (match f.0 { Some(s) => s, None => Seq::<char>::empty() }),
        e.character_id@ == (match f.1 { Some(s) => s, None => Seq::<char>::empty() }),
        e.substant_id@ == (match f.2 { Some(s) => s, None => Seq::<char>::empty() }),
        e.utterance@ == (match f.3 { Some(s) => s, None => Seq::<char>::empty() }),
        f.2 matches Some(s) ==> e.substant_id@ == s,
        f.1 matches Some(s) ==> e.character_id@ == s,
        f.0 matches Some(s) ==> e.id@ == s,
        f.3 matches Some(s) ==> e.utterance@ == s,
        (e.insight matches Some(x) && f.4 == Some(x@)) || (e.insight is None && f.4 is None),
        (e.used_aspect matches Some(x) && f.6 == Some(x@)) || (e.used_aspect is None && f.6 is None),
        (e.constructed_from matches Some(x) && f.7 == Some(x@)) || (e.constructed_from is None
            && f.7 is None),
        e.construction_depth == (match f.5 {
            Some(n) => Some(n as u32),
            None => None,
        }),
{
}

/// The characters of an optional text, or nothing where it is missing.
pub open spec fn text_or_empty_view(o: Option<Seq<char>>) -> Seq<char> {
    match o {
        Some(s) => s,
        None => Seq::empty(),
    }
}

/// Whether `r` is the export of the read outcome `read`: the error message where
/// reading failed, no utterances where the file has no `utterances` array, and
/// otherwise one exported utterance per record, in order.
pub open spec fn exported_from(
    r: Result<Vec<ExportedUtterance>, String>,
    read: Result<Option<Seq<RecordFields>>, Seq<char>>,
) -> bool {
    match read {
        Err(m) => r matches Err(e) && e@ == m,
        Ok(None) => r matches Ok(v) && v@.len() == 0,
        Ok(Some(fs)) => r matches Ok(v) && v@.len() == fs.len() && forall|i: int|
            0 <= i < fs.len() ==> exports(#[trigger] v@[i], fs[i]),
    }
}

/// The exported utterances of what reading an utterance file gave (see
/// `exported_from`).
pub fn exported_from_records(records: Result<Option<Vec<UtteranceRecord>>, String>) -> (r: Result<
    Vec<ExportedUtterance>,
    String,
>)
    ensures
        exported_from(r, records_view(records)),
        records matches Err(m) ==> (r matches Err(e) && e@ == m@),
        records matches Ok(None) ==> (r matches Ok(v) && v@.len() == 0),
        records matches Ok(Some(recs)) ==> (r matches Ok(v) && v@.len() == recs@.len()
            && forall|i: int|
            0 <= i < v@.len() ==> exports(#[trigger] v@[i], recs@[i]@)),
{
    match records {
        Err(m) => Err(m),
        Ok(None) => Ok(Vec::new()),
        Ok(Some(records)) => {
            let mut out: Vec<ExportedUtterance> = Vec::new();
            let n = records.len();
            for i in 0..n
                invariant
                    n == records@.len(),
                    out@.len() == i,
                    forall|j: int|
                        0 <= j < i ==> exports(#[trigger] out@[j], records@[j]@),
            {
                let rec = &records[i];
                let e = ExportedUtterance::from_fields(
                    opt_clone(&rec.id),
                    opt_clone(&rec.character_id),
                    opt_clone(&rec.substant_id),
                    opt_clone(&rec.utterance),
                    opt_clone(&rec.insight),
                    rec.construction_depth,
                    opt_clone(&rec.used_aspect),
                    opt_clone(&rec.constructed_from),
                );
                out.push(e);
            }
            proof {
                let fs = records@.map_values(|x: UtteranceRecord| x@);
                assert forall|j: int| 0 <= j < fs.len() implies exports(#[trigger] out@[j], fs[j]) by {
                    assert(fs[j] == records@[j]@);
                }
            }
            Ok(out)
        },
    }
}

/// The exported utterances of the text of an utterance file: none for an empty
/// text; otherwise, as `exported_from` says of what the `toml` crate reads from
/// it: the parse error's message, no utterances where there is no `utterances`
/// array, or one exported utterance per entry.
pub fn exported_utterances(text: &str) -> (r: Result<Vec<ExportedUtterance>, String>)
    ensures
        text@.len() == 0 ==> (r matches Ok(v) && v@.len() == 0),
        text@.len() != 0 ==> exported_from(r, toml_utterance_records(text@)),
{
    if text.is_empty() {
        return Ok(Vec::new());
    }
    exported_from_records(parse_utterance_records(text))
}

impl ExportedUtterance {
    /// The exported form of a stored utterance record, given the fields that it
    /// holds as strings (and its depth where it holds an integer): a missing id,
    /// character, substant or text becomes empty; the depth is cut to 32 bits;
    /// the other fields stay missing where they are.
    pub fn from_fields(
        id: Option<String>,
        character_id: Option<String>,
        substant_id: Option<String>,
        utterance: Option<String>,
        insight: Option<String>,
        construction_depth: Option<i64>,
        used_aspect: Option<String>,
        constructed_from: Option<String>,
    ) -> (r: ExportedUtterance)
        ensures
            exports(
                r,
                (
                    opt_string_view(id),
                    opt_string_view(character_id),
                    opt_string_view(substant_id),
                    opt_string_view(utterance),
                    opt_string_view(insight),
                    construction_depth,
                    opt_string_view(used_aspect),
                    opt_string_view(constructed_from),
                ),
            ),
            r.id@ == (match id { Some(s) => s@, None => Seq::<char>::empty() }),
            r.character_id@ == (match character_id { Some(s) => s@, None => Seq::<char>::empty() }),
            r.substant_id@ == (match substant_id { Some(s) => s@, None => Seq::<char>::empty() }),
            r.utterance@ == (match utterance { Some(s) => s@, None => Seq::<char>::empty() }),
            r.insight matches Some(x) ==> insight matches Some(y) && x@ == y@,
            r.insight is None ==> insight is None,
            r.construction_depth == (match construction_depth {
                Some(n) => Some(n as u32),
                None => None,
            }),
            r.used_aspect matches Some(x) ==> used_aspect matches Some(y) && x@ == y@,
            r.used_aspect is None ==> used_aspect is None,
            r.constructed_from matches Some(x) ==> constructed_from matches Some(y) && x@ == y@,
            r.constructed_from is None ==> constructed_from is None,
    {
        let depth: Option<u32> = match construction_depth {
            Some(n) => Some(n as u32),
            None => None,
        };
        ExportedUtterance {
            id: or_empty(id),
            character_id: or_empty(character_id),
            substant_id: or_empty(substant_id),
            utterance: or_empty(utterance),
            insight,
            construction_depth: depth,
            used_aspect,
            constructed_from,
        }
    }
}

} // verus!
