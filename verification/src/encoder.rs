//! The JSON encoder, as this library sees it.
use std::collections::BTreeMap;
use vstd::prelude::*;
use crate::json::{in_key_order, sections_view, Section};

verus! {

/// The error type of the JSON encoder.
#[verifier::external_type_specification]
#[verifier::external_body]
pub struct ExJsonError(serde_json::Error);

/// The pretty-printed JSON text that `serde_json` gives for an object of
/// objects of numbers.
pub uninterp spec fn json_pretty(doc: Seq<(Seq<char>, Seq<(Seq<char>, nat)>)>) -> Seq<char>;

/// `serde_json::to_string_pretty`, on a map from string to map from string
/// to number that holds the members of `doc`. Trusted: the encoder
/// succeeds, and the text is the one it gives for these members. It
/// succeeds because it writes to memory, every key is a string and every
/// value an unsigned integer: the only errors on that path are those of
/// the writer, and writing to a byte vector has none.
#[verifier::external_body]
pub(crate) fn encode_pretty(doc: &Vec<Section>) -> (r: Result<String, serde_json::Error>)
    requires
        in_key_order(sections_view(doc@)),
    ensures
        r is Ok,
        r matches Ok(s) ==> s@ == json_pretty(sections_view(doc@)),
{
    let tree: BTreeMap<&str, BTreeMap<&str, usize>> = doc.iter().map(
        |section| (section.key, section.members.iter().map(|m| (m.key, m.value)).collect()),
    ).collect();
    serde_json::to_string_pretty(&tree)
}

} // verus!
