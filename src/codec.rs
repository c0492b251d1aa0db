//! The text form of the rule store: a YAML mapping from family key to a list
//! of rules, each rule a list of field strings.

use std::collections::BTreeMap;
use vstd::prelude::*;
use vstd::string::StringSliceAdditionalSpecFns;
use crate::models::{Family, Policies, StoreView};

verus! {

/// The YAML text that serde_yaml writes for a store.
pub uninterp spec fn yaml_text_of(m: StoreView) -> Seq<char>;

/// The store that serde_yaml reads from a text, where it reads one.
pub uninterp spec fn yaml_store_of(text: Seq<char>) -> Option<StoreView>;

#[verifier::external_type_specification]
#[verifier::external_body]
pub struct ExYamlError(serde_yaml::Error);

/// What can go wrong in the library's own part of loading and saving.
#[derive(PartialEq, Eq, Structural, Clone, Copy, Debug)]
pub enum AdapterError {
    /// The text is not a mapping from family key to a list of lists of strings.
    Decode,
    /// A save was asked for without a file to save to.
    Configuration,
    /// A family key is empty, so it names no section.
    InvalidFamilyKey,
}

/// Relies on serde_yaml::to_string on a `BTreeMap` from family key to rules:
/// it fails only where a `Serialize` impl of the value fails, which those of
/// `BTreeMap`, `Vec` and `String` never do; the text depends on that map
/// alone, since the map is walked in key order.
#[verifier::external_body]
fn yaml_to_string(p: &Policies) -> (r: Result<String, serde_yaml::Error>)
    requires
        p.wf(),
    ensures
        r is Ok,
        r matches Ok(t) ==> t@ == yaml_text_of(p@),
{
    let m: BTreeMap<&String, &Vec<Vec<String>>> = p.families.iter().map(|f| (&f.key, &f.rules)).collect();
    serde_yaml::to_string(&m)
}

/// Relies on serde_yaml::from_str into a `BTreeMap` from family key to rules:
/// the outcome depends on the text alone, and a map holds each key once.
#[verifier::external_body]
fn yaml_from_str(text: &str) -> (r: Result<Policies, serde_yaml::Error>)
    ensures
        r is Ok <==> yaml_store_of(text@) is Some,
        r matches Ok(p) ==> p.wf() && p@ == yaml_store_of(text@)->0,
{
    let m: BTreeMap<String, Vec<Vec<String>>> = serde_yaml::from_str(text)?;
    Ok(Policies { families: m.into_iter().map(|(key, rules)| Family { key, rules }).collect() })
}

pub open spec fn is_blank_byte(b: u8) -> bool {
    b == 32 || b == 9 || b == 10 || b == 13
}

/// Whether a text holds nothing but spaces, tabs and line breaks.
pub open spec fn is_blank(bytes: Seq<u8>) -> bool {
    forall|i: int| 0 <= i < bytes.len() ==> is_blank_byte(#[trigger] bytes[i])
}

/// The store that a file's text stands for: an empty or blank text is the
/// empty store; any other text is read as YAML.
pub open spec fn decoded(text: &str) -> Option<StoreView> {
    if is_blank(text.spec_bytes()) {
        Some(Map::empty())
    } else {
        yaml_store_of(text@)
    }
}

pub fn text_is_blank(text: &str) -> (r: bool)
    ensures
        r == is_blank(text.spec_bytes()),
{
    let bytes = text.as_bytes();
    let mut i: usize = 0;
    while i < bytes.len()
        invariant
            i <= bytes@.len(),
            bytes@ == text.spec_bytes(),
            forall|j: int| 0 <= j < i ==> is_blank_byte(#[trigger] bytes@[j]),
        decreases bytes.len() - i,
    {
        let b = bytes[i];
        if !(b == 32 || b == 9 || b == 10 || b == 13) {
            return false;
        }
        i += 1;
    }
    true
}

/// Reads a store from the text of a file.
pub fn decode(text: &str) -> (r: Result<Policies, AdapterError>)
    ensures
        r is Ok <==> decoded(text) is Some,
        r matches Ok(p) ==> p.wf() && decoded(text) == Some(p@),
        r matches Err(e) ==> e == AdapterError::Decode,
{
    if text_is_blank(text) {
        return Ok(Policies::new());
    }
    match yaml_from_str(text) {
        Ok(p) => Ok(p),
        Err(_) => Err(AdapterError::Decode),
    }
}

/// Writes a store as the text of a file.
pub fn encode(p: &Policies) -> (t: String)
    requires
        p.wf(),
    ensures
        t@ == yaml_text_of(p@),
{
    match yaml_to_string(p) {
        Ok(t) => t,
        Err(_) => {
            assert(false);
            String::new()
        },
    }
}

} // verus!
