//! The adapter: the decisions of each load, save and mutation, on the text
//! that the caller read from the policy file. The caller reads and writes the
//! file; every mutation is a read-modify-write of the whole text.

use vstd::prelude::*;
use crate::codec::{decode, decoded, encode, yaml_text_of, AdapterError};
use crate::filter::{admits, families_view, has_empty_key, rejected, template_for, lines_view, load_lines, rejects_some, store_lines, Filter, PolicyLine};
use crate::models::{rule_view, rules_view, Policies, StoreView};
use crate::mutation::{
    add_rule_outcome, add_rules_outcome, remove_filtered_outcome, remove_rule_outcome,
    remove_rules_outcome,
};

verus! {

/// The adapter's state between calls: where the policy file is, and whether
/// the last load left rules out.
#[derive(Clone, Debug)]
pub struct YamlAdapter {
    file_path: String,
    is_filtered: bool,
}

/// The answer of a mutation: what it reports, and the new text of the file
/// where the file is to be rewritten.
#[derive(Clone, Debug)]
pub struct Update {
    pub reported: bool,
    pub contents: Option<String>,
}

/// The mutation reports `reported` and leaves the file alone.
pub open spec fn unwritten(r: Result<Update, AdapterError>, reported: bool) -> bool {
    match r {
        Ok(u) => u.reported == reported && u.contents is None,
        Err(_) => false,
    }
}

/// The mutation reports `reported` and rewrites the file as the text of `m`.
pub open spec fn written(r: Result<Update, AdapterError>, reported: bool, m: StoreView) -> bool {
    match r {
        Ok(u) => u.reported == reported && match u.contents {
            Some(t) => t@ == yaml_text_of(m),
            None => false,
        },
        Err(_) => false,
    }
}

/// Rewrites the file as the text of `p`, reporting `reported`.
fn write_back(p: &Policies, reported: bool) -> (r: Result<Update, AdapterError>)
    requires
        p.wf(),
    ensures
        written(r, reported, p@),
{
    Ok(Update { reported, contents: Some(encode(p)) })
}

impl YamlAdapter {
    pub closed spec fn path_view(&self) -> Seq<char> {
        self.file_path@
    }

    pub closed spec fn filtered_view(&self) -> bool {
        self.is_filtered
    }

    /// An adapter for the file at `file_path`, with no load made yet.
    pub fn new(file_path: String) -> (r: YamlAdapter)
        ensures
            r.path_view() == file_path@,
            !r.filtered_view(),
    {
        YamlAdapter { file_path, is_filtered: false }
    }

    /// Where the policy file is.
    pub fn file_path(&self) -> (r: &String)
        ensures
            r@ == self.path_view(),
    {
        &self.file_path
    }

    /// Whether the last load left some rule of the file out.
    pub fn is_filtered(&self) -> (r: bool)
        ensures
            r == self.filtered_view(),
    {
        self.is_filtered
    }

    /// The rules of `store` that `filter` admits, family after family and in
    /// order within each family, for the model to take in; the adapter then
    /// records whether any rule was left out. A failed load leaves the adapter
    /// as it was.
    pub fn load_filtered_policy(&mut self, store: &Policies, filter: &Filter) -> (r: Result<Vec<PolicyLine>, AdapterError>)
        ensures
            final(self).path_view() == old(self).path_view(),
            r is Err <==> has_empty_key(families_view(*store)),
            r matches Err(e) ==> e == AdapterError::InvalidFamilyKey && final(self).filtered_view() == old(self).filtered_view(),
            r matches Ok(ls) ==> lines_view(ls) == store_lines(families_view(*store), rule_view(filter.p), rule_view(filter.g))
                && final(self).filtered_view() == rejects_some(families_view(*store), rule_view(filter.p), rule_view(filter.g)),
    {
        let loaded = load_lines(store, filter)?;
        self.is_filtered = loaded.filtered;
        Ok(loaded.lines)
    }

    /// Every rule of `store`, family after family and in order within each
    /// family, for the model to take in; the adapter then records that nothing
    /// was left out.
    pub fn load_policy(&mut self, store: &Policies) -> (r: Result<Vec<PolicyLine>, AdapterError>)
        ensures
            final(self).path_view() == old(self).path_view(),
            r is Err <==> has_empty_key(families_view(*store)),
            r matches Err(e) ==> e == AdapterError::InvalidFamilyKey && final(self).filtered_view() == old(self).filtered_view(),
            r matches Ok(ls) ==> lines_view(ls) == store_lines(families_view(*store), Seq::empty(), Seq::empty())
                && !final(self).filtered_view(),
    {
        let all = Filter { p: Vec::new(), g: Vec::new() };
        assert(rule_view(all.p) =~= Seq::empty());
        assert(rule_view(all.g) =~= Seq::empty());
        let loaded = load_lines(store, &all)?;
        proof {
            let fs = families_view(*store);
            if rejects_some(fs, Seq::empty(), Seq::empty()) {
                let (a, b) = choose|a: int, b: int| #[trigger] rejected(fs, Seq::empty(), Seq::empty(), a, b);
                assert(admits(template_for(Seq::empty(), Seq::empty(), fs[a].0), fs[a].1[b]));
            }
        }
        self.is_filtered = false;
        Ok(loaded.lines)
    }

    /// The text to write to the file for a snapshot `store` of the model. A
    /// save needs a file: with an empty path it fails.
    pub fn save_policy(&self, store: &Policies) -> (r: Result<String, AdapterError>)
        requires
            store.wf(),
        ensures
            self.path_view().len() == 0 ==> r == Err::<String, AdapterError>(AdapterError::Configuration),
            self.path_view().len() > 0 ==> match r {
                Ok(t) => t@ == yaml_text_of(store@),
                Err(_) => false,
            },
    {
        if self.file_path.as_str().is_empty() {
            return Err(AdapterError::Configuration);
        }
        Ok(encode(store))
    }

    /// The text to write to the file to clear it: the empty store.
    pub fn clear_policy(&self) -> (t: String)
        ensures
            t@ == yaml_text_of(Map::empty()),
    {
        encode(&Policies::new())
    }

    /// Adds `rule` to family `ptype` of the file's text. A rule that the
    /// family already holds is not added, and the file is left alone.
    pub fn add_policy(&self, text: &str, ptype: &str, rule: Vec<String>) -> (r: Result<Update, AdapterError>)
        ensures
            match decoded(text) {
                None => r == Err::<Update, AdapterError>(AdapterError::Decode),
                Some(m) => {
                    let (m2, added) = add_rule_outcome(m, ptype@, rule_view(rule));
                    if added { written(r, true, m2) } else { unwritten(r, false) }
                },
            },
    {
        let mut store = decode(text)?;
        let key = ptype.to_owned();
        if store.add_rule(&key, rule) {
            write_back(&store, true)
        } else {
            Ok(Update { reported: false, contents: None })
        }
    }

    /// Adds the batch `rules` to family `ptype` of the file's text. Where the
    /// batch holds one rule twice, or the family already holds any rule of the
    /// batch, none is added and the file is left alone.
    pub fn add_policies(&self, text: &str, ptype: &str, rules: Vec<Vec<String>>) -> (r: Result<Update, AdapterError>)
        ensures
            match decoded(text) {
                None => r == Err::<Update, AdapterError>(AdapterError::Decode),
                Some(m) => {
                    let (m2, added) = add_rules_outcome(m, ptype@, rules_view(rules));
                    if added { written(r, true, m2) } else { unwritten(r, false) }
                },
            },
    {
        let mut store = decode(text)?;
        let key = ptype.to_owned();
        if store.add_rules(&key, rules) {
            write_back(&store, true)
        } else {
            Ok(Update { reported: false, contents: None })
        }
    }

    /// Removes every copy of `rule` from family `ptype` of the file's text and
    /// reports whether there was one. The file is rewritten whenever the
    /// family exists, and left alone where it does not.
    pub fn remove_policy(&self, text: &str, ptype: &str, rule: &Vec<String>) -> (r: Result<Update, AdapterError>)
        ensures
            match decoded(text) {
                None => r == Err::<Update, AdapterError>(AdapterError::Decode),
                Some(m) => {
                    let (m2, removed) = remove_rule_outcome(m, ptype@, rule_view(*rule));
                    if m.contains_key(ptype@) { written(r, removed, m2) } else { unwritten(r, false) }
                },
            },
    {
        let mut store = decode(text)?;
        let key = ptype.to_owned();
        if store.find(&key).is_none() {
            return Ok(Update { reported: false, contents: None });
        }
        let removed = store.remove_rule(&key, rule);
        write_back(&store, removed)
    }

    /// Removes the batch `rules` from family `ptype` of the file's text. Where
    /// the family lacks any rule of the batch, nothing is removed, the result
    /// is false and the file is left alone. A missing family has nothing to
    /// remove: the result is true and the file is left alone.
    pub fn remove_policies(&self, text: &str, ptype: &str, rules: &Vec<Vec<String>>) -> (r: Result<Update, AdapterError>)
        ensures
            match decoded(text) {
                None => r == Err::<Update, AdapterError>(AdapterError::Decode),
                Some(m) => {
                    let (m2, ok) = remove_rules_outcome(m, ptype@, rules_view(*rules));
                    if m.contains_key(ptype@) && ok { written(r, true, m2) } else { unwritten(r, ok) }
                },
            },
    {
        let mut store = decode(text)?;
        let key = ptype.to_owned();
        if store.find(&key).is_none() {
            return Ok(Update { reported: true, contents: None });
        }
        if store.remove_rules(&key, rules) {
            write_back(&store, true)
        } else {
            Ok(Update { reported: false, contents: None })
        }
    }

    /// Removes from family `ptype` of the file's text each rule that agrees
    /// with every non-empty entry of `field_values`, compared from field
    /// `field_index` on. With no field values, or where a rule of the family
    /// ends before the last field compared, nothing is removed, the result is
    /// false and the file is left alone; no field values fail before the text
    /// is read.
    pub fn remove_filtered_policy(&self, text: &str, ptype: &str, field_index: usize, field_values: &Vec<String>) -> (r: Result<Update, AdapterError>)
        ensures
            field_values.len() == 0 ==> unwritten(r, false),
            field_values.len() > 0 ==> match decoded(text) {
                None => r == Err::<Update, AdapterError>(AdapterError::Decode),
                Some(m) => match remove_filtered_outcome(m, ptype@, field_index as int, rule_view(*field_values)) {
                    Some(m2) => written(r, true, m2),
                    None => unwritten(r, false),
                },
            },
    {
        if field_values.len() == 0 {
            return Ok(Update { reported: false, contents: None });
        }
        let mut store = decode(text)?;
        let key = ptype.to_owned();
        if store.remove_filtered(&key, field_index, field_values) {
            write_back(&store, true)
        } else {
            Ok(Update { reported: false, contents: None })
        }
    }
}

} // verus!
