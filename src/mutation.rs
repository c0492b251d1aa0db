//! In-store mutations: adding and removing rules of one family.

use vstd::prelude::*;
use crate::models::{
    clone_rule, family_of, lemma_store_of_index, lemma_store_of_push, lemma_store_of_update,
    rule_eq, rule_view, rules_contain, rules_view, Family, Policies, RuleView, StoreView,
};

verus! {

/// Holds of each rule but `r`.
pub open spec fn other_than(r: RuleView) -> spec_fn(RuleView) -> bool {
    |x: RuleView| x != r
}

/// Holds of each rule that `rs` does not hold.
pub open spec fn outside_of(rs: Seq<RuleView>) -> spec_fn(RuleView) -> bool {
    |x: RuleView| !rs.contains(x)
}

/// Holds of each rule that does not match `vals` from field `fi` on.
pub open spec fn unmatched(fi: int, vals: Seq<Seq<char>>) -> spec_fn(RuleView) -> bool {
    |x: RuleView| !fields_match(x, fi, vals)
}

/// The store after adding `r` to family `k`, and whether it was added:
/// a rule that the family already holds is not added twice.
pub open spec fn add_rule_outcome(m: StoreView, k: Seq<char>, r: RuleView) -> (StoreView, bool) {
    if family_of(m, k).contains(r) {
        (m, false)
    } else {
        (m.insert(k, family_of(m, k).push(r)), true)
    }
}

/// The store after adding the batch `rs` to family `k`, and whether it was
/// added: a batch that holds one rule twice, or one rule of the batch that the
/// family already holds, rejects it all.
pub open spec fn add_rules_outcome(m: StoreView, k: Seq<char>, rs: Seq<RuleView>) -> (StoreView, bool) {
    if !rs.no_duplicates() || exists|j: int| 0 <= j < rs.len() && family_of(m, k).contains(#[trigger] rs[j]) {
        (m, false)
    } else {
        (m.insert(k, family_of(m, k) + rs), true)
    }
}

/// The store after removing every copy of `r` from family `k`, and whether
/// one was there. A store without family `k` is left as it is.
pub open spec fn remove_rule_outcome(m: StoreView, k: Seq<char>, r: RuleView) -> (StoreView, bool) {
    if m.contains_key(k) {
        (m.insert(k, m[k].filter(other_than(r))), m[k].contains(r))
    } else {
        (m, false)
    }
}

/// The store after removing the batch `rs` from family `k`, and whether that
/// succeeded: one rule of the batch that the family lacks rejects it all; a
/// store without family `k` has nothing to remove and succeeds unchanged.
pub open spec fn remove_rules_outcome(m: StoreView, k: Seq<char>, rs: Seq<RuleView>) -> (StoreView, bool) {
    if !m.contains_key(k) {
        (m, true)
    } else if exists|j: int| 0 <= j < rs.len() && !m[k].contains(#[trigger] rs[j]) {
        (m, false)
    } else {
        (m.insert(k, m[k].filter(outside_of(rs))), true)
    }
}

/// Whether rule `r`, read from field `fi` on, agrees with every non-empty entry of `vals`.
pub open spec fn fields_match(r: RuleView, fi: int, vals: Seq<Seq<char>>) -> bool {
    forall|i: int| 0 <= i < vals.len() ==> (#[trigger] vals[i]).len() == 0 || r[fi + i] == vals[i]
}

/// Whether rule `r` has a field at each position from `fi` to `fi + n - 1`.
pub open spec fn reaches(r: RuleView, fi: int, n: int) -> bool {
    fi + n <= r.len()
}

/// The store after removing from family `k` each rule that matches `vals`
/// from field `fi` on; `None` where `vals` is empty or some rule of the family
/// is too short for it. A missing family is created empty.
pub open spec fn remove_filtered_outcome(m: StoreView, k: Seq<char>, fi: int, vals: Seq<Seq<char>>) -> Option<StoreView> {
    let rs = family_of(m, k);
    if vals.len() == 0 {
        None
    } else if exists|j: int| 0 <= j < rs.len() && !reaches(#[trigger] rs[j], fi, vals.len() as int) {
        None
    } else {
        Some(m.insert(k, rs.filter(unmatched(fi, vals))))
    }
}

pub proof fn lemma_filter_push(s: Seq<RuleView>, x: RuleView, p: spec_fn(RuleView) -> bool)
    ensures
        s.push(x).filter(p) == (if p(x) { s.filter(p).push(x) } else { s.filter(p) }),
{
    reveal(Seq::filter);
    assert(s.push(x).drop_last() =~= s);
}

/// Whether `r`, from field `fi` on, agrees with every non-empty entry of `vals`.
pub fn rule_matches_at(r: &Vec<String>, fi: usize, vals: &Vec<String>) -> (b: bool)
    requires
        reaches(rule_view(*r), fi as int, vals.len() as int),
    ensures
        b == fields_match(rule_view(*r), fi as int, rule_view(*vals)),
{
    let mut i: usize = 0;
    while i < vals.len()
        invariant
            i <= vals.len(),
            fi + vals.len() <= r.len(),
            forall|j: int| 0 <= j < i ==> (#[trigger] vals@[j])@.len() == 0 || r@[fi + j]@ == vals@[j]@,
        decreases vals.len() - i,
    {
        if !vals[i].as_str().is_empty() && r[fi + i] != vals[i] {
            assert(!(rule_view(*vals)[i as int].len() == 0 || rule_view(*r)[fi + i] == rule_view(*vals)[i as int]));
            return false;
        }
        i += 1;
    }
    assert forall|j: int| 0 <= j < rule_view(*vals).len() implies (#[trigger] rule_view(*vals)[j]).len() == 0
        || rule_view(*r)[fi + j] == rule_view(*vals)[j] by {
        assert(vals@[j]@.len() == 0 || r@[fi + j]@ == vals@[j]@);
    }
    true
}

/// Whether the batch `rules` holds one rule twice.
pub fn has_repeat(rules: &Vec<Vec<String>>) -> (b: bool)
    ensures
        b == !rules_view(*rules).no_duplicates(),
{
    let ghost rs = rules_view(*rules);
    let mut j: usize = 0;
    while j < rules.len()
        invariant
            j <= rules.len(),
            rs == rules_view(*rules),
            forall|a: int, b: int| 0 <= a < b < j ==> rs[a] != rs[b],
        decreases rules.len() - j,
    {
        let mut t: usize = 0;
        while t < j
            invariant
                t <= j < rules.len(),
                rs == rules_view(*rules),
                forall|a: int, b: int| 0 <= a < b < j ==> rs[a] != rs[b],
                forall|a: int| 0 <= a < t ==> rs[a] != rs[j as int],
            decreases j - t,
        {
            if rule_eq(&rules[t], &rules[j]) {
                assert(rs[t as int] == rs[j as int]);
                return true;
            }
            t += 1;
        }
        j += 1;
    }
    assert forall|a: int, b: int| 0 <= a < rs.len() && 0 <= b < rs.len() && a != b implies rs[a] != rs[b] by {
        if a > b {
            assert(rs[b] != rs[a]);
        }
    }
    false
}

impl Policies {
    /// Adds `rule` to family `key`, creating the family where it is missing;
    /// a rule that the family already holds is left alone. Returns whether it
    /// was added.
    pub fn add_rule(&mut self, key: &String, rule: Vec<String>) -> (added: bool)
        requires
            old(self).wf(),
        ensures
            final(self).wf(),
            (final(self)@, added) == add_rule_outcome(old(self)@, key@, rule_view(rule)),
    {
        let ghost old_fs = self.families@;
        match self.find(key) {
            Some(i) => {
                proof {
                    lemma_store_of_index(old_fs, i as int);
                }
                if rules_contain(&self.families[i].rules, &rule) {
                    return false;
                }
                let mut f = self.families.remove(i);
                let ghost old_rules = rules_view(f.rules);
                f.rules.push(rule);
                assert(rules_view(f.rules) =~= old_rules.push(rule_view(rule)));
                proof {
                    lemma_store_of_update(old_fs, i as int, f);
                }
                self.families.insert(i, f);
                assert(self.families@ =~= old_fs.update(i as int, f));
                true
            },
            None => {
                let mut rules: Vec<Vec<String>> = Vec::new();
                rules.push(rule);
                let f = Family { key: key.clone(), rules };
                assert(rules_view(f.rules) =~= Seq::<RuleView>::empty().push(rule_view(rule)));
                proof {
                    lemma_store_of_push(old_fs, f);
                }
                self.families.push(f);
                true
            },
        }
    }

    /// Adds the batch `rules` to family `key`, creating the family where it is
    /// missing. Where the batch holds one rule twice, or the family already
    /// holds any rule of the batch, nothing is added. Returns whether the
    /// batch was added.
    pub fn add_rules(&mut self, key: &String, rules: Vec<Vec<String>>) -> (added: bool)
        requires
            old(self).wf(),
        ensures
            final(self).wf(),
            (final(self)@, added) == add_rules_outcome(old(self)@, key@, rules_view(rules)),
    {
        let ghost old_fs = self.families@;
        let ghost rs = rules_view(rules);
        if has_repeat(&rules) {
            return false;
        }
        match self.find(key) {
            Some(i) => {
                proof {
                    lemma_store_of_index(old_fs, i as int);
                }
                let mut j: usize = 0;
                while j < rules.len()
                    invariant
                        j <= rules.len(),
                        i < self.families.len(),
                        self.families@ == old_fs,
                        self.wf(),
                        rs == rules_view(rules),
                        family_of(old(self)@, key@) == rules_view(self.families@[i as int].rules),
                        forall|t: int| 0 <= t < j ==> !family_of(old(self)@, key@).contains(#[trigger] rs[t]),
                    decreases rules.len() - j,
                {
                    if rules_contain(&self.families[i].rules, &rules[j]) {
                        assert(family_of(old(self)@, key@).contains(rs[j as int]));
                        return false;
                    }
                    j += 1;
                }
                let mut f = self.families.remove(i);
                let ghost old_rules = rules_view(f.rules);
                let mut more = rules;
                f.rules.append(&mut more);
                assert(rules_view(f.rules) =~= old_rules + rs);
                proof {
                    lemma_store_of_update(old_fs, i as int, f);
                }
                self.families.insert(i, f);
                assert(self.families@ =~= old_fs.update(i as int, f));
                true
            },
            None => {
                let f = Family { key: key.clone(), rules };
                assert(Seq::<RuleView>::empty() + rs =~= rs);
                proof {
                    lemma_store_of_push(old_fs, f);
                }
                self.families.push(f);
                true
            },
        }
    }

    /// Removes every copy of `rule` from family `key`. Returns whether the
    /// family held it; a store without family `key` is left as it is.
    pub fn remove_rule(&mut self, key: &String, rule: &Vec<String>) -> (removed: bool)
        requires
            old(self).wf(),
        ensures
            final(self).wf(),
            (final(self)@, removed) == remove_rule_outcome(old(self)@, key@, rule_view(*rule)),
    {
        let ghost old_fs = self.families@;
        let ghost r = rule_view(*rule);
        match self.find(key) {
            Some(i) => {
                proof {
                    lemma_store_of_index(old_fs, i as int);
                }
                let f = self.families.remove(i);
                let ghost rs = rules_view(f.rules);
                let mut kept: Vec<Vec<String>> = Vec::new();
                let mut removed = false;
                let mut j: usize = 0;
                while j < f.rules.len()
                    invariant
                        j <= f.rules.len(),
                        rs == rules_view(f.rules),
                        r == rule_view(*rule),
                        rules_view(kept) == rs.take(j as int).filter(other_than(rule_view(*rule))),
                        removed == rs.take(j as int).contains(r),
                    decreases f.rules.len() - j,
                {
                    proof {
                        assert(rs.take(j + 1) =~= rs.take(j as int).push(rs[j as int]));
                        lemma_filter_push(rs.take(j as int), rs[j as int], other_than(rule_view(*rule)));
                    }
                    if rule_eq(&f.rules[j], rule) {
                        removed = true;
                        assert(rs.take(j + 1)[j as int] == r);
                    } else {
                        let ghost before = rules_view(kept);
                        kept.push(clone_rule(&f.rules[j]));
                        assert(rules_view(kept) =~= before.push(rs[j as int]));
                        assert(rs.take(j + 1).contains(r) ==> rs.take(j as int).contains(r));
                    }
                    j += 1;
                }
                assert(rs.take(j as int) =~= rs);
                let nf = Family { key: f.key, rules: kept };
                proof {
                    lemma_store_of_update(old_fs, i as int, nf);
                }
                self.families.insert(i, nf);
                assert(self.families@ =~= old_fs.update(i as int, nf));
                removed
            },
            None => false,
        }
    }

    /// Removes the batch `rules` from family `key`. Where the family lacks any
    /// rule of the batch, nothing is removed and the result is false; a store
    /// without family `key` is left as it is and the result is true.
    pub fn remove_rules(&mut self, key: &String, rules: &Vec<Vec<String>>) -> (ok: bool)
        requires
            old(self).wf(),
        ensures
            final(self).wf(),
            (final(self)@, ok) == remove_rules_outcome(old(self)@, key@, rules_view(*rules)),
    {
        let ghost old_fs = self.families@;
        let ghost gone = rules_view(*rules);
        match self.find(key) {
            Some(i) => {
                proof {
                    lemma_store_of_index(old_fs, i as int);
                }
                let mut t: usize = 0;
                while t < rules.len()
                    invariant
                        t <= rules.len(),
                        i < self.families.len(),
                        self.families@ == old_fs,
                        self.wf(),
                        gone == rules_view(*rules),
                        old(self)@.contains_key(key@),
                        old(self)@[key@] == rules_view(self.families@[i as int].rules),
                        forall|u: int| 0 <= u < t ==> old(self)@[key@].contains(#[trigger] gone[u]),
                    decreases rules.len() - t,
                {
                    if !rules_contain(&self.families[i].rules, &rules[t]) {
                        assert(!old(self)@[key@].contains(gone[t as int]));
                        return false;
                    }
                    t += 1;
                }
                let f = self.families.remove(i);
                let ghost rs = rules_view(f.rules);
                let mut kept: Vec<Vec<String>> = Vec::new();
                let mut j: usize = 0;
                while j < f.rules.len()
                    invariant
                        j <= f.rules.len(),
                        rs == rules_view(f.rules),
                        gone == rules_view(*rules),
                        rules_view(kept) == rs.take(j as int).filter(outside_of(rules_view(*rules))),
                    decreases f.rules.len() - j,
                {
                    proof {
                        assert(rs.take(j + 1) =~= rs.take(j as int).push(rs[j as int]));
                        lemma_filter_push(rs.take(j as int), rs[j as int], outside_of(rules_view(*rules)));
                    }
                    if !rules_contain(rules, &f.rules[j]) {
                        let ghost before = rules_view(kept);
                        kept.push(clone_rule(&f.rules[j]));
                        assert(rules_view(kept) =~= before.push(rs[j as int]));
                    }
                    j += 1;
                }
                assert(rs.take(j as int) =~= rs);
                let nf = Family { key: f.key, rules: kept };
                proof {
                    lemma_store_of_update(old_fs, i as int, nf);
                }
                self.families.insert(i, nf);
                assert(self.families@ =~= old_fs.update(i as int, nf));
                true
            },
            None => true,
        }
    }

    /// Removes from family `key` each rule that agrees with every non-empty
    /// entry of `vals`, compared from field `field_index` on. Returns false and
    /// leaves the store as it is where `vals` is empty or a rule of the family
    /// ends before the last position compared. A missing family is created empty.
    pub fn remove_filtered(&mut self, key: &String, field_index: usize, vals: &Vec<String>) -> (ok: bool)
        requires
            old(self).wf(),
        ensures
            final(self).wf(),
            ok == remove_filtered_outcome(old(self)@, key@, field_index as int, rule_view(*vals)) is Some,
            ok ==> final(self)@ == remove_filtered_outcome(old(self)@, key@, field_index as int, rule_view(*vals))->0,
            !ok ==> final(self)@ == old(self)@,
    {
        let ghost old_fs = self.families@;
        let ghost n = vals.len() as int;
        if vals.len() == 0 {
            return false;
        }
        let found = self.find(key);
        let f = match found {
            Some(i) => {
                proof {
                    lemma_store_of_index(old_fs, i as int);
                }
                let mut t: usize = 0;
                while t < self.families[i].rules.len()
                    invariant
                        t <= self.families@[i as int].rules.len(),
                        i < self.families.len(),
                        self.families@ == old_fs,
                        self.wf(),
                        n == vals.len(),
                        family_of(old(self)@, key@) == rules_view(self.families@[i as int].rules),
                        forall|u: int| 0 <= u < t ==> reaches(#[trigger] family_of(old(self)@, key@)[u], field_index as int, n),
                    decreases self.families@[i as int].rules.len() - t,
                {
                    let rl = self.families[i].rules[t].len();
                    if field_index > rl || vals.len() > rl - field_index {
                        assert(!reaches(family_of(old(self)@, key@)[t as int], field_index as int, n));
                        return false;
                    }
                    t += 1;
                }
                self.families.remove(i)
            },
            None => Family { key: key.clone(), rules: Vec::new() },
        };
        let ghost rs = rules_view(f.rules);
        assert(rs == family_of(old(self)@, key@));
        let ghost pred = unmatched(field_index as int, rule_view(*vals));
        let mut kept: Vec<Vec<String>> = Vec::new();
        let mut j: usize = 0;
        while j < f.rules.len()
            invariant
                j <= f.rules.len(),
                rs == rules_view(f.rules),
                n == vals.len(),
                pred == unmatched(field_index as int, rule_view(*vals)),
                forall|u: int| 0 <= u < rs.len() ==> reaches(#[trigger] rs[u], field_index as int, n),
                rules_view(kept) == rs.take(j as int).filter(pred),
            decreases f.rules.len() - j,
        {
            proof {
                assert(rs.take(j + 1) =~= rs.take(j as int).push(rs[j as int]));
                lemma_filter_push(rs.take(j as int), rs[j as int], pred);
                assert(reaches(rs[j as int], field_index as int, n));
            }
            if !rule_matches_at(&f.rules[j], field_index, vals) {
                let ghost before = rules_view(kept);
                kept.push(clone_rule(&f.rules[j]));
                assert(rules_view(kept) =~= before.push(rs[j as int]));
            }
            j += 1;
        }
        assert(rs.take(j as int) =~= rs);
        let nf = Family { key: f.key, rules: kept };
        match found {
            Some(i) => {
                proof {
                    lemma_store_of_update(old_fs, i as int, nf);
                }
                self.families.insert(i, nf);
                assert(self.families@ =~= old_fs.update(i as int, nf));
            },
            None => {
                proof {
                    lemma_store_of_push(old_fs, nf);
                }
                self.families.push(nf);
            },
        }
        true
    }
}

} // verus!
