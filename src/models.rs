//! The rule store: families of rules keyed by a family name such as "p" or "g".

use vstd::prelude::*;

verus! {

/// A rule seen as its sequence of fields.
pub type RuleView = Seq<Seq<char>>;

/// A rule store seen as a map from family key to that family's rules, in order.
pub type StoreView = Map<Seq<char>, Seq<RuleView>>;

pub open spec fn rule_view(r: Vec<String>) -> RuleView {
    r@.map_values(|s: String| s@)
}

pub open spec fn rules_view(rs: Vec<Vec<String>>) -> Seq<RuleView> {
    rs@.map_values(|r: Vec<String>| rule_view(r))
}

/// One rule family: its key and its rules in order.
#[derive(Clone, Debug)]
pub struct Family {
    pub key: String,
    pub rules: Vec<Vec<String>>,
}

/// The rule store. Each key names at most one family.
#[derive(Clone, Debug)]
pub struct Policies {
    pub families: Vec<Family>,
}

pub open spec fn keys_unique(fs: Seq<Family>) -> bool {
    forall|i: int, j: int|
        0 <= i < fs.len() && 0 <= j < fs.len() && i != j ==> #[trigger] fs[i].key@ != #[trigger] fs[j].key@
}

pub open spec fn has_key_at(fs: Seq<Family>, k: Seq<char>, i: int) -> bool {
    0 <= i < fs.len() && fs[i].key@ == k
}

/// The map that a sequence of families stands for.
pub open spec fn store_of(fs: Seq<Family>) -> StoreView {
    Map::new(
        |k: Seq<char>| exists|i: int| has_key_at(fs, k, i),
        |k: Seq<char>| rules_view(fs[choose|i: int| has_key_at(fs, k, i)].rules),
    )
}

/// The rules of family `k`, or none where the store has no such family.
pub open spec fn family_of(m: StoreView, k: Seq<char>) -> Seq<RuleView> {
    if m.contains_key(k) {
        m[k]
    } else {
        Seq::empty()
    }
}

impl View for Policies {
    type V = StoreView;

    open spec fn view(&self) -> StoreView {
        store_of(self.families@)
    }
}

pub proof fn lemma_store_of_index(fs: Seq<Family>, i: int)
    requires
        keys_unique(fs),
        0 <= i < fs.len(),
    ensures
        store_of(fs).contains_key(fs[i].key@),
        store_of(fs)[fs[i].key@] == rules_view(fs[i].rules),
{
    let k = fs[i].key@;
    assert(has_key_at(fs, k, i));
    let c = choose|j: int| has_key_at(fs, k, j);
    assert(c == i);
}

pub proof fn lemma_store_of_update(fs: Seq<Family>, i: int, f: Family)
    requires
        keys_unique(fs),
        0 <= i < fs.len(),
        fs[i].key@ == f.key@,
    ensures
        keys_unique(fs.update(i, f)),
        store_of(fs.update(i, f)) == store_of(fs).insert(f.key@, rules_view(f.rules)),
{
    let gs = fs.update(i, f);
    assert(keys_unique(gs)) by {
        assert forall|a: int, b: int|
            0 <= a < gs.len() && 0 <= b < gs.len() && a != b implies gs[a].key@ != gs[b].key@ by {
            assert(fs[a].key@ != fs[b].key@);
        }
    }
    let lhs = store_of(gs);
    let rhs = store_of(fs).insert(f.key@, rules_view(f.rules));
    assert forall|k: Seq<char>| #[trigger] lhs.contains_key(k) <==> rhs.contains_key(k) by {
        if lhs.contains_key(k) {
            let j = choose|j: int| has_key_at(gs, k, j);
            if j != i {
                assert(has_key_at(fs, k, j));
            }
        }
        if rhs.contains_key(k) && k != f.key@ {
            let j = choose|j: int| has_key_at(fs, k, j);
            assert(has_key_at(gs, k, j));
        }
        if k == f.key@ {
            assert(has_key_at(gs, k, i));
        }
    }
    assert forall|k: Seq<char>| #[trigger] lhs.contains_key(k) implies lhs[k] == rhs[k] by {
        let j = choose|j: int| has_key_at(gs, k, j);
        lemma_store_of_index(gs, j);
        if j != i {
            lemma_store_of_index(fs, j);
        }
    }
    assert(lhs =~= rhs);
}

pub proof fn lemma_store_of_push(fs: Seq<Family>, f: Family)
    requires
        keys_unique(fs),
        !store_of(fs).contains_key(f.key@),
    ensures
        keys_unique(fs.push(f)),
        store_of(fs.push(f)) == store_of(fs).insert(f.key@, rules_view(f.rules)),
{
    let gs = fs.push(f);
    let n = fs.len() as int;
    assert(keys_unique(gs)) by {
        assert forall|a: int, b: int|
            0 <= a < gs.len() && 0 <= b < gs.len() && a != b implies gs[a].key@ != gs[b].key@ by {
            if a < n && b < n {
                assert(fs[a].key@ != fs[b].key@);
            } else if a < n {
                assert(has_key_at(fs, fs[a].key@, a));
            } else {
                assert(has_key_at(fs, fs[b].key@, b));
            }
        }
    }
    let lhs = store_of(gs);
    let rhs = store_of(fs).insert(f.key@, rules_view(f.rules));
    assert forall|k: Seq<char>| #[trigger] lhs.contains_key(k) <==> rhs.contains_key(k) by {
        if lhs.contains_key(k) && k != f.key@ {
            let j = choose|j: int| has_key_at(gs, k, j);
            assert(has_key_at(fs, k, j));
        }
        if rhs.contains_key(k) && k != f.key@ {
            let j = choose|j: int| has_key_at(fs, k, j);
            assert(has_key_at(gs, k, j));
        }
        if k == f.key@ {
            assert(has_key_at(gs, k, n));
        }
    }
    assert forall|k: Seq<char>| #[trigger] lhs.contains_key(k) implies lhs[k] == rhs[k] by {
        let j = choose|j: int| has_key_at(gs, k, j);
        lemma_store_of_index(gs, j);
        if j != n {
            lemma_store_of_index(fs, j);
        }
    }
    assert(lhs =~= rhs);
}

/// A field-by-field copy of a rule.
pub fn clone_rule(r: &Vec<String>) -> (c: Vec<String>)
    ensures
        rule_view(c) == rule_view(*r),
{
    let mut c: Vec<String> = Vec::new();
    let mut i: usize = 0;
    while i < r.len()
        invariant
            i <= r.len(),
            c@.len() == i,
            forall|j: int| 0 <= j < i ==> #[trigger] c@[j]@ == r@[j]@,
        decreases r.len() - i,
    {
        c.push(r[i].clone());
        i += 1;
    }
    assert(rule_view(c) =~= rule_view(*r));
    c
}

/// Whether two rules have the same fields.
pub fn rule_eq(a: &Vec<String>, b: &Vec<String>) -> (r: bool)
    ensures
        r == (rule_view(*a) == rule_view(*b)),
{
    if a.len() != b.len() {
        assert(rule_view(*a).len() != rule_view(*b).len());
        return false;
    }
    let mut i: usize = 0;
    while i < a.len()
        invariant
            i <= a.len(),
            a.len() == b.len(),
            forall|j: int| 0 <= j < i ==> #[trigger] a@[j]@ == b@[j]@,
        decreases a.len() - i,
    {
        if a[i] != b[i] {
            assert(rule_view(*a)[i as int] != rule_view(*b)[i as int]);
            return false;
        }
        i += 1;
    }
    assert(rule_view(*a) =~= rule_view(*b));
    true
}

/// Whether `rules` holds a rule with the same fields as `r`.
pub fn rules_contain(rules: &Vec<Vec<String>>, r: &Vec<String>) -> (b: bool)
    ensures
        b == rules_view(*rules).contains(rule_view(*r)),
{
    let mut i: usize = 0;
    while i < rules.len()
        invariant
            i <= rules.len(),
            forall|j: int| 0 <= j < i ==> rule_view(#[trigger] rules@[j]) != rule_view(*r),
        decreases rules.len() - i,
    {
        if rule_eq(&rules[i], r) {
            assert(rules_view(*rules)[i as int] == rule_view(*r));
            return true;
        }
        i += 1;
    }
    assert forall|j: int| 0 <= j < rules_view(*rules).len() implies rules_view(*rules)[j] != rule_view(*r) by {
        assert(rule_view(rules@[j]) != rule_view(*r));
    }
    false
}

impl Policies {
    pub open spec fn wf(&self) -> bool {
        keys_unique(self.families@)
    }

    /// An empty store.
    pub fn new() -> (r: Policies)
        ensures
            r.wf(),
            r@ == Map::<Seq<char>, Seq<RuleView>>::empty(),
    {
        let r = Policies { families: Vec::new() };
        assert(r@ =~= Map::<Seq<char>, Seq<RuleView>>::empty());
        r
    }

    /// The position of family `key`, if the store has it.
    pub fn find(&self, key: &String) -> (r: Option<usize>)
        requires
            self.wf(),
        ensures
            r is None <==> !self@.contains_key(key@),
            r matches Some(i) ==> i < self.families.len() && self.families@[i as int].key@ == key@,
    {
        let mut i: usize = 0;
        while i < self.families.len()
            invariant
                i <= self.families.len(),
                self.wf(),
                forall|j: int| 0 <= j < i ==> (#[trigger] self.families@[j]).key@ != key@,
            decreases self.families.len() - i,
        {
            if self.families[i].key == *key {
                proof {
                    lemma_store_of_index(self.families@, i as int);
                }
                return Some(i);
            }
            i += 1;
        }
        proof {
            if self@.contains_key(key@) {
                let j = choose|j: int| has_key_at(self.families@, key@, j);
                assert(self.families@[j].key@ != key@);
            }
        }
        None
    }

    /// Sets family `key` to `rules`, replacing what it held.
    pub fn insert_family(&mut self, key: String, rules: Vec<Vec<String>>)
        requires
            old(self).wf(),
        ensures
            final(self).wf(),
            final(self)@ == old(self)@.insert(key@, rules_view(rules)),
    {
        let f = Family { key, rules };
        match self.find(&f.key) {
            Some(i) => {
                proof {
                    lemma_store_of_update(self.families@, i as int, f);
                }
                self.families.set(i, f);
            },
            None => {
                proof {
                    lemma_store_of_push(self.families@, f);
                }
                self.families.push(f);
            },
        }
    }
}

} // verus!
