//! Filtered loading: which rules of a store reach the enforcement model.

use vstd::prelude::*;
use vstd::string::StrSliceExecFns;
use crate::codec::AdapterError;
use crate::models::{clone_rule, rule_view, rules_view, Family, Policies, RuleView};

verus! {

/// The half of a model that a rule family belongs to.
#[derive(PartialEq, Eq, Structural, Clone, Copy, Debug)]
pub enum Section {
    /// Families whose key starts with 'p'.
    Permission,
    /// Every other family, conventionally those whose key starts with 'g'.
    Grouping,
}

/// The section of a non-empty family key, told by its first character.
pub open spec fn section_spec(key: Seq<char>) -> Section {
    if key[0] == 'p' {
        Section::Permission
    } else {
        Section::Grouping
    }
}

/// The section of family `key`; none for an empty key.
pub fn section_of(key: &str) -> (r: Option<Section>)
    ensures
        r is None <==> key@.len() == 0,
        r matches Some(s) ==> s == section_spec(key@),
{
    if key.is_empty() {
        None
    } else if key.get_char(0) == 'p' {
        Some(Section::Permission)
    } else {
        Some(Section::Grouping)
    }
}

/// Positional templates, one for each section. An empty entry leaves its
/// field free; any other entry must equal the rule's field at its position.
#[derive(Clone, Debug)]
pub struct Filter {
    pub p: Vec<String>,
    pub g: Vec<String>,
}

/// One rule that a load hands to the model: its section letter, its family
/// key and its fields.
#[derive(Clone, Debug)]
pub struct PolicyLine {
    pub sec: char,
    pub ptype: String,
    pub rule: Vec<String>,
}

/// What a load yields: the admitted rules in order, and whether any rule was left out.
#[derive(Clone, Debug)]
pub struct Loaded {
    pub lines: Vec<PolicyLine>,
    pub filtered: bool,
}

pub type LineView = (char, Seq<char>, RuleView);

pub type FamilyView = (Seq<char>, Seq<RuleView>);

pub open spec fn line_view(l: PolicyLine) -> LineView {
    (l.sec, l.ptype@, rule_view(l.rule))
}

pub open spec fn lines_view(ls: Vec<PolicyLine>) -> Seq<LineView> {
    ls@.map_values(|l: PolicyLine| line_view(l))
}

/// The families of a store in the order that it holds them.
pub open spec fn families_view(p: Policies) -> Seq<FamilyView> {
    p.families@.map_values(|f: Family| (f.key@, rules_view(f.rules)))
}

/// Whether a rule agrees with each non-empty entry of a template; a rule too
/// short to have the field at such an entry does not.
pub open spec fn admits(t: Seq<Seq<char>>, r: RuleView) -> bool {
    forall|i: int| 0 <= i < t.len() && (#[trigger] t[i]).len() > 0 ==> i < r.len() && r[i] == t[i]
}

/// The template that applies to family `key`.
pub open spec fn template_for(p: Seq<Seq<char>>, g: Seq<Seq<char>>, key: Seq<char>) -> Seq<Seq<char>> {
    if section_spec(key) == Section::Permission {
        p
    } else {
        g
    }
}

/// The admitted rules of one family, in order, as lines.
pub open spec fn family_lines(key: Seq<char>, rules: Seq<RuleView>, t: Seq<Seq<char>>) -> Seq<LineView>
    decreases rules.len(),
{
    if rules.len() == 0 {
        Seq::empty()
    } else {
        let prev = family_lines(key, rules.drop_last(), t);
        if admits(t, rules.last()) {
            prev.push((key[0], key, rules.last()))
        } else {
            prev
        }
    }
}

/// The admitted rules of all families, family after family.
pub open spec fn store_lines(fs: Seq<FamilyView>, p: Seq<Seq<char>>, g: Seq<Seq<char>>) -> Seq<LineView>
    decreases fs.len(),
{
    if fs.len() == 0 {
        Seq::empty()
    } else {
        store_lines(fs.drop_last(), p, g) + family_lines(fs.last().0, fs.last().1, template_for(p, g, fs.last().0))
    }
}

/// Whether rule `b` of family `a` is left out by the filter.
pub open spec fn rejected(fs: Seq<FamilyView>, p: Seq<Seq<char>>, g: Seq<Seq<char>>, a: int, b: int) -> bool {
    0 <= a < fs.len() && 0 <= b < fs[a].1.len() && !admits(template_for(p, g, fs[a].0), fs[a].1[b])
}

/// Whether some rule of the families is left out by the filter.
pub open spec fn rejects_some(fs: Seq<FamilyView>, p: Seq<Seq<char>>, g: Seq<Seq<char>>) -> bool {
    exists|a: int, b: int| #[trigger] rejected(fs, p, g, a, b)
}

/// Whether some rule before rule `j` of family `i` is left out by the filter.
pub open spec fn rejects_before(fs: Seq<FamilyView>, p: Seq<Seq<char>>, g: Seq<Seq<char>>, i: int, j: int) -> bool {
    exists|a: int, b: int| #[trigger] rejected(fs, p, g, a, b) && (a < i || (a == i && b < j))
}

/// Whether some family has an empty key.
pub open spec fn has_empty_key(fs: Seq<FamilyView>) -> bool {
    exists|a: int| 0 <= a < fs.len() && (#[trigger] fs[a]).0.len() == 0
}

/// Whether rule `r` agrees with each non-empty entry of template `t`.
pub fn rule_admitted(t: &Vec<String>, r: &Vec<String>) -> (b: bool)
    ensures
        b == admits(rule_view(*t), rule_view(*r)),
{
    let mut i: usize = 0;
    while i < t.len()
        invariant
            i <= t.len(),
            forall|j: int| 0 <= j < i && (#[trigger] t@[j])@.len() > 0 ==> j < r@.len() && r@[j]@ == t@[j]@,
        decreases t.len() - i,
    {
        if !t[i].as_str().is_empty() {
            if i >= r.len() || r[i] != t[i] {
                assert(rule_view(*t)[i as int].len() > 0);
                return false;
            }
        }
        i += 1;
    }
    assert forall|j: int| 0 <= j < rule_view(*t).len() && (#[trigger] rule_view(*t)[j]).len() > 0
        implies j < rule_view(*r).len() && rule_view(*r)[j] == rule_view(*t)[j] by {
        assert(t@[j]@.len() > 0);
    }
    true
}

/// The rules of `store` that `filter` admits, family after family and in
/// order within each family, and whether it left any rule out. A family with
/// an empty key names no section and fails the load.
pub fn load_lines(store: &Policies, filter: &Filter) -> (r: Result<Loaded, AdapterError>)
    ensures
        r is Err <==> has_empty_key(families_view(*store)),
        r matches Err(e) ==> e == AdapterError::InvalidFamilyKey,
        r matches Ok(l) ==> lines_view(l.lines) == store_lines(
            families_view(*store),
            rule_view(filter.p),
            rule_view(filter.g),
        ) && l.filtered == rejects_some(families_view(*store), rule_view(filter.p), rule_view(filter.g)),
{
    let ghost fs = families_view(*store);
    let ghost pv = rule_view(filter.p);
    let ghost gv = rule_view(filter.g);
    let mut lines: Vec<PolicyLine> = Vec::new();
    let mut filtered = false;
    let mut i: usize = 0;
    while i < store.families.len()
        invariant
            i <= store.families.len(),
            fs == families_view(*store),
            pv == rule_view(filter.p),
            gv == rule_view(filter.g),
            lines_view(lines) == store_lines(fs.take(i as int), pv, gv),
            filtered == rejects_before(fs, pv, gv, i as int, 0),
            forall|a: int| 0 <= a < i ==> (#[trigger] fs[a]).0.len() > 0,
        decreases store.families.len() - i,
    {
        let fam = &store.families[i];
        assert(fs[i as int] == (fam.key@, rules_view(fam.rules)));
        let sec = match section_of(fam.key.as_str()) {
            None => {
                assert(fs[i as int].0.len() == 0);
                return Err(AdapterError::InvalidFamilyKey);
            },
            Some(s) => s,
        };
        let c = fam.key.as_str().get_char(0);
        let t = match sec {
            Section::Permission => &filter.p,
            Section::Grouping => &filter.g,
        };
        let ghost key = fs[i as int].0;
        let ghost rs = fs[i as int].1;
        let ghost tv = template_for(pv, gv, key);
        assert(rule_view(*t) == tv);
        let ghost base = lines_view(lines);
        let mut j: usize = 0;
        while j < fam.rules.len()
            invariant
                i < store.families.len(),
                *fam == store.families@[i as int],
                j <= fam.rules.len(),
                fs == families_view(*store),
                fs[i as int] == (fam.key@, rules_view(fam.rules)),
                key == fam.key@,
                key.len() > 0,
                c == key[0],
                rs == rules_view(fam.rules),
                tv == template_for(pv, gv, key),
                rule_view(*t) == tv,
                lines_view(lines) == base + family_lines(key, rs.take(j as int), tv),
                filtered == rejects_before(fs, pv, gv, i as int, j as int),
            decreases fam.rules.len() - j,
        {
            assert(rs.take(j + 1).drop_last() =~= rs.take(j as int));
            assert(rs.take(j + 1).last() == rs[j as int]);
            if rule_admitted(t, &fam.rules[j]) {
                let ghost before = lines_view(lines);
                let line = PolicyLine { sec: c, ptype: fam.key.clone(), rule: clone_rule(&fam.rules[j]) };
                lines.push(line);
                assert(lines_view(lines) =~= before.push(line_view(line)));
                assert(!rejected(fs, pv, gv, i as int, j as int));
                assert(rejects_before(fs, pv, gv, i as int, j + 1) == rejects_before(fs, pv, gv, i as int, j as int)) by {
                    if rejects_before(fs, pv, gv, i as int, j + 1) {
                        let (a, b) = choose|a: int, b: int| #[trigger] rejected(fs, pv, gv, a, b) && (a < i || (a == i && b < j + 1));
                        assert(rejected(fs, pv, gv, a, b) && (a < i || (a == i && b < j)));
                    }
                }
            } else {
                filtered = true;
                assert(rejected(fs, pv, gv, i as int, j as int));
            }
            j += 1;
        }
        proof {
            assert(rs.take(j as int) =~= rs);
            assert(fs.take(i + 1).drop_last() =~= fs.take(i as int));
            assert(fs.take(i + 1).last() == fs[i as int]);
            assert(rejects_before(fs, pv, gv, i + 1, 0) == rejects_before(fs, pv, gv, i as int, j as int)) by {
                if rejects_before(fs, pv, gv, i + 1, 0) {
                    let (a, b) = choose|a: int, b: int| #[trigger] rejected(fs, pv, gv, a, b) && (a < i + 1 || (a == i + 1 && b < 0));
                    assert(rejected(fs, pv, gv, a, b) && (a < i || (a == i && b < j)));
                }
                if rejects_before(fs, pv, gv, i as int, j as int) {
                    let (a, b) = choose|a: int, b: int| #[trigger] rejected(fs, pv, gv, a, b) && (a < i || (a == i && b < j));
                    assert(rejected(fs, pv, gv, a, b) && (a < i + 1 || (a == i + 1 && b < 0)));
                }
            }
        }
        i += 1;
    }
    proof {
        assert(fs.take(i as int) =~= fs);
        if rejects_some(fs, pv, gv) {
            let (a, b) = choose|a: int, b: int| #[trigger] rejected(fs, pv, gv, a, b);
            assert(rejected(fs, pv, gv, a, b) && (a < i || (a == i && b < 0)));
        }
        assert(!has_empty_key(fs));
    }
    Ok(Loaded { lines, filtered })
}

} // verus!
