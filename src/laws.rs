//! Laws that tie the mutations together.

use vstd::prelude::*;
use crate::models::{family_of, RuleView, StoreView};
use crate::mutation::{add_rule_outcome, add_rules_outcome, other_than, remove_rule_outcome};

verus! {

/// No family of the store holds one rule twice.
pub open spec fn no_duplicate_rules(m: StoreView) -> bool {
    forall|k: Seq<char>| #[trigger] m.contains_key(k) ==> m[k].no_duplicates()
}

/// The store after the batch additions `ops`, each a family key and a batch,
/// made one after another.
pub open spec fn apply_batches(m: StoreView, ops: Seq<(Seq<char>, Seq<RuleView>)>) -> StoreView
    decreases ops.len(),
{
    if ops.len() == 0 {
        m
    } else {
        add_rules_outcome(apply_batches(m, ops.drop_last()), ops.last().0, ops.last().1).0
    }
}

proof fn lemma_filter_keeps_all(s: Seq<RuleView>, p: spec_fn(RuleView) -> bool)
    requires
        forall|i: int| 0 <= i < s.len() ==> p(#[trigger] s[i]),
    ensures
        s.filter(p) == s,
    decreases s.len(),
{
    reveal(Seq::filter);
    if s.len() > 0 {
        lemma_filter_keeps_all(s.drop_last(), p);
        assert(s.drop_last().push(s.last()) =~= s);
    }
}

/// Removing a rule that the family does not hold reports that nothing was
/// removed and leaves the store as it was.
pub proof fn lemma_remove_absent_rule_changes_nothing(m: StoreView, k: Seq<char>, r: RuleView)
    requires
        !family_of(m, k).contains(r),
    ensures
        remove_rule_outcome(m, k, r) == (m, false),
{
    if m.contains_key(k) {
        assert forall|i: int| 0 <= i < m[k].len() implies (other_than(r))(#[trigger] m[k][i]) by {
            assert(m[k][i] != r);
        }
        lemma_filter_keeps_all(m[k], other_than(r));
        assert(m.insert(k, m[k]) =~= m);
    }
}

/// Adding one rule is adding a batch that holds just that rule.
pub proof fn lemma_add_rule_is_batch_of_one(m: StoreView, k: Seq<char>, r: RuleView)
    ensures
        add_rule_outcome(m, k, r) == add_rules_outcome(m, k, seq![r]),
{
    let fam = family_of(m, k);
    assert(seq![r].no_duplicates());
    if fam.contains(r) {
        assert(seq![r][0] == r);
    }
    assert(fam.push(r) =~= fam + seq![r]);
}

/// One batch addition keeps every family free of duplicates.
pub proof fn lemma_add_batch_keeps_no_duplicates(m: StoreView, k: Seq<char>, rs: Seq<RuleView>)
    requires
        no_duplicate_rules(m),
    ensures
        no_duplicate_rules(add_rules_outcome(m, k, rs).0),
{
    let (m2, added) = add_rules_outcome(m, k, rs);
    if added {
        let fam = family_of(m, k);
        let s = fam + rs;
        assert(fam.no_duplicates());
        assert forall|i: int, j: int| 0 <= i < s.len() && 0 <= j < s.len() && i != j implies s[i] != s[j] by {
            let n = fam.len() as int;
            if i < n && j >= n {
                assert(!fam.contains(rs[j - n]));
            } else if i >= n && j < n {
                assert(!fam.contains(rs[i - n]));
            }
        }
        assert forall|q: Seq<char>| #[trigger] m2.contains_key(q) implies m2[q].no_duplicates() by {
            if q != k {
                assert(m.contains_key(q));
            }
        }
    }
}

/// After any sequence of additions, single or batched, no family holds one
/// rule twice, where the store started without duplicates. A single addition
/// is a batch of one rule.
pub proof fn lemma_additions_keep_no_duplicates(m: StoreView, ops: Seq<(Seq<char>, Seq<RuleView>)>)
    requires
        no_duplicate_rules(m),
    ensures
        no_duplicate_rules(apply_batches(m, ops)),
    decreases ops.len(),
{
    if ops.len() > 0 {
        let prev = ops.drop_last();
        lemma_additions_keep_no_duplicates(m, prev);
        lemma_add_batch_keeps_no_duplicates(apply_batches(m, prev), ops.last().0, ops.last().1);
    }
}

} // verus!
