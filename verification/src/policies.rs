//! The one-shot policy split: policies attached to the two built-in
//! resource types move from the per-resource policy table to the
//! per-resource-type policy table; every other policy stays where it
//! is. Reading and writing the tables is the caller's I/O; the split
//! itself is the pure partition below, applied at most once.

use vstd::assert_seqs_equal;
use vstd::prelude::*;
use vstd::string::StringExecFns;

verus! {

/// One row of the per-resource policy table.
#[derive(Debug)]
pub struct ResourcePolicyRow {
    pub resource_name: String,
    pub action: String,
    pub expression: String,
    pub node_name: String,
}

/// True of the rows the split moves: those whose resource names one of
/// the two built-in resource types.
pub open spec fn is_resource_type_row(r: ResourcePolicyRow) -> bool {
    r.resource_name@ == "tcp-outlet"@ || r.resource_name@ == "tcp-inlet"@
}

/// The predicate selecting the rows that move.
pub open spec fn moved_pred() -> spec_fn(ResourcePolicyRow) -> bool {
    |x: ResourcePolicyRow| is_resource_type_row(x)
}

/// The predicate selecting the rows that stay.
pub open spec fn kept_pred() -> spec_fn(ResourcePolicyRow) -> bool {
    |x: ResourcePolicyRow| !is_resource_type_row(x)
}

/// The split of the policy tables.
pub struct SplitPolicies;

impl SplitPolicies {
    /// Partitions the rows of the per-resource table: first those that
    /// move to the per-resource-type table, then those that stay, each
    /// side in its original order.
    pub fn split_rows(rows: Vec<ResourcePolicyRow>) -> (r: (
        Vec<ResourcePolicyRow>,
        Vec<ResourcePolicyRow>,
    ))
        ensures
            r.0@ == rows@.filter(moved_pred()),
            r.1@ == rows@.filter(kept_pred()),
    {
        let ghost orig = rows@;
        let mut rest = rows;
        let mut moved: Vec<ResourcePolicyRow> = Vec::new();
        let mut kept: Vec<ResourcePolicyRow> = Vec::new();
        let ghost mut i: int = 0;
        proof {
            reveal(Seq::filter);
            assert(orig.take(0).len() == 0);
        }
        while rest.len() > 0
            invariant
                0 <= i <= orig.len(),
                rest@ == orig.skip(i),
                moved@ == orig.take(i).filter(moved_pred()),
                kept@ == orig.take(i).filter(kept_pred()),
            decreases rest@.len(),
        {
            let row = rest.remove(0);
            proof {
                assert(row == orig[i]);
                assert_seqs_equal!(rest@, orig.skip(i + 1));
            }
            let moves = row.resource_name == String::from_str("tcp-outlet")
                || row.resource_name == String::from_str("tcp-inlet");
            proof {
                if row.resource_name@ == "tcp-outlet"@ || row.resource_name@ == "tcp-inlet"@ {
                    assert(moves);
                }
                assert(moves == is_resource_type_row(row));
            }
            if moves {
                moved.push(row);
            } else {
                kept.push(row);
            }
            proof {
                reveal_with_fuel(Seq::filter, 3);
                let one = seq![orig[i]];
                assert_seqs_equal!(one.drop_last(), Seq::<ResourcePolicyRow>::empty());
                assert(one.last() == orig[i]);
                assert(Seq::<ResourcePolicyRow>::empty().filter(moved_pred())
                    == Seq::<ResourcePolicyRow>::empty());
                assert(Seq::<ResourcePolicyRow>::empty().filter(kept_pred())
                    == Seq::<ResourcePolicyRow>::empty());
                Seq::filter_distributes_over_add(orig.take(i), one, moved_pred());
                Seq::filter_distributes_over_add(orig.take(i), one, kept_pred());
                assert_seqs_equal!(orig.take(i + 1), orig.take(i) + one);
                assert_seqs_equal!(moved@, orig.take(i + 1).filter(moved_pred()));
                assert_seqs_equal!(kept@, orig.take(i + 1).filter(kept_pred()));
                i = i + 1;
            }
        }
        proof {
            assert_seqs_equal!(orig.take(i), orig);
        }
        (moved, kept)
    }
}

} // verus!
