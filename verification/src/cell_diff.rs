//! Cell-level comparison with configurable relaxations.

use crate::value::cell_case_eq;
use crate::value::cell_eq;
use crate::value::cell_tol_eq;
use crate::value::cell_ws_eq;
use crate::value::CellV;
use crate::value::CellValue;
use vstd::prelude::*;

verus! {

/// A cell comparator: exact equality, optionally relaxed by a numeric
/// tolerance (given as the bit pattern of a double), ASCII case folding, or
/// trimming of surrounding white space.
#[derive(Debug, Clone, Copy)]
pub struct CellComparator {
    pub ignore_case: bool,
    pub ignore_whitespace: bool,
    pub numeric_tolerance: Option<u64>,
}

/// What the comparator reports: a disjunction of the enabled relaxations and
/// exact equality, so enabling a relaxation can only let more pairs through.
pub open spec fn comparator_eq(cmp: CellComparator, a: CellV, b: CellV) -> bool {
    ||| (cmp.numeric_tolerance matches Some(t) && cell_tol_eq(a, b, t))
    ||| (cmp.ignore_case && cell_case_eq(a, b))
    ||| (cmp.ignore_whitespace && cell_ws_eq(a, b))
    ||| cell_eq(a, b)
}

impl CellComparator {
    /// A comparator with the given relaxations.
    pub fn new(ignore_case: bool, ignore_whitespace: bool, numeric_tolerance: Option<u64>) -> (c:
        CellComparator)
        ensures
            c.ignore_case == ignore_case,
            c.ignore_whitespace == ignore_whitespace,
            c.numeric_tolerance == numeric_tolerance,
    {
        CellComparator { ignore_case, ignore_whitespace, numeric_tolerance }
    }

    /// Whether the two cells are equal under the configured relaxations.
    pub fn equal(&self, a: &CellValue, b: &CellValue) -> (r: bool)
        ensures
            r == comparator_eq(*self, a@, b@),
    {
        match self.numeric_tolerance {
            Some(t) => {
                if a.equals_with_tolerance(b, t) {
                    return true;
                }
            },
            None => {},
        }
        if self.ignore_case {
            if a.equals_ignore_case(b) {
                return true;
            }
        }
        if self.ignore_whitespace {
            if a.equals_ignore_whitespace(b) {
                return true;
            }
        }
        a == b
    }
}

impl Default for CellComparator {
    /// The default comparator compares exactly, with no relaxation enabled.
    fn default() -> (c: CellComparator)
        ensures
            !c.ignore_case,
            !c.ignore_whitespace,
            c.numeric_tolerance matches None,
    {
        CellComparator { ignore_case: false, ignore_whitespace: false, numeric_tolerance: None }
    }
}

/// Comparator monotonicity: whatever relaxations are configured, a pair that
/// exact equality accepts is also accepted by the comparator, since every
/// relaxation only adds to the exact rule.
pub proof fn lemma_comparator_monotone(cmp: CellComparator, a: CellV, b: CellV)
    requires
        cell_eq(a, b),
    ensures
        comparator_eq(cmp, a, b),
{
}

} // verus!
