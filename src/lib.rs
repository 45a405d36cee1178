//! The 1R ("one rule") baseline rule learner for categorical attributes.
//!
//! For every attribute (column) of a table of examples, a rule is built that
//! maps each distinct value of the attribute to the most frequent class among
//! the rows holding that value. The attribute whose rule scores best on the
//! training data is selected.
//!
//! Attribute and class values are any `Copy` type whose `==` is plain
//! equality of values (see `eq_is_identity`).
use vstd::prelude::*;
use vstd::std_specs::cmp::PartialEqSpec;

pub mod evaluation;
pub mod induction;
pub mod laws;
pub mod table;

pub use evaluation::{evaluate, interpret};
pub use induction::{discover, generate_hypotheses, generate_rule_for_attribute};
pub use table::Table;

verus! {

/// `==` on `T` is specified, and agrees with equality of values.
pub open spec fn eq_is_identity<T: PartialEq>() -> bool {
    &&& T::obeys_eq_spec()
    &&& forall|x: T, y: T| #[trigger] x.eq_spec(&y) <==> (x == y)
}

/// A prediction based on an attribute value.
#[derive(Debug, Clone, Copy, PartialEq, Eq, Hash)]
pub struct Case<A, C> {
    /// The attribute value this case matches against.
    pub attribute_value: A,
    /// The predicted class when the attribute value is matched.
    pub predicted_class: C,
}

/// Fraction of correct predictions out of all rows of a data set, kept as
/// the two counts. An empty data set has accuracy zero.
#[derive(Debug, Clone, Copy, PartialEq, Eq)]
pub struct Accuracy {
    /// Rows whose class was predicted correctly.
    pub correct: usize,
    /// All rows.
    pub total: usize,
}

impl Accuracy {
    /// The fraction lies in [0, 1].
    pub open spec fn wf(self) -> bool {
        self.correct <= self.total
    }

    /// The denominator of the fraction; an empty data set counts as `0 / 1`.
    pub open spec fn denom(self) -> int {
        if self.total == 0 { 1 } else { self.total as int }
    }

    /// The fraction is exactly zero.
    pub open spec fn is_zero(self) -> bool {
        self.correct == 0
    }

    /// The fraction is exactly one: every row of a non-empty data set is right.
    pub open spec fn is_one(self) -> bool {
        self.total > 0 && self.correct == self.total
    }

    /// `self` is a strictly larger fraction than `other`.
    pub open spec fn greater(self, other: Accuracy) -> bool {
        self.correct * other.denom() > other.correct * self.denom()
    }

    /// Whether `self` is a strictly larger fraction than `other`.
    pub fn is_greater_than(&self, other: &Accuracy) -> (r: bool)
        requires
            self.wf(),
            other.wf(),
        ensures
            r == self.greater(*other),
    {
        let ld: u128 = if other.total == 0 { 1 } else { other.total as u128 };
        let rd: u128 = if self.total == 0 { 1 } else { self.total as u128 };
        let a = self.correct as u128;
        let b = other.correct as u128;
        proof {
            assert(a * ld <= 0xffff_ffff_ffff_ffffu128 * 0xffff_ffff_ffff_ffffu128) by (nonlinear_arith)
                requires a <= 0xffff_ffff_ffff_ffffu128, ld <= 0xffff_ffff_ffff_ffffu128;
            assert(b * rd <= 0xffff_ffff_ffff_ffffu128 * 0xffff_ffff_ffff_ffffu128) by (nonlinear_arith)
                requires b <= 0xffff_ffff_ffff_ffffu128, rd <= 0xffff_ffff_ffff_ffffu128;
        }
        a * ld > b * rd
    }
}

/// The rule for an attribute, together with its accuracy on the training data.
#[derive(Debug, Clone, PartialEq, Eq)]
pub struct Rule<A, C> {
    /// The conditions and actions (IF ... THEN) for an attribute.
    pub cases: Vec<Case<A, C>>,
    /// The accuracy of the cases on the training data used to build them.
    pub accuracy: Accuracy,
}

} // verus!
