//! Applying cases to attribute values, and scoring them on a data set.
use vstd::prelude::*;
use vstd::std_specs::cmp::PartialEqSpec;

use crate::{eq_is_identity, Accuracy, Case};

verus! {

/// The predicted class of the first case in `cases` whose attribute value is `v`.
pub open spec fn lookup<A, C>(cases: Seq<Case<A, C>>, v: A) -> Option<C>
    decreases cases.len(),
{
    if cases.len() == 0 {
        None
    } else if cases[0].attribute_value == v {
        Some(cases[0].predicted_class)
    } else {
        lookup(cases.drop_first(), v)
    }
}

/// The value behind an optional reference.
pub open spec fn deref_option<C>(o: Option<&C>) -> Option<C> {
    match o {
        Some(c) => Some(*c),
        None => None,
    }
}

/// Number of the first `n` rows whose class `cases` predicts correctly.
pub open spec fn correct_count<A, C>(cases: Seq<Case<A, C>>, values: Seq<A>, classes: Seq<C>, n: nat) -> nat
    decreases n,
{
    if n == 0 {
        0
    } else {
        correct_count(cases, values, classes, (n - 1) as nat) + if lookup(cases, values[n - 1]) == Some(
            classes[n - 1],
        ) {
            1nat
        } else {
            0nat
        }
    }
}

/// The accuracy of `cases` on the rows given by `values` and `classes`.
pub open spec fn accuracy_of<A, C>(cases: Seq<Case<A, C>>, values: Seq<A>, classes: Seq<C>) -> Accuracy {
    Accuracy {
        correct: correct_count(cases, values, classes, values.len()) as usize,
        total: values.len() as usize,
    }
}

pub(crate) proof fn lemma_correct_count_bounded<A, C>(cases: Seq<Case<A, C>>, values: Seq<A>, classes: Seq<C>, n: nat)
    ensures
        correct_count(cases, values, classes, n) <= n,
    decreases n,
{
    if n > 0 {
        lemma_correct_count_bounded(cases, values, classes, (n - 1) as nat);
    }
}

/// Apply a set of cases to an attribute value to get a prediction.
pub fn interpret<'c, A: PartialEq, C>(cases: &'c [Case<A, C>], attribute_value: &A) -> (r: Option<&'c C>)
    requires
        eq_is_identity::<A>(),
    ensures
        deref_option(r) == lookup(cases@, *attribute_value),
        (forall|i: int| 0 <= i < cases@.len() ==> cases@[i].attribute_value != *attribute_value) ==> r
            is None,
        forall|i: int|
            0 <= i < cases@.len() && cases@[i].attribute_value == *attribute_value && (forall|j: int|
                0 <= j < cases@.len() && j != i ==> cases@[j].attribute_value != *attribute_value)
                ==> deref_option(r) == Some(cases@[i].predicted_class),
{
    let mut k: usize = 0;
    while k < cases.len()
        invariant
            eq_is_identity::<A>(),
            k <= cases@.len(),
            forall|j: int| 0 <= j < k ==> cases@[j].attribute_value != *attribute_value,
        decreases cases.len() - k,
    {
        if cases[k].attribute_value == *attribute_value {
            proof {
                lemma_lookup_at(cases@, *attribute_value, k as int);
            }
            return Some(&cases[k].predicted_class);
        }
        k = k + 1;
    }
    proof {
        lemma_lookup_absent(cases@, *attribute_value);
    }
    None
}

/// Where no case before index `k` matches and case `k` does, `lookup` gives case `k`.
pub(crate) proof fn lemma_lookup_at<A, C>(cases: Seq<Case<A, C>>, v: A, k: int)
    requires
        0 <= k < cases.len(),
        cases[k].attribute_value == v,
        forall|j: int| 0 <= j < k ==> cases[j].attribute_value != v,
    ensures
        lookup(cases, v) == Some(cases[k].predicted_class),
        forall|i: int|
            0 <= i < cases.len() && cases[i].attribute_value == v && (forall|j: int|
                0 <= j < cases.len() && j != i ==> cases[j].attribute_value != v)
                ==> i == k,
    decreases k,
{
    if k > 0 {
        lemma_lookup_at(cases.drop_first(), v, k - 1);
    }
}

/// Where no case matches, `lookup` gives nothing.
proof fn lemma_lookup_absent<A, C>(cases: Seq<Case<A, C>>, v: A)
    requires
        forall|j: int| 0 <= j < cases.len() ==> cases[j].attribute_value != v,
    ensures
        lookup(cases, v) is None,
    decreases cases.len(),
{
    if cases.len() > 0 {
        lemma_lookup_absent(cases.drop_first(), v);
    }
}

/// Evaluate cases (a rule) against a data set, to get its accuracy.
///
/// Accuracy is the number of correct predictions over the number of rows; a
/// row whose value no case matches counts as wrong.
pub fn evaluate<A: PartialEq, C: PartialEq>(cases: &[Case<A, C>], attribute_values: &[A], classes: &[C]) -> (r:
    Accuracy)
    requires
        eq_is_identity::<A>(),
        eq_is_identity::<C>(),
        attribute_values@.len() == classes@.len(),
    ensures
        r == accuracy_of(cases@, attribute_values@, classes@),
        r.wf(),
        r.total == attribute_values@.len(),
        attribute_values@.len() == 0 ==> r.is_zero(),
{
    let mut correct: usize = 0;
    let mut i: usize = 0;
    while i < attribute_values.len()
        invariant
            eq_is_identity::<A>(),
            eq_is_identity::<C>(),
            attribute_values@.len() == classes@.len(),
            i <= attribute_values@.len(),
            correct == correct_count(cases@, attribute_values@, classes@, i as nat),
            correct <= i,
        decreases attribute_values.len() - i,
    {
        match interpret(cases, &attribute_values[i]) {
            None => {},
            Some(predicted) => {
                if *predicted == classes[i] {
                    correct = correct + 1;
                }
            },
        }
        i = i + 1;
    }
    proof {
        lemma_correct_count_bounded(cases@, attribute_values@, classes@, i as nat);
    }
    Accuracy { correct, total: attribute_values.len() }
}

} // verus!
