//! Building one rule per attribute, and picking the best.
use vstd::prelude::*;
use vstd::std_specs::cmp::PartialEqSpec;

use crate::evaluation::{accuracy_of, evaluate};
use crate::table::Table;
use crate::{eq_is_identity, Accuracy, Case, Rule};

verus! {

/// The distinct elements of `s`, in order of first occurrence.
pub open spec fn distinct<T>(s: Seq<T>) -> Seq<T>
    decreases s.len(),
{
    if s.len() == 0 {
        Seq::empty()
    } else {
        let d = distinct(s.drop_last());
        if d.contains(s.last()) {
            d
        } else {
            d.push(s.last())
        }
    }
}

/// How often `x` occurs in `s`.
pub open spec fn occurrences<T>(s: Seq<T>, x: T) -> nat
    decreases s.len(),
{
    if s.len() == 0 {
        0
    } else {
        occurrences(s.drop_last(), x) + if s.last() == x {
            1nat
        } else {
            0nat
        }
    }
}

/// The classes of those of the first `n` rows whose attribute value is `v`, in row order.
pub open spec fn classes_with<A, C>(values: Seq<A>, classes: Seq<C>, v: A, n: nat) -> Seq<C>
    decreases n,
{
    if n == 0 {
        Seq::empty()
    } else {
        let p = classes_with(values, classes, v, (n - 1) as nat);
        if values[n - 1] == v {
            p.push(classes[n - 1])
        } else {
            p
        }
    }
}

/// Of the candidates `d`, the first one that occurs most often in `s`.
pub open spec fn first_most_frequent<T>(d: Seq<T>, s: Seq<T>) -> T
    decreases d.len(),
{
    if d.len() <= 1 {
        d[0]
    } else {
        let b = first_most_frequent(d.drop_last(), s);
        if occurrences(s, d.last()) > occurrences(s, b) {
            d.last()
        } else {
            b
        }
    }
}

/// The most frequent element of `s`; of several equally frequent ones, the
/// one that occurs first.
pub open spec fn majority<T>(s: Seq<T>) -> T {
    first_most_frequent(distinct(s), s)
}

/// The prediction for attribute value `v`: the majority class of its rows.
pub open spec fn prediction<A, C>(values: Seq<A>, classes: Seq<C>, v: A) -> C {
    majority(classes_with(values, classes, v, values.len()))
}

/// One case per distinct attribute value, in order of first occurrence.
pub open spec fn rule_cases<A, C>(values: Seq<A>, classes: Seq<C>) -> Seq<Case<A, C>> {
    distinct(values).map_values(
        |v: A| Case { attribute_value: v, predicted_class: prediction(values, classes, v) },
    )
}

impl<A, C> View for Rule<A, C> {
    type V = (Seq<Case<A, C>>, Accuracy);

    /// The rule's cases and accuracy as values.
    open spec fn view(&self) -> (Seq<Case<A, C>>, Accuracy) {
        (self.cases@, self.accuracy)
    }
}

/// The rule that the 1R algorithm builds from one attribute column.
pub open spec fn rule_of<A, C>(values: Seq<A>, classes: Seq<C>) -> (Seq<Case<A, C>>, Accuracy) {
    (rule_cases(values, classes), accuracy_of(rule_cases(values, classes), values, classes))
}

pub(crate) proof fn lemma_push_contains<T>(t: Seq<T>, l: T, x: T)
    ensures
        t.push(l).contains(x) <==> (t.contains(x) || x == l),
{
    if t.push(l).contains(x) && x != l {
        let i = choose|i: int| 0 <= i < t.len() + 1 && t.push(l)[i] == x;
        assert(i < t.len());
        assert(t[i] == x);
    }
    if t.contains(x) {
        let i = choose|i: int| 0 <= i < t.len() && t[i] == x;
        assert(t.push(l)[i] == x);
    }
    if x == l {
        assert(t.push(l)[t.len() as int] == x);
    }
}

pub(crate) proof fn lemma_distinct_no_dup<T>(s: Seq<T>)
    ensures
        distinct(s).no_duplicates(),
        forall|x: T| distinct(s).contains(x) <==> s.contains(x),
    decreases s.len(),
{
    if s.len() > 0 {
        let p = s.drop_last();
        let l = s.last();
        lemma_distinct_no_dup(p);
        assert(s =~= p.push(l));
        assert forall|x: T| distinct(s).contains(x) <==> s.contains(x) by {
            lemma_push_contains(p, l, x);
            lemma_push_contains(distinct(p), l, x);
        }
    }
}

proof fn lemma_distinct_nonempty<T>(s: Seq<T>)
    requires
        s.len() > 0,
    ensures
        distinct(s).len() > 0,
{
    lemma_distinct_no_dup(s);
    assert(s.contains(s[0]));
}

proof fn lemma_distinct_step<T>(s: Seq<T>, i: int)
    requires
        0 <= i < s.len(),
    ensures
        distinct(s.take(i + 1)) == if distinct(s.take(i)).contains(s[i]) {
            distinct(s.take(i))
        } else {
            distinct(s.take(i)).push(s[i])
        },
{
    assert(s.take(i + 1).drop_last() =~= s.take(i));
}

proof fn lemma_occurrences_step<T>(s: Seq<T>, x: T)
    ensures
        forall|y: T| #[trigger] occurrences(s.push(x), y) == occurrences(s, y) + if x == y {
            1nat
        } else {
            0nat
        },
{
    assert(s.push(x).drop_last() =~= s);
}

pub(crate) proof fn lemma_classes_with_nonempty<A, C>(values: Seq<A>, classes: Seq<C>, v: A, n: nat, i: int)
    requires
        0 <= i < n,
        values[i] == v,
    ensures
        classes_with(values, classes, v, n).len() > 0,
    decreases n,
{
    if i < n - 1 {
        lemma_classes_with_nonempty(values, classes, v, (n - 1) as nat, i);
    }
}

/// The index of the first element of `s` equal to `x`, if any.
fn position<T: PartialEq + Copy>(s: &Vec<T>, x: &T) -> (r: Option<usize>)
    requires
        eq_is_identity::<T>(),
    ensures
        match r {
            Some(k) => k < s@.len() && s@[k as int] == *x && forall|j: int| 0 <= j < k ==> s@[j] != *x,
            None => !s@.contains(*x),
        },
{
    let mut k: usize = 0;
    while k < s.len()
        invariant
            eq_is_identity::<T>(),
            k <= s@.len(),
            forall|j: int| 0 <= j < k ==> s@[j] != *x,
        decreases s.len() - k,
    {
        if s[k] == *x {
            return Some(k);
        }
        k = k + 1;
    }
    None
}

/// The distinct values of `values`, in order of first occurrence.
fn unique_values<T: PartialEq + Copy>(values: &[T]) -> (r: Vec<T>)
    requires
        eq_is_identity::<T>(),
    ensures
        r@ == distinct(values@),
{
    let mut out: Vec<T> = Vec::new();
    let mut i: usize = 0;
    while i < values.len()
        invariant
            eq_is_identity::<T>(),
            i <= values@.len(),
            out@ == distinct(values@.take(i as int)),
        decreases values.len() - i,
    {
        proof {
            lemma_distinct_step(values@, i as int);
        }
        let v = values[i];
        match position(&out, &v) {
            Some(_) => {},
            None => {
                out.push(v);
            },
        }
        i = i + 1;
    }
    assert(values@.take(i as int) =~= values@);
    out
}

/// The majority class of the rows whose attribute value is `v`; of equally
/// frequent classes, the one seen first.
fn majority_class<A: PartialEq + Copy, C: PartialEq + Copy>(attribute_values: &[A], classes: &[C], v: &A) -> (r: C)
    requires
        eq_is_identity::<A>(),
        eq_is_identity::<C>(),
        attribute_values@.len() == classes@.len(),
        attribute_values@.contains(*v),
    ensures
        r == prediction(attribute_values@, classes@, *v),
{
    let ghost values = attribute_values@;
    let ghost cls = classes@;
    // Distinct classes in order of first occurrence, and how often each was seen.
    let mut seen: Vec<C> = Vec::new();
    let mut counts: Vec<usize> = Vec::new();
    let mut i: usize = 0;
    while i < attribute_values.len()
        invariant
            eq_is_identity::<A>(),
            eq_is_identity::<C>(),
            values == attribute_values@,
            cls == classes@,
            values.len() == cls.len(),
            i <= values.len(),
            seen@ == distinct(classes_with(values, cls, *v, i as nat)),
            counts@.len() == seen@.len(),
            forall|k: int|
                0 <= k < seen@.len() ==> counts@[k] == occurrences(
                    classes_with(values, cls, *v, i as nat),
                    #[trigger] seen@[k],
                ),
            forall|k: int| 0 <= k < counts@.len() ==> counts@[k] <= i,
        decreases attribute_values.len() - i,
    {
        let ghost before = classes_with(values, cls, *v, i as nat);
        if attribute_values[i] == *v {
            let c = classes[i];
            proof {
                assert(before.push(c).drop_last() =~= before);
                lemma_occurrences_step(before, c);
                lemma_distinct_no_dup(before);
                lemma_distinct_no_dup(before.push(c));
            }
            match position(&seen, &c) {
                Some(k) => {
                    counts.set(k, counts[k] + 1);
                },
                None => {
                    seen.push(c);
                    counts.push(1);
                    proof {
                        assert(!before.contains(c));
                        lemma_occurrences_zero(before, c);
                    }
                },
            }
        }
        i = i + 1;
    }
    let ghost s = classes_with(values, cls, *v, values.len());
    proof {
        let j = choose|j: int| 0 <= j < values.len() && values[j] == *v;
        lemma_classes_with_nonempty(values, cls, *v, values.len(), j);
        lemma_distinct_nonempty(s);
    }
    let mut best: usize = 0;
    let mut k: usize = 1;
    while k < seen.len()
        invariant
            seen@ == distinct(s),
            counts@.len() == seen@.len(),
            forall|j: int| 0 <= j < seen@.len() ==> counts@[j] == occurrences(s, #[trigger] seen@[j]),
            1 <= k <= seen@.len(),
            best < k,
            seen@[best as int] == first_most_frequent(seen@.take(k as int), s),
        decreases seen.len() - k,
    {
        proof {
            assert(seen@.take(k + 1).drop_last() =~= seen@.take(k as int));
        }
        if counts[k] > counts[best] {
            best = k;
        }
        k = k + 1;
    }
    proof {
        assert(seen@.take(k as int) =~= seen@);
    }
    seen[best]
}

proof fn lemma_occurrences_zero<T>(s: Seq<T>, x: T)
    requires
        !s.contains(x),
    ensures
        occurrences(s, x) == 0,
    decreases s.len(),
{
    if s.len() > 0 {
        assert(!s.drop_last().contains(x)) by {
            if s.drop_last().contains(x) {
                let i = choose|i: int| 0 <= i < s.len() - 1 && s.drop_last()[i] == x;
                assert(s[i] == x);
            }
        }
        assert(s[s.len() - 1] != x);
        lemma_occurrences_zero(s.drop_last(), x);
    }
}

/// Generate the rule for a single attribute.
///
/// Each distinct attribute value, in order of first occurrence, is mapped to
/// the most frequent class among the rows holding it (of equally frequent
/// classes, the one seen first). The rule is scored on the same rows.
pub fn generate_rule_for_attribute<A: PartialEq + Copy, C: PartialEq + Copy>(
    attribute_values: &[A],
    classes: &[C],
) -> (r: Rule<A, C>)
    requires
        eq_is_identity::<A>(),
        eq_is_identity::<C>(),
        attribute_values@.len() == classes@.len(),
    ensures
        r@ == rule_of(attribute_values@, classes@),
        r.accuracy.wf(),
        r.accuracy.total == attribute_values@.len(),
        forall|i: int, j: int|
            0 <= i < j < r.cases@.len() ==> r.cases@[i].attribute_value != r.cases@[j].attribute_value,
{
    let uniques = unique_values(attribute_values);
    let ghost expected = rule_cases(attribute_values@, classes@);
    proof {
        lemma_distinct_no_dup(attribute_values@);
    }
    let mut cases: Vec<Case<A, C>> = Vec::new();
    let mut j: usize = 0;
    while j < uniques.len()
        invariant
            eq_is_identity::<A>(),
            eq_is_identity::<C>(),
            attribute_values@.len() == classes@.len(),
            uniques@ == distinct(attribute_values@),
            forall|x: A| uniques@.contains(x) <==> attribute_values@.contains(x),
            expected == rule_cases(attribute_values@, classes@),
            j <= uniques@.len(),
            cases@ == expected.take(j as int),
        decreases uniques.len() - j,
    {
        let v = uniques[j];
        assert(uniques@.contains(v));
        let class = majority_class(attribute_values, classes, &v);
        cases.push(Case { attribute_value: v, predicted_class: class });
        assert(cases@ =~= expected.take(j + 1));
        j = j + 1;
    }
    assert(cases@ =~= expected);
    assert forall|i: int, j: int| 0 <= i < j < cases@.len() implies cases@[i].attribute_value
        != cases@[j].attribute_value by {
        assert(uniques@[i] != uniques@[j]);
    }
    let accuracy = evaluate(&cases, attribute_values, classes);
    Rule { cases, accuracy }
}

/// The rule of each attribute column of the table.
pub open spec fn column_rules<A, C>(attributes: Table<A>, classes: Seq<C>) -> Seq<(Seq<Case<A, C>>, Accuracy)> {
    Seq::new(attributes.n_cols as nat, |c: int| rule_of(attributes.column_view(c), classes))
}

/// Generate one rule per attribute column, in column order.
pub fn generate_hypotheses<A: PartialEq + Copy, C: PartialEq + Copy>(attributes: &Table<A>, classes: &[C]) -> (r: Vec<
    Rule<A, C>,
>)
    requires
        eq_is_identity::<A>(),
        eq_is_identity::<C>(),
        attributes.wf(),
        classes@.len() == attributes.n_rows,
    ensures
        r@.len() == attributes.n_cols,
        forall|c: int| 0 <= c < r@.len() ==> #[trigger] r@[c]@ == column_rules(*attributes, classes@)[c],
        forall|c: int| 0 <= c < r@.len() ==> (#[trigger] r@[c]).accuracy.wf(),
{
    let mut hs: Vec<Rule<A, C>> = Vec::new();
    let mut c: usize = 0;
    while c < attributes.n_cols
        invariant
            eq_is_identity::<A>(),
            eq_is_identity::<C>(),
            attributes.wf(),
            classes@.len() == attributes.n_rows,
            c <= attributes.n_cols,
            hs@.len() == c,
            forall|k: int| 0 <= k < c ==> #[trigger] hs@[k]@ == column_rules(*attributes, classes@)[k],
            forall|k: int| 0 <= k < c ==> (#[trigger] hs@[k]).accuracy.wf(),
        decreases attributes.n_cols - c,
    {
        let col = attributes.column(c);
        let hypothesis = generate_rule_for_attribute(&col, classes);
        hs.push(hypothesis);
        c = c + 1;
    }
    hs
}

/// The index of the first greatest accuracy in `accs`.
pub open spec fn best_index(accs: Seq<Accuracy>) -> int
    decreases accs.len(),
{
    if accs.len() <= 1 {
        0
    } else {
        let b = best_index(accs.drop_last());
        if accs.last().greater(accs[b]) {
            accs.len() - 1
        } else {
            b
        }
    }
}

/// The accuracies of the rules of every column.
pub open spec fn column_accuracies<A, C>(attributes: Table<A>, classes: Seq<C>) -> Seq<Accuracy> {
    column_rules(attributes, classes).map_values(|h: (Seq<Case<A, C>>, Accuracy)| h.1)
}

/// Find the one rule that fits a set of examples best.
///
/// `attributes` holds one row per example and one column per attribute;
/// `classes` the true class of each row. The result is the index of the
/// column whose rule has the highest accuracy (the lowest such index where
/// several tie), with that rule; nothing where the table has no columns.
pub fn discover<A: PartialEq + Copy, C: PartialEq + Copy>(attributes: &Table<A>, classes: &[C]) -> (r: Option<
    (usize, Rule<A, C>),
>)
    requires
        eq_is_identity::<A>(),
        eq_is_identity::<C>(),
        attributes.wf(),
        classes@.len() == attributes.n_rows,
    ensures
        r is None <==> attributes.n_cols == 0,
        r matches Some((i, rule)) ==> {
            &&& i == best_index(column_accuracies(*attributes, classes@))
            &&& rule@ == column_rules(*attributes, classes@)[i as int]
        },
{
    let mut rules = generate_hypotheses(attributes, classes);
    if rules.len() == 0 {
        return None;
    }
    let ghost accs = column_accuracies(*attributes, classes@);
    let mut best: usize = 0;
    let mut k: usize = 1;
    while k < rules.len()
        invariant
            rules@.len() == attributes.n_cols,
            accs == column_accuracies(*attributes, classes@),
            forall|c: int| 0 <= c < rules@.len() ==> #[trigger] rules@[c]@ == column_rules(*attributes, classes@)[c],
            forall|c: int| 0 <= c < rules@.len() ==> (#[trigger] rules@[c]).accuracy.wf(),
            1 <= k <= rules@.len(),
            best < k,
            best == best_index(accs.take(k as int)),
        decreases rules.len() - k,
    {
        proof {
            assert(accs.take(k + 1).drop_last() =~= accs.take(k as int));
            assert(rules@[k as int]@ == column_rules(*attributes, classes@)[k as int]);
            assert(rules@[best as int]@ == column_rules(*attributes, classes@)[best as int]);
        }
        if rules[k].accuracy.is_greater_than(&rules[best].accuracy) {
            best = k;
        }
        k = k + 1;
    }
    proof {
        assert(accs.take(k as int) =~= accs);
    }
    let rule = rules.swap_remove(best);
    Some((best, rule))
}

/// The accuracy of a column's rule counts every row of the column.
pub(crate) proof fn lemma_rule_accuracy_wf<A, C>(values: Seq<A>, classes: Seq<C>)
    requires
        values.len() <= usize::MAX,
    ensures
        rule_of(values, classes).1.wf(),
        rule_of(values, classes).1.total == values.len(),
{
    crate::evaluation::lemma_correct_count_bounded(rule_cases(values, classes), values, classes, values.len());
}

} // verus!
