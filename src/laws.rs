//! Properties of rule generation and selection.
use vstd::prelude::*;

use crate::evaluation::{correct_count, lemma_lookup_at, lookup};
use crate::induction::{
    best_index, classes_with, column_accuracies, column_rules, distinct, first_most_frequent, majority,
    occurrences,
    lemma_classes_with_nonempty, lemma_distinct_no_dup, lemma_push_contains, prediction, rule_cases,
    rule_of,
};
use crate::table::Table;
use crate::{Accuracy, Case};

verus! {

/// Rows with equal attribute values always have equal classes: each value of
/// the column determines the class.
pub open spec fn determines<A, C>(values: Seq<A>, classes: Seq<C>) -> bool {
    forall|i: int, j: int|
        0 <= i < values.len() && 0 <= j < values.len() && values[i] == values[j] ==> classes[i]
            == classes[j]
}

/// The rule built from one column is a function of the column and the
/// classes alone: building it twice from identical input gives the same
/// cases, in the same order, and the same accuracy.
pub proof fn lemma_rule_deterministic<A, C>(values1: Seq<A>, classes1: Seq<C>, values2: Seq<A>, classes2: Seq<C>)
    requires
        values1 == values2,
        classes1 == classes2,
    ensures
        rule_of(values1, classes1) == rule_of(values2, classes2),
{
}

/// Where `a` is no larger than `b` and `c` is larger than `b`, `c` is larger than `a`.
proof fn lemma_greater_after(a: Accuracy, b: Accuracy, c: Accuracy)
    requires
        !a.greater(b),
        c.greater(b),
    ensures
        c.greater(a),
        !a.greater(c),
{
    let (ac, ad, bc, bd, cc, cd) = (a.correct as int, a.denom(), b.correct as int, b.denom(), c.correct as int, c.denom());
    assert(cc * ad > ac * cd) by (nonlinear_arith)
        requires
            ac * bd <= bc * ad,
            cc * bd > bc * cd,
            ad > 0,
            bd > 0,
            cd > 0,
            ac >= 0,
            bc >= 0,
            cc >= 0,
    ;
}

/// `best_index` picks the first greatest accuracy: none is greater than the
/// one it picks, and the one it picks is greater than every one before it.
pub proof fn lemma_best_index_is_first_max(accs: Seq<Accuracy>)
    requires
        accs.len() > 0,
    ensures
        0 <= best_index(accs) < accs.len(),
        forall|j: int| 0 <= j < accs.len() ==> !(#[trigger] accs[j]).greater(accs[best_index(accs)]),
        forall|j: int| 0 <= j < best_index(accs) ==> accs[best_index(accs)].greater(#[trigger] accs[j]),
    decreases accs.len(),
{
    if accs.len() > 1 {
        let p = accs.drop_last();
        lemma_best_index_is_first_max(p);
        let b = best_index(p);
        let n = accs.len() - 1;
        if accs.last().greater(accs[b]) {
            assert forall|j: int| 0 <= j < n implies accs[n].greater(#[trigger] accs[j]) && !accs[j].greater(
                accs[n],
            ) by {
                assert(p[j] == accs[j]);
                lemma_greater_after(accs[j], accs[b], accs[n]);
            }
        } else {
            assert forall|j: int| 0 <= j < accs.len() implies !(#[trigger] accs[j]).greater(accs[b]) by {
                if j < n {
                    assert(p[j] == accs[j]);
                }
            }
            assert forall|j: int| 0 <= j < b implies accs[b].greater(#[trigger] accs[j]) by {
                assert(p[j] == accs[j]);
            }
        }
    }
}

proof fn lemma_classes_with_members<A, C>(values: Seq<A>, classes: Seq<C>, v: A, n: nat, x: C)
    requires
        classes_with(values, classes, v, n).contains(x),
    ensures
        exists|j: int| 0 <= j < n && values[j] == v && classes[j] == x,
    decreases n,
{
    if n > 0 {
        let p = classes_with(values, classes, v, (n - 1) as nat);
        if values[n - 1] == v {
            lemma_push_contains(p, classes[n - 1], x);
        }
        if p.contains(x) {
            lemma_classes_with_members(values, classes, v, (n - 1) as nat, x);
        }
    }
}

proof fn lemma_first_most_frequent_member<T>(d: Seq<T>, s: Seq<T>)
    requires
        d.len() > 0,
    ensures
        d.contains(first_most_frequent(d, s)),
    decreases d.len(),
{
    if d.len() > 1 {
        lemma_first_most_frequent_member(d.drop_last(), s);
        let b = first_most_frequent(d.drop_last(), s);
        let i = choose|i: int| 0 <= i < d.len() - 1 && d.drop_last()[i] == b;
        assert(d[i] == b);
        assert(d[d.len() - 1] == d.last());
    } else {
        assert(d[0] == first_most_frequent(d, s));
    }
}

/// In a column that determines the class, the prediction for the value of
/// row `i` is the class of row `i`.
proof fn lemma_prediction_of_determined<A, C>(values: Seq<A>, classes: Seq<C>, i: int)
    requires
        values.len() == classes.len(),
        determines(values, classes),
        0 <= i < values.len(),
    ensures
        prediction(values, classes, values[i]) == classes[i],
{
    let v = values[i];
    let s = classes_with(values, classes, v, values.len());
    lemma_classes_with_nonempty(values, classes, v, values.len(), i);
    lemma_distinct_no_dup(s);
    assert(s.contains(s[0]));
    lemma_first_most_frequent_member(distinct(s), s);
    let m = first_most_frequent(distinct(s), s);
    lemma_classes_with_members(values, classes, v, values.len(), m);
}

/// The cases of a column look up, for the value of any row, the prediction for that value.
proof fn lemma_rule_cases_lookup<A, C>(values: Seq<A>, classes: Seq<C>, i: int)
    requires
        0 <= i < values.len(),
    ensures
        lookup(rule_cases(values, classes), values[i]) == Some(prediction(values, classes, values[i])),
{
    let v = values[i];
    let d = distinct(values);
    let cases: Seq<Case<A, C>> = rule_cases(values, classes);
    lemma_distinct_no_dup(values);
    assert(values.contains(v));
    let k = choose|k: int| 0 <= k < d.len() && d[k] == v;
    assert forall|j: int| 0 <= j < k implies cases[j].attribute_value != v by {
        assert(d[j] != d[k]);
    }
    lemma_lookup_at(cases, v, k);
}

proof fn lemma_all_correct<A, C>(cases: Seq<Case<A, C>>, values: Seq<A>, classes: Seq<C>, n: nat)
    requires
        n <= values.len(),
        forall|i: int| 0 <= i < n ==> lookup(cases, #[trigger] values[i]) == Some(classes[i]),
    ensures
        correct_count(cases, values, classes, n) == n,
    decreases n,
{
    if n > 0 {
        lemma_all_correct(cases, values, classes, (n - 1) as nat);
    }
}

/// Where each value of a non-empty column determines the class, the rule of
/// that column predicts every row correctly: its accuracy is exactly one.
pub proof fn lemma_determined_column_is_exact<A, C>(values: Seq<A>, classes: Seq<C>)
    requires
        values.len() == classes.len(),
        0 < values.len() <= usize::MAX,
        determines(values, classes),
    ensures
        rule_of(values, classes).1.is_one(),
{
    assert forall|i: int| 0 <= i < values.len() implies lookup(rule_cases(values, classes), #[trigger] values[i])
        == Some(classes[i]) by {
        lemma_rule_cases_lookup(values, classes, i);
        lemma_prediction_of_determined(values, classes, i);
    }
    lemma_all_correct(rule_cases(values, classes), values, classes, values.len());
}

/// Where column `k` of a table with at least one row determines the class,
/// the column that `discover` selects has accuracy exactly one and comes no
/// later than `k`; where no other column reaches accuracy one, it is `k`.
pub proof fn lemma_discover_selects_determined_column<A, C>(attributes: Table<A>, classes: Seq<C>, k: int)
    requires
        attributes.wf(),
        classes.len() == attributes.n_rows,
        attributes.n_rows > 0,
        0 <= k < attributes.n_cols,
        determines(attributes.column_view(k), classes),
    ensures
        column_accuracies(attributes, classes)[best_index(column_accuracies(attributes, classes))].is_one(),
        best_index(column_accuracies(attributes, classes)) <= k,
        (forall|j: int|
            0 <= j < attributes.n_cols && j != k ==> !(#[trigger] column_accuracies(attributes, classes)[j]).is_one())
            ==> best_index(column_accuracies(attributes, classes)) == k,
{
    let accs = column_accuracies(attributes, classes);
    lemma_determined_column_is_exact(attributes.column_view(k), classes);
    assert(accs[k] == column_rules(attributes, classes)[k].1);
    lemma_best_index_is_first_max(accs);
    let b = best_index(accs);
    assert(accs[b] == column_rules(attributes, classes)[b].1);
    // Every accuracy in the table is a fraction of at most one.
    crate::induction::lemma_rule_accuracy_wf(attributes.column_view(b), classes);
    assert(!accs[k].greater(accs[b]));
    let (bc, bt) = (accs[b].correct as int, accs[b].total as int);
    let n = attributes.n_rows as int;
    assert(accs[k].correct == n && accs[k].total == n);
    assert(bt == n);
    assert(bc <= bt);
    assert(n * bt <= bc * n);
    assert(bc >= bt) by (nonlinear_arith)
        requires
            n * bt <= bc * n,
            n > 0,
    ;
    if b > k {
        assert(accs[b].greater(accs[k]));
    }
}

/// Of the candidates `d`, the one `first_most_frequent` picks stands at the
/// returned index: none occurs more often in `s`, and every earlier one less often.
proof fn lemma_first_most_frequent_index<T>(d: Seq<T>, s: Seq<T>) -> (bi: int)
    requires
        d.len() > 0,
    ensures
        0 <= bi < d.len(),
        d[bi] == first_most_frequent(d, s),
        forall|j: int| 0 <= j < d.len() ==> occurrences(s, #[trigger] d[j]) <= occurrences(s, d[bi]),
        forall|j: int| 0 <= j < bi ==> occurrences(s, #[trigger] d[j]) < occurrences(s, d[bi]),
    decreases d.len(),
{
    if d.len() == 1 {
        0
    } else {
        let p = d.drop_last();
        let b = lemma_first_most_frequent_index(p, s);
        let n = d.len() - 1;
        assert forall|j: int| 0 <= j < n implies #[trigger] d[j] == p[j] by {}
        if occurrences(s, d.last()) > occurrences(s, p[b]) {
            assert forall|j: int| 0 <= j < d.len() implies occurrences(s, #[trigger] d[j]) <= occurrences(
                s,
                d[n],
            ) by {
                if j < n {
                    assert(occurrences(s, p[j]) <= occurrences(s, p[b]));
                }
            }
            assert forall|j: int| 0 <= j < n implies occurrences(s, #[trigger] d[j]) < occurrences(s, d[n]) by {
                assert(occurrences(s, p[j]) <= occurrences(s, p[b]));
            }
            n
        } else {
            assert forall|j: int| 0 <= j < d.len() implies occurrences(s, #[trigger] d[j]) <= occurrences(
                s,
                d[b],
            ) by {
                if j < n {
                    assert(occurrences(s, p[j]) <= occurrences(s, p[b]));
                }
            }
            assert forall|j: int| 0 <= j < b implies occurrences(s, #[trigger] d[j]) < occurrences(s, d[b]) by {
                assert(occurrences(s, p[j]) < occurrences(s, p[b]));
            }
            b
        }
    }
}

/// `t` is a prefix of `u`.
spec fn is_prefix<T>(t: Seq<T>, u: Seq<T>) -> bool {
    t.len() <= u.len() && forall|i: int| 0 <= i < t.len() ==> t[i] == u[i]
}

/// The distinct elements of a prefix of `s` are a prefix of those of `s`.
proof fn lemma_distinct_of_prefix<T>(s: Seq<T>, n: int)
    requires
        0 <= n <= s.len(),
    ensures
        is_prefix(distinct(s.take(n)), distinct(s)),
    decreases s.len() - n,
{
    if n == s.len() {
        assert(s.take(n) =~= s);
    } else {
        lemma_distinct_of_prefix(s, n + 1);
        assert(s.take(n + 1).drop_last() =~= s.take(n));
    }
}

/// `majority(s)` is the most frequent element of `s`, and of several equally
/// frequent elements the one whose first occurrence comes first: it occurs in
/// `s`, no element occurs more often, and any element that occurs as often
/// is preceded (or matched) by an occurrence of the majority.
pub proof fn lemma_majority_is_first_most_frequent<T>(s: Seq<T>)
    requires
        s.len() > 0,
    ensures
        s.contains(majority(s)),
        forall|i: int| 0 <= i < s.len() ==> occurrences(s, #[trigger] s[i]) <= occurrences(s, majority(s)),
        forall|i: int|
            0 <= i < s.len() && occurrences(s, #[trigger] s[i]) == occurrences(s, majority(s)) ==> exists|j: int|
                0 <= j <= i && s[j] == majority(s),
{
    let d = distinct(s);
    lemma_distinct_no_dup(s);
    assert(s.contains(s[0]));
    let bi = lemma_first_most_frequent_index(d, s);
    let m = d[bi];
    assert(d.contains(m));
    assert forall|i: int| 0 <= i < s.len() implies occurrences(s, #[trigger] s[i]) <= occurrences(s, m) by {
        assert(s.contains(s[i]));
        let k = choose|k: int| 0 <= k < d.len() && d[k] == s[i];
        assert(occurrences(s, d[k]) <= occurrences(s, m));
    }
    assert forall|i: int| 0 <= i < s.len() && occurrences(s, #[trigger] s[i]) == occurrences(s, m) implies exists|
        j: int,
    | 0 <= j <= i && s[j] == m by {
        let x = s[i];
        assert(s.contains(x));
        let k = choose|k: int| 0 <= k < d.len() && d[k] == x;
        if k < bi {
            assert(occurrences(s, d[k]) < occurrences(s, m));
        }
        let t = s.take(i + 1);
        let dt = distinct(t);
        lemma_distinct_no_dup(t);
        assert(t[i] == x);
        assert(t.contains(x));
        let kk = choose|kk: int| 0 <= kk < dt.len() && dt[kk] == x;
        lemma_distinct_of_prefix(s, i + 1);
        assert(d[kk] == x);
        assert(kk == k);
        assert(dt[bi] == m);
        assert(bi < dt.len());
        assert(dt.contains(m));
        assert(t.contains(m));
        let j = choose|j: int| 0 <= j < t.len() && t[j] == m;
        assert(s[j] == m);
    }
}

} // verus!
