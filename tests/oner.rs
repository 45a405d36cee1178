use oner_induction::{
    discover, evaluate, generate_hypotheses, generate_rule_for_attribute, interpret, Accuracy, Case,
    Rule, Table,
};

fn table(rows: &[&[&'static str]]) -> Table<&'static str> {
    let n_cols = if rows.is_empty() { 0 } else { rows[0].len() };
    let mut cells = Vec::new();
    for row in rows {
        cells.extend_from_slice(row);
    }
    Table::from_row_major(rows.len(), n_cols, cells).expect("rectangular rows")
}

fn rental_attributes() -> Table<&'static str> {
    // rental property attributes: location, size, pets
    table(&[
        &["good", "small", "yes"],
        &["good", "big", "no"],
        &["good", "big", "no"],
        &["bad", "medium", "no"],
        &["good", "medium", "only cats"],
        &["good", "small", "only cats"],
        &["bad", "medium", "yes"],
        &["bad", "small", "yes"],
        &["bad", "medium", "yes"],
        &["bad", "small", "no"],
    ])
}

fn rental_classes() -> Vec<&'static str> {
    vec!["high", "high", "high", "medium", "medium", "medium", "medium", "low", "low", "low"]
}

#[test]
fn test1() {
    let attributes = rental_attributes();
    let classes = rental_classes();

    let rule = discover(&attributes, &classes);

    let expected_rule = Rule {
        cases: vec![
            Case { attribute_value: "small", predicted_class: "low" },
            Case { attribute_value: "big", predicted_class: "high" },
            Case { attribute_value: "medium", predicted_class: "medium" },
        ],
        accuracy: Accuracy { correct: 7, total: 10 },
    };

    let (_, found) = rule.clone().unwrap();
    assert_eq!(found.accuracy.correct as f64 / found.accuracy.total as f64, 0.7);
    assert_eq!(rule, Some((1, expected_rule)));
}

#[test]
fn seasons_example() {
    let attributes = table(&[
        &["sunny", "summer"],
        &["sunny", "summer"],
        &["cloudy", "winter"],
        &["sunny", "winter"],
    ]);
    let classes = vec!["hot", "hot", "cold", "cold"];

    let rule = discover(&attributes, &classes);

    let cases = vec![
        Case { attribute_value: "summer", predicted_class: "hot" },
        Case { attribute_value: "winter", predicted_class: "cold" },
    ];
    let accuracy = Accuracy { correct: 4, total: 4 };
    assert_eq!(rule, Some((1, Rule { cases, accuracy })));
}

#[test]
fn interpret_finds_matching_case() {
    let cases = vec![
        Case { attribute_value: "summer", predicted_class: "hot" },
        Case { attribute_value: "winter", predicted_class: "cold" },
    ];
    assert_eq!(Some(&"hot"), interpret(&cases, &"summer"));
    assert_eq!(Some(&"cold"), interpret(&cases, &"winter"));
    assert_eq!(None, interpret(&cases, &"spring"));
}

#[test]
fn interpret_on_no_cases_is_none() {
    let cases: Vec<Case<u32, u32>> = Vec::new();
    assert_eq!(None, interpret(&cases, &3));
}

#[test]
fn interpret_first_match_wins() {
    let cases = vec![
        Case { attribute_value: 1u32, predicted_class: 10u32 },
        Case { attribute_value: 1u32, predicted_class: 20u32 },
    ];
    assert_eq!(Some(&10), interpret(&cases, &1));
}

#[test]
fn evaluate_on_zero_rows_is_zero() {
    let cases = vec![Case { attribute_value: "a", predicted_class: "x" }];
    let values: Vec<&str> = Vec::new();
    let classes: Vec<&str> = Vec::new();
    let acc = evaluate(&cases, &values, &classes);
    assert_eq!(acc, Accuracy { correct: 0, total: 0 });
}

#[test]
fn evaluate_counts_unmatched_rows_as_wrong() {
    let cases = vec![
        Case { attribute_value: "a", predicted_class: "x" },
        Case { attribute_value: "b", predicted_class: "y" },
    ];
    let values = vec!["a", "b", "c", "a"];
    let classes = vec!["x", "x", "x", "x"];
    let acc = evaluate(&cases, &values, &classes);
    assert_eq!(acc, Accuracy { correct: 2, total: 4 });
    let fraction = acc.correct as f64 / acc.total as f64;
    assert!((0.0..=1.0).contains(&fraction));
    assert_eq!(fraction, 0.5);
}

#[test]
fn evaluate_with_no_cases_is_zero() {
    let cases: Vec<Case<&str, &str>> = Vec::new();
    let values = vec!["a", "b"];
    let classes = vec!["x", "y"];
    assert_eq!(evaluate(&cases, &values, &classes), Accuracy { correct: 0, total: 2 });
}

#[test]
fn class_ties_go_to_the_first_seen() {
    let values = vec!["a", "a", "a", "a", "b"];
    let classes = vec!["y", "x", "x", "y", "z"];
    let rule = generate_rule_for_attribute(&values, &classes);
    assert_eq!(
        rule.cases,
        vec![
            Case { attribute_value: "a", predicted_class: "y" },
            Case { attribute_value: "b", predicted_class: "z" },
        ]
    );
    assert_eq!(rule.accuracy, Accuracy { correct: 3, total: 5 });
}

#[test]
fn majority_class_wins() {
    let values = vec![1u8, 1, 1, 2, 2];
    let classes = vec![7u8, 8, 8, 9, 9];
    let rule = generate_rule_for_attribute(&values, &classes);
    assert_eq!(
        rule.cases,
        vec![
            Case { attribute_value: 1, predicted_class: 8 },
            Case { attribute_value: 2, predicted_class: 9 },
        ]
    );
    assert_eq!(rule.accuracy, Accuracy { correct: 4, total: 5 });
}

#[test]
fn rule_generation_is_deterministic() {
    let attributes = rental_attributes();
    let classes = rental_classes();
    for c in 0..attributes.n_cols {
        let column = attributes.column(c);
        let first = generate_rule_for_attribute(&column, &classes);
        let second = generate_rule_for_attribute(&column, &classes);
        assert_eq!(first, second);
    }
}

#[test]
fn determined_column_has_accuracy_one() {
    let values = vec!["p", "q", "p", "r", "q"];
    let classes = vec!["x", "y", "x", "x", "y"];
    let rule = generate_rule_for_attribute(&values, &classes);
    assert_eq!(rule.accuracy, Accuracy { correct: 5, total: 5 });
}

#[test]
fn hypotheses_follow_column_order() {
    let attributes = rental_attributes();
    let classes = rental_classes();
    let rules = generate_hypotheses(&attributes, &classes);
    assert_eq!(rules.len(), 3);
    assert_eq!(rules[0].accuracy, Accuracy { correct: 6, total: 10 });
    assert_eq!(rules[1].accuracy, Accuracy { correct: 7, total: 10 });
    assert_eq!(rules[2].accuracy, Accuracy { correct: 6, total: 10 });
    assert_eq!(
        rules[0].cases,
        vec![
            Case { attribute_value: "good", predicted_class: "high" },
            Case { attribute_value: "bad", predicted_class: "low" },
        ]
    );
}

#[test]
fn column_ties_go_to_the_lowest_index() {
    let attributes = table(&[&["a", "b", "c"], &["d", "e", "c"]]);
    let classes = vec!["x", "y"];
    let (index, rule) = discover(&attributes, &classes).unwrap();
    assert_eq!(index, 0);
    assert_eq!(rule.accuracy, Accuracy { correct: 2, total: 2 });
}

#[test]
fn discover_on_no_columns_is_none() {
    let attributes: Table<&str> = Table::from_row_major(2, 0, Vec::new()).unwrap();
    let classes = vec!["x", "y"];
    assert_eq!(discover(&attributes, &classes), None);
}

#[test]
fn discover_on_no_rows_takes_first_column() {
    let attributes: Table<&str> = Table::from_row_major(0, 2, Vec::new()).unwrap();
    let classes: Vec<&str> = Vec::new();
    let (index, rule) = discover(&attributes, &classes).unwrap();
    assert_eq!(index, 0);
    assert!(rule.cases.is_empty());
    assert_eq!(rule.accuracy, Accuracy { correct: 0, total: 0 });
}

#[test]
fn table_shape_must_match_cells() {
    assert!(Table::from_row_major(2, 2, vec![1, 2, 3]).is_none());
    assert!(Table::from_row_major(usize::MAX, 2, vec![1, 2]).is_none());
    let t = Table::from_row_major(2, 2, vec![1, 2, 3, 4]).unwrap();
    assert_eq!(t.column(0), vec![1, 3]);
    assert_eq!(t.column(1), vec![2, 4]);
}

#[test]
fn accuracy_comparison_is_by_fraction() {
    let seven_tenths = Accuracy { correct: 7, total: 10 };
    let two_thirds = Accuracy { correct: 2, total: 3 };
    let empty = Accuracy { correct: 0, total: 0 };
    assert!(seven_tenths.is_greater_than(&two_thirds));
    assert!(!two_thirds.is_greater_than(&seven_tenths));
    assert!(!Accuracy { correct: 14, total: 20 }.is_greater_than(&seven_tenths));
    assert!(two_thirds.is_greater_than(&empty));
    assert!(!empty.is_greater_than(&Accuracy { correct: 0, total: 5 }));
}
