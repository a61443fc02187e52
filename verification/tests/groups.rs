use type_chart::effectiveness::{ChartError, Multiplier};
use type_chart::groups::{all_possible_effectivenesses, label_slot, slot_text, Grouping};
use type_chart::type_chart::TypeChart;

fn s(text: &str) -> String {
    text.to_string()
}

fn chart_of(names: &[&str], entries: &[(&str, &str, &str)]) -> TypeChart {
    let mut chart = TypeChart::empty();
    for name in names {
        assert_eq!(chart.add_new_type(&s(name)), Ok(()));
    }
    for (attacker, defender, label) in entries {
        assert_eq!(chart.add_effectiveness(&s(attacker), &s(defender), s(label)), Ok(()));
    }
    chart
}

fn under(groups: &Grouping, label: &str) -> Option<Vec<String>> {
    groups.get(&s(label)).cloned()
}

fn names(list: &[&str]) -> Option<Vec<String>> {
    Some(list.iter().map(|name| s(name)).collect())
}

fn whole(groups: &Grouping) -> Vec<(String, Vec<String>)> {
    groups
        .labels()
        .into_iter()
        .map(|label| {
            let listed = groups.get(&label).cloned().unwrap();
            (label, listed)
        })
        .collect()
}

const SIXTEEN: [&str; 16] = [
    "Immune",
    "Triple Not Very Effective",
    "Double Not Very Effective",
    "Double Not Very Effective?",
    "Not Very Effective",
    "Not Very Effective?",
    "Not Very Effective??",
    "Neutral",
    "Neutral?",
    "Neutral??",
    "Super Effective",
    "Super Effective?",
    "Super Effective??",
    "Double Super Effective",
    "Double Super Effective?",
    "Triple Super Effective",
];

#[test]
fn the_sixteen_labels_in_their_order() {
    let labels = all_possible_effectivenesses();
    assert_eq!(labels, SIXTEEN.iter().map(|label| s(label)).collect::<Vec<String>>());
    for (slot, label) in SIXTEEN.iter().enumerate() {
        assert_eq!(slot_text(slot), s(label));
    }
}

#[test]
fn label_slot_knows_the_sixteen_and_no_other() {
    let mut found = Vec::new();
    for unknown in 0..4usize {
        for exponent in -10i8..=10 {
            if let Some(slot) = label_slot(Multiplier::PowerOfTwo(exponent), unknown) {
                assert!(unknown <= 2 && exponent.unsigned_abs() as usize + unknown <= 3);
                found.push(slot);
            } else {
                assert!(unknown > 2 || exponent.unsigned_abs() as usize + unknown > 3);
            }
        }
        assert_eq!(label_slot(Multiplier::Zero, unknown), Some(0));
    }
    found.sort();
    assert_eq!(found, (1..16).collect::<Vec<usize>>());
    assert_eq!(label_slot(Multiplier::PowerOfTwo(0), 1), Some(8));
    assert_eq!(label_slot(Multiplier::PowerOfTwo(-2), 1), Some(3));
    assert_eq!(label_slot(Multiplier::PowerOfTwo(3), 0), Some(15));
    assert_eq!(label_slot(Multiplier::PowerOfTwo(3), 1), None);
    assert_eq!(label_slot(Multiplier::PowerOfTwo(-3), 1), None);
    assert_eq!(label_slot(Multiplier::PowerOfTwo(2), 2), None);
    assert_eq!(label_slot(Multiplier::PowerOfTwo(4), 0), None);
}

#[test]
fn attacking_groups_list_defenders_by_label() {
    let mut chart = chart_of(
        &["Fire", "Water", "Grass", "Rock", "Ghost"],
        &[
            ("Fire", "Grass", "Super Effective"),
            ("Fire", "Water", "Not Very Effective"),
            ("Fire", "Fire", "Not Very Effective"),
            ("Fire", "Ghost", "Neutral"),
            ("Water", "Fire", "Super Effective"),
        ],
    );
    let groups = chart.get_attacking_effectiveness(&s("Fire")).unwrap();
    assert_eq!(under(&groups, "Super Effective"), names(&["Grass"]));
    assert_eq!(under(&groups, "Not Very Effective"), names(&["Fire", "Water"]));
    assert_eq!(under(&groups, "Neutral"), names(&["Ghost"]));
    assert_eq!(under(&groups, "Immune"), None);
    assert_eq!(under(&groups, "?"), None);
    assert_eq!(under(&groups, "no label"), None);
    assert_eq!(
        groups.labels(),
        vec![s("Not Very Effective"), s("Neutral"), s("Super Effective")]
    );
}

#[test]
fn defensive_groups_list_attackers_by_label() {
    let mut chart = chart_of(
        &["Fire", "Water", "Grass", "Rock"],
        &[
            ("Fire", "Grass", "Super Effective"),
            ("Water", "Grass", "Not Very Effective"),
            ("Grass", "Grass", "Not Very Effective"),
            ("Grass", "Water", "Super Effective"),
        ],
    );
    let groups = chart.get_defensive_effectiveness(&s("Grass")).unwrap();
    assert_eq!(
        whole(&groups),
        vec![
            (s("Not Very Effective"), vec![s("Water"), s("Grass")]),
            (s("Super Effective"), vec![s("Fire")]),
        ]
    );
}

#[test]
fn single_queries_use_all_eight_labels() {
    let mut chart = chart_of(
        &["A", "B", "C", "D", "E", "F", "G", "H", "I"],
        &[
            ("A", "A", "Immune"),
            ("A", "B", "Triple Not Very Effective"),
            ("A", "C", "Double Not Very Effective"),
            ("A", "D", "Not Very Effective"),
            ("A", "E", "Neutral"),
            ("A", "F", "Super Effective"),
            ("A", "G", "Double Super Effective"),
            ("A", "H", "Triple Super Effective"),
        ],
    );
    let groups = chart.get_attacking_effectiveness(&s("A")).unwrap();
    assert_eq!(
        whole(&groups),
        vec![
            (s("Immune"), vec![s("A")]),
            (s("Triple Not Very Effective"), vec![s("B")]),
            (s("Double Not Very Effective"), vec![s("C")]),
            (s("Not Very Effective"), vec![s("D")]),
            (s("Neutral"), vec![s("E")]),
            (s("Super Effective"), vec![s("F")]),
            (s("Double Super Effective"), vec![s("G")]),
            (s("Triple Super Effective"), vec![s("H")]),
        ]
    );
}

#[test]
fn a_chart_without_known_entries_groups_nothing() {
    let mut chart = chart_of(&["A", "B"], &[]);
    assert!(whole(&chart.get_attacking_effectiveness(&s("A")).unwrap()).is_empty());
    assert!(whole(&chart.get_defensive_effectiveness(&s("B")).unwrap()).is_empty());
    assert!(whole(&chart
        .get_multiple_defensive_effectiveness(&s("A"), Some(&s("B")), None)
        .unwrap())
    .is_empty());
}

#[test]
fn queries_about_a_missing_type_are_not_found() {
    let mut chart = chart_of(&["A", "B"], &[("A", "B", "Neutral")]);
    let grid = chart.get_type_map();
    assert_eq!(chart.get_attacking_effectiveness(&s("X")).unwrap_err(), ChartError::NotFound);
    assert_eq!(chart.get_defensive_effectiveness(&s("X")).unwrap_err(), ChartError::NotFound);
    assert_eq!(
        chart.get_multiple_defensive_effectiveness(&s("X"), None, None).unwrap_err(),
        ChartError::NotFound
    );
    assert_eq!(
        chart
            .get_multiple_defensive_effectiveness(&s("A"), Some(&s("X")), None)
            .unwrap_err(),
        ChartError::NotFound
    );
    assert_eq!(
        chart
            .get_multiple_defensive_effectiveness(&s("A"), Some(&s("B")), Some(&s("X")))
            .unwrap_err(),
        ChartError::NotFound
    );
    assert_eq!(
        chart.get_multiple_defensive_effectiveness(&s("A"), None, Some(&s("X"))).unwrap_err(),
        ChartError::NotFound
    );
    assert_eq!(chart.get_type_list(), vec![s("A"), s("B")]);
    assert_eq!(chart.get_type_map(), grid);
    let mut none = TypeChart::empty();
    assert_eq!(none.get_attacking_effectiveness(&s("A")).unwrap_err(), ChartError::NotFound);
}

#[test]
fn one_unknown_factor_leaves_one_marker() {
    let mut chart = chart_of(
        &["A", "B", "C", "X"],
        &[("X", "A", "Super Effective"), ("X", "B", "Not Very Effective")],
    );
    let groups = chart
        .get_multiple_defensive_effectiveness(&s("A"), Some(&s("B")), Some(&s("C")))
        .unwrap();
    assert_eq!(whole(&groups), vec![(s("Neutral?"), vec![s("X")])]);
}

#[test]
fn all_factors_unknown_leaves_the_type_out() {
    let mut chart = chart_of(&["A", "B", "C", "X"], &[("A", "X", "Super Effective")]);
    let groups = chart
        .get_multiple_defensive_effectiveness(&s("A"), Some(&s("B")), Some(&s("C")))
        .unwrap();
    for label in SIXTEEN {
        assert_eq!(under(&groups, label), None);
    }
    assert!(groups.labels().is_empty());
}

#[test]
fn combined_multiplies_what_is_known() {
    let mut chart = chart_of(
        &["A", "B", "C", "P", "Q", "R", "S", "T"],
        &[
            ("P", "A", "Super Effective"),
            ("P", "B", "Super Effective"),
            ("P", "C", "Super Effective"),
            ("Q", "A", "Not Very Effective"),
            ("Q", "B", "Not Very Effective"),
            ("R", "A", "Immune"),
            ("R", "B", "Super Effective"),
            ("S", "C", "Super Effective"),
            ("T", "A", "Double Super Effective"),
            ("T", "B", "Double Super Effective"),
            ("T", "C", "Double Not Very Effective"),
            ("A", "A", "Neutral"),
            ("A", "B", "Neutral"),
            ("A", "C", "Neutral"),
        ],
    );
    let groups = chart
        .get_multiple_defensive_effectiveness(&s("A"), Some(&s("B")), Some(&s("C")))
        .unwrap();
    assert_eq!(
        whole(&groups),
        vec![
            (s("Immune"), vec![s("R")]),
            (s("Double Not Very Effective?"), vec![s("Q")]),
            (s("Neutral"), vec![s("A")]),
            (s("Super Effective??"), vec![s("S")]),
            (s("Double Super Effective"), vec![s("T")]),
            (s("Triple Super Effective"), vec![s("P")]),
        ]
    );
}

#[test]
fn names_under_a_label_follow_the_chart_order() {
    let mut chart = chart_of(
        &["D", "C", "B", "A"],
        &[
            ("A", "D", "Neutral"),
            ("C", "D", "Neutral"),
            ("D", "D", "Neutral"),
            ("B", "D", "Immune"),
        ],
    );
    let groups = chart.get_multiple_defensive_effectiveness(&s("D"), None, None).unwrap();
    assert_eq!(
        whole(&groups),
        vec![(s("Immune"), vec![s("B")]), (s("Neutral"), vec![s("D"), s("C"), s("A")])]
    );
}

#[test]
fn combined_of_one_type_is_its_defensive_grouping() {
    let mut chart = chart_of(
        &["A", "B", "C", "D", "E"],
        &[
            ("A", "C", "Immune"),
            ("B", "C", "Not Very Effective"),
            ("C", "C", "Neutral"),
            ("D", "C", "Super Effective"),
            ("A", "B", "Super Effective"),
        ],
    );
    for name in ["A", "B", "C", "D", "E"] {
        let combined = chart.get_multiple_defensive_effectiveness(&s(name), None, None).unwrap();
        let defensive = chart.get_defensive_effectiveness(&s(name)).unwrap();
        assert_eq!(whole(&combined), whole(&defensive));
        for label in SIXTEEN {
            assert_eq!(under(&combined, label), under(&defensive, label));
        }
    }
    let groups = chart.get_multiple_defensive_effectiveness(&s("C"), None, None).unwrap();
    assert_eq!(
        whole(&groups),
        vec![
            (s("Immune"), vec![s("A")]),
            (s("Not Very Effective"), vec![s("B")]),
            (s("Neutral"), vec![s("C")]),
            (s("Super Effective"), vec![s("D")]),
        ]
    );
}

#[test]
fn a_product_without_label_is_an_invalid_value() {
    let mut chart = chart_of(
        &["A", "B", "X"],
        &[("X", "A", "Double Super Effective"), ("X", "B", "Double Super Effective")],
    );
    let grid = chart.get_type_map();
    assert_eq!(
        chart
            .get_multiple_defensive_effectiveness(&s("A"), Some(&s("B")), None)
            .unwrap_err(),
        ChartError::InvalidValue
    );
    assert_eq!(chart.get_type_map(), grid);
}

#[test]
fn a_marked_label_outside_the_sixteen_is_an_invalid_value() {
    let mut chart = chart_of(
        &["A", "B", "C", "X"],
        &[("X", "A", "Double Not Very Effective"), ("X", "B", "Not Very Effective")],
    );
    assert_eq!(
        chart
            .get_multiple_defensive_effectiveness(&s("A"), Some(&s("B")), Some(&s("C")))
            .unwrap_err(),
        ChartError::InvalidValue
    );
    let groups = chart
        .get_multiple_defensive_effectiveness(&s("A"), Some(&s("B")), None)
        .unwrap();
    assert_eq!(whole(&groups), vec![(s("Triple Not Very Effective"), vec![s("X")])]);
}

#[test]
fn immune_takes_no_marker() {
    let mut chart = chart_of(&["A", "B", "C", "X"], &[("X", "B", "Immune")]);
    let groups = chart
        .get_multiple_defensive_effectiveness(&s("A"), Some(&s("B")), Some(&s("C")))
        .unwrap();
    assert_eq!(whole(&groups), vec![(s("Immune"), vec![s("X")])]);
}

#[test]
fn the_same_type_given_twice_counts_twice() {
    let mut chart = chart_of(&["A", "X"], &[("X", "A", "Super Effective")]);
    let groups = chart
        .get_multiple_defensive_effectiveness(&s("A"), Some(&s("A")), None)
        .unwrap();
    assert_eq!(whole(&groups), vec![(s("Double Super Effective"), vec![s("X")])]);
}

#[test]
fn a_third_type_without_a_second_is_taken() {
    let mut chart = chart_of(
        &["A", "B", "X"],
        &[("X", "A", "Super Effective"), ("X", "B", "Super Effective")],
    );
    let groups = chart
        .get_multiple_defensive_effectiveness(&s("A"), None, Some(&s("B")))
        .unwrap();
    assert_eq!(whole(&groups), vec![(s("Double Super Effective"), vec![s("X")])]);
}
