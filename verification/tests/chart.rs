use type_chart::effectiveness::{ChartError, Effectiveness, Multiplier};
use type_chart::type_chart::{distinct, square, TypeChart};

fn s(text: &str) -> String {
    text.to_string()
}

fn known(exponent: i8) -> Effectiveness {
    Effectiveness::Known(Multiplier::PowerOfTwo(exponent))
}

fn chart_of(names: &[&str]) -> TypeChart {
    let mut chart = TypeChart::empty();
    for name in names {
        assert_eq!(chart.add_new_type(&s(name)), Ok(()));
    }
    chart
}

fn unknown_grid(width: usize) -> Vec<Vec<Effectiveness>> {
    vec![vec![Effectiveness::Unknown; width]; width]
}

#[test]
fn empty_chart_has_no_type() {
    let chart = TypeChart::empty();
    assert!(chart.is_empty());
    assert_eq!(chart.len(), 0);
    assert_eq!(chart.get_type_list(), Vec::<String>::new());
    assert_eq!(chart.get_type_map(), Vec::<Vec<Effectiveness>>::new());
    assert_eq!(chart.position(&s("Fire")), None);
}

#[test]
fn added_types_keep_their_order() {
    let chart = chart_of(&["Fire", "Water", "Grass"]);
    assert!(!chart.is_empty());
    assert_eq!(chart.len(), 3);
    assert_eq!(chart.get_type_list(), vec![s("Fire"), s("Water"), s("Grass")]);
    assert_eq!(chart.name_at(1), &s("Water"));
    assert_eq!(chart.position(&s("Grass")), Some(2));
    assert_eq!(chart.position(&s("grass")), None);
}

#[test]
fn a_new_type_knows_nothing() {
    let mut chart = chart_of(&["Fire", "Water"]);
    assert_eq!(chart.add_effectiveness(&s("Fire"), &s("Water"), s("Not Very Effective")), Ok(()));
    assert_eq!(chart.add_new_type(&s("Grass")), Ok(()));
    let grid = chart.get_type_map();
    assert_eq!(grid.len(), 3);
    for index in 0..3 {
        assert_eq!(grid[index].len(), 3);
        assert_eq!(grid[index][2], Effectiveness::Unknown);
        assert_eq!(grid[2][index], Effectiveness::Unknown);
    }
    assert_eq!(grid[0][1], known(-1));
    assert_eq!(chart.entry(0, 1), known(-1));
    assert_eq!(chart.entry(2, 2), Effectiveness::Unknown);
}

#[test]
fn adding_twice_reports_and_changes_nothing() {
    let mut chart = chart_of(&["Fire", "Water"]);
    assert_eq!(chart.add_effectiveness(&s("Water"), &s("Fire"), s("Super Effective")), Ok(()));
    let names = chart.get_type_list();
    let grid = chart.get_type_map();
    assert_eq!(chart.add_new_type(&s("Fire")), Err(ChartError::AlreadyExists));
    assert_eq!(chart.get_type_list(), names);
    assert_eq!(chart.get_type_map(), grid);
}

#[test]
fn names_differ_by_case() {
    let mut chart = chart_of(&["Fire"]);
    assert_eq!(chart.add_new_type(&s("fire")), Ok(()));
    assert_eq!(chart.get_type_list(), vec![s("Fire"), s("fire")]);
}

#[test]
fn add_then_remove_restores_the_chart() {
    let mut chart = chart_of(&["Fire", "Water"]);
    assert_eq!(chart.add_effectiveness(&s("Fire"), &s("Water"), s("Not Very Effective")), Ok(()));
    assert_eq!(chart.add_effectiveness(&s("Water"), &s("Water"), s("Immune")), Ok(()));
    let names = chart.get_type_list();
    let grid = chart.get_type_map();
    assert_eq!(chart.add_new_type(&s("Grass")), Ok(()));
    assert_eq!(chart.remove_existing_type(&s("Grass")), Ok(()));
    assert_eq!(chart.get_type_list(), names);
    assert_eq!(chart.get_type_map(), grid);
}

#[test]
fn remove_takes_row_and_column() {
    let mut chart = chart_of(&["A", "B", "C"]);
    assert_eq!(chart.add_effectiveness(&s("A"), &s("C"), s("Super Effective")), Ok(()));
    assert_eq!(chart.add_effectiveness(&s("C"), &s("A"), s("Immune")), Ok(()));
    assert_eq!(chart.add_effectiveness(&s("B"), &s("A"), s("Neutral")), Ok(()));
    assert_eq!(chart.remove_existing_type(&s("B")), Ok(()));
    assert_eq!(chart.get_type_list(), vec![s("A"), s("C")]);
    assert_eq!(
        chart.get_type_map(),
        vec![
            vec![Effectiveness::Unknown, known(1)],
            vec![Effectiveness::Known(Multiplier::Zero), Effectiveness::Unknown],
        ]
    );
}

#[test]
fn remove_of_the_only_type_empties_the_chart() {
    let mut chart = chart_of(&["A"]);
    assert_eq!(chart.remove_existing_type(&s("A")), Ok(()));
    assert!(chart.is_empty());
    assert_eq!(chart.get_type_map(), Vec::<Vec<Effectiveness>>::new());
}

#[test]
fn remove_of_a_missing_type_changes_nothing() {
    let mut chart = chart_of(&["A", "B"]);
    assert_eq!(chart.add_effectiveness(&s("A"), &s("B"), s("Neutral")), Ok(()));
    let grid = chart.get_type_map();
    assert_eq!(chart.remove_existing_type(&s("C")), Err(ChartError::NotFound));
    assert_eq!(chart.get_type_list(), vec![s("A"), s("B")]);
    assert_eq!(chart.get_type_map(), grid);
    let mut none = TypeChart::empty();
    assert_eq!(none.remove_existing_type(&s("A")), Err(ChartError::NotFound));
}

#[test]
fn set_overwrites_one_entry() {
    let mut chart = chart_of(&["A", "B"]);
    assert_eq!(chart.add_effectiveness(&s("A"), &s("B"), s("Super Effective")), Ok(()));
    assert_eq!(chart.entry(0, 1), known(1));
    assert_eq!(chart.entry(1, 0), Effectiveness::Unknown);
    assert_eq!(chart.add_effectiveness(&s("A"), &s("B"), s("Triple Not Very Effective")), Ok(()));
    assert_eq!(chart.entry(0, 1), known(-3));
    assert_eq!(chart.add_effectiveness(&s("A"), &s("B"), s("?")), Ok(()));
    assert_eq!(chart.entry(0, 1), Effectiveness::Unknown);
    assert_eq!(chart.add_effectiveness(&s("B"), &s("B"), s("Immune")), Ok(()));
    assert_eq!(
        chart.get_type_map(),
        vec![
            vec![Effectiveness::Unknown, Effectiveness::Unknown],
            vec![Effectiveness::Unknown, Effectiveness::Known(Multiplier::Zero)],
        ]
    );
}

#[test]
fn set_with_a_missing_type_is_not_found() {
    let mut chart = chart_of(&["A", "B"]);
    let grid = chart.get_type_map();
    assert_eq!(
        chart.add_effectiveness(&s("X"), &s("B"), s("Neutral")),
        Err(ChartError::NotFound)
    );
    assert_eq!(
        chart.add_effectiveness(&s("A"), &s("X"), s("Neutral")),
        Err(ChartError::NotFound)
    );
    assert_eq!(
        chart.add_effectiveness(&s("X"), &s("Y"), s("no label")),
        Err(ChartError::NotFound)
    );
    assert_eq!(chart.get_type_map(), grid);
}

#[test]
fn set_with_a_text_that_is_no_label_is_refused() {
    let mut chart = chart_of(&["A", "B"]);
    assert_eq!(chart.add_effectiveness(&s("A"), &s("B"), s("Neutral")), Ok(()));
    assert_eq!(
        chart.add_effectiveness(&s("A"), &s("B"), s("Tripel Super Effective")),
        Err(ChartError::InvalidLabel)
    );
    assert_eq!(chart.entry(0, 1), known(0));
}

#[test]
fn new_takes_a_fitting_grid() {
    let grid = vec![
        vec![Effectiveness::Unknown, known(1)],
        vec![known(-1), Effectiveness::Known(Multiplier::Zero)],
    ];
    let chart = TypeChart::new(grid.clone(), vec![s("A"), s("B")]).unwrap();
    assert_eq!(chart.get_type_list(), vec![s("A"), s("B")]);
    assert_eq!(chart.get_type_map(), grid);
    assert!(TypeChart::new(Vec::new(), Vec::new()).unwrap().is_empty());
}

#[test]
fn new_refuses_what_is_no_chart() {
    assert!(TypeChart::new(unknown_grid(2), vec![s("A"), s("A")]).is_none());
    assert!(TypeChart::new(unknown_grid(2), vec![s("A")]).is_none());
    assert!(TypeChart::new(unknown_grid(1), vec![s("A"), s("B")]).is_none());
    let ragged = vec![vec![Effectiveness::Unknown; 2], vec![Effectiveness::Unknown; 1]];
    assert!(TypeChart::new(ragged, vec![s("A"), s("B")]).is_none());
    let wide = vec![vec![Effectiveness::Unknown; 2], vec![Effectiveness::Unknown; 3]];
    assert!(TypeChart::new(wide, vec![s("A"), s("B")]).is_none());
    let unlabelled = vec![vec![known(4)]];
    assert!(TypeChart::new(unlabelled, vec![s("A")]).is_none());
}

#[test]
fn distinct_finds_a_repeated_name() {
    assert!(distinct(&Vec::new()));
    assert!(distinct(&vec![s("A"), s("B"), s("a")]));
    assert!(!distinct(&vec![s("A"), s("B"), s("A")]));
    assert!(!distinct(&vec![s("A"), s("B"), s("B")]));
}

#[test]
fn square_checks_shape_and_values() {
    assert!(square(&unknown_grid(3), 3));
    assert!(!square(&unknown_grid(3), 2));
    assert!(square(&Vec::new(), 0));
    assert!(!square(&vec![vec![known(-4)]], 1));
    assert!(square(&vec![vec![known(-3)]], 1));
}
