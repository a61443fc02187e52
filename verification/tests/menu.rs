use type_chart::menu::{
    bool_answer, bool_answer_of, effectiveness_answer, further_type, menu_choice, name_answer,
    name_answer_of, save_answer, save_answer_of, Answer, Choice,
};

fn s(text: &str) -> String {
    text.to_string()
}

#[test]
fn menu_choice_knows_the_six_options() {
    assert_eq!(menu_choice("1"), Choice::AddType);
    assert_eq!(menu_choice("2\n"), Choice::RemoveType);
    assert_eq!(menu_choice(" 3 "), Choice::AddEffectiveness);
    assert_eq!(menu_choice("4"), Choice::ShowType);
    assert_eq!(menu_choice("5"), Choice::ShowTypes);
    assert_eq!(menu_choice("6"), Choice::Quit);
    assert_eq!(menu_choice("quit\n"), Choice::Quit);
    assert_eq!(menu_choice("Quit"), Choice::Quit);
}

#[test]
fn menu_choice_refuses_the_rest() {
    for line in ["", "\n", "0", "7", "11", "QUIT", "quit now", "one"] {
        assert_eq!(menu_choice(line), Choice::Incorrect);
    }
}

#[test]
fn name_answer_trims_the_name() {
    assert_eq!(name_answer("Fire\n"), Answer::Given(s("Fire")));
    assert_eq!(name_answer("  Mr. Mime \r\n"), Answer::Given(s("Mr. Mime")));
    assert_eq!(name_answer("none"), Answer::Given(s("none")));
}

#[test]
fn name_answer_leaves_on_quit_in_any_case() {
    for line in ["quit", "Quit\n", " QUIT ", "qUiT"] {
        assert_eq!(name_answer(line), Answer::Quit);
    }
    assert_eq!(name_answer("quit it"), Answer::Given(s("quit it")));
}

#[test]
fn name_answer_asks_again_on_an_empty_line() {
    for line in ["", "\n", "   \t\r\n"] {
        assert_eq!(name_answer(line), Answer::Again);
    }
}

#[test]
fn name_answer_of_goes_by_the_lowered_text() {
    assert_eq!(name_answer_of("Quit", "quit"), Answer::Quit);
    assert_eq!(name_answer_of("Quit", "Quit"), Answer::Given(s("Quit")));
    assert_eq!(name_answer_of("", ""), Answer::Again);
    assert_eq!(name_answer_of("", "quit"), Answer::Quit);
}

#[test]
fn bool_answer_knows_yes_and_no() {
    for line in ["true", "yes", "y", "Y\n", " YES ", "True"] {
        assert_eq!(bool_answer(line), Answer::Given(true));
    }
    for line in ["false", "no", "n", "N\n", " No ", "FALSE"] {
        assert_eq!(bool_answer(line), Answer::Given(false));
    }
    assert_eq!(bool_answer("quit\n"), Answer::Quit);
    assert_eq!(bool_answer("QUIT"), Answer::Quit);
    for line in ["", "maybe", "yess", "1", "0", "t", "f"] {
        assert_eq!(bool_answer(line), Answer::Again);
    }
}

#[test]
fn bool_answer_of_takes_lower_case_only() {
    assert_eq!(bool_answer_of("yes"), Answer::Given(true));
    assert_eq!(bool_answer_of("Yes"), Answer::Again);
    assert_eq!(bool_answer_of("n"), Answer::Given(false));
    assert_eq!(bool_answer_of("quit"), Answer::Quit);
    assert_eq!(bool_answer_of("Quit"), Answer::Again);
}

#[test]
fn save_answer_knows_yes_and_no_only() {
    for line in ["y", "yes", "Y\n", " Yes "] {
        assert_eq!(save_answer(line), Some(true));
    }
    for line in ["n", "no", "NO\n"] {
        assert_eq!(save_answer(line), Some(false));
    }
    for line in ["", "true", "false", "quit", "maybe"] {
        assert_eq!(save_answer(line), None);
    }
    assert_eq!(save_answer_of("yes"), Some(true));
    assert_eq!(save_answer_of("YES"), None);
    assert_eq!(save_answer_of("no"), Some(false));
}

#[test]
fn effectiveness_answer_takes_numbers_short_forms_and_labels() {
    for line in ["1", "SE", "Super Effective", " 1 \n"] {
        assert_eq!(effectiveness_answer(line), Answer::Given(s("Super Effective")));
    }
    for line in ["2", "Neutral\n"] {
        assert_eq!(effectiveness_answer(line), Answer::Given(s("Neutral")));
    }
    for line in ["3", "NVE", "Not Very Effective"] {
        assert_eq!(effectiveness_answer(line), Answer::Given(s("Not Very Effective")));
    }
    for line in ["4", "Immune"] {
        assert_eq!(effectiveness_answer(line), Answer::Given(s("Immune")));
    }
    for line in ["quit", "Quit\n"] {
        assert_eq!(effectiveness_answer(line), Answer::Quit);
    }
    for line in ["", "5", "se", "nve", "QUIT", "Double Super Effective", "?", "neutral"] {
        assert_eq!(effectiveness_answer(line), Answer::Again);
    }
}

#[test]
fn further_type_takes_none_for_no_type() {
    assert_eq!(further_type("none"), None);
    assert_eq!(further_type(" none\n"), None);
    assert_eq!(further_type("None"), Some(s("None")));
    assert_eq!(further_type(" Water \n"), Some(s("Water")));
    assert_eq!(further_type(""), Some(s("")));
}
