use type_chart::effectiveness::{
    effectiveness_f32_to_string, effectiveness_string_to_f32, ChartError, Effectiveness, Multiplier,
};

fn known(exponent: i8) -> Effectiveness {
    Effectiveness::Known(Multiplier::PowerOfTwo(exponent))
}

fn immune() -> Effectiveness {
    Effectiveness::Known(Multiplier::Zero)
}

fn table() -> Vec<(&'static str, Effectiveness)> {
    vec![
        ("Immune", immune()),
        ("Triple Not Very Effective", known(-3)),
        ("Double Not Very Effective", known(-2)),
        ("Not Very Effective", known(-1)),
        ("Neutral", known(0)),
        ("Super Effective", known(1)),
        ("Double Super Effective", known(2)),
        ("Triple Super Effective", known(3)),
        ("?", Effectiveness::Unknown),
    ]
}

#[test]
fn decode_reads_each_label() {
    for (label, value) in table() {
        assert_eq!(effectiveness_string_to_f32(&label.to_string()), Ok(value));
    }
}

#[test]
fn decode_refuses_other_texts() {
    for text in ["", "neutral", " Neutral", "Neutral ", "Neutral?", "??", "Tripel Super Effective", "8"] {
        assert_eq!(
            effectiveness_string_to_f32(&text.to_string()),
            Err(ChartError::InvalidLabel)
        );
    }
}

#[test]
fn encode_writes_each_label_without_markers() {
    for (label, value) in table() {
        assert_eq!(effectiveness_f32_to_string(value, 0), Ok(label.to_string()));
    }
}

#[test]
fn encode_appends_one_mark_per_marker() {
    assert_eq!(effectiveness_f32_to_string(known(0), 1), Ok("Neutral?".to_string()));
    assert_eq!(effectiveness_f32_to_string(known(0), 2), Ok("Neutral??".to_string()));
    assert_eq!(
        effectiveness_f32_to_string(known(-1), 2),
        Ok("Not Very Effective??".to_string())
    );
    assert_eq!(
        effectiveness_f32_to_string(known(2), 1),
        Ok("Double Super Effective?".to_string())
    );
    assert_eq!(
        effectiveness_f32_to_string(known(3), 5),
        Ok("Triple Super Effective?????".to_string())
    );
    assert_eq!(effectiveness_f32_to_string(Effectiveness::Unknown, 2), Ok("???".to_string()));
}

#[test]
fn encode_never_marks_immune() {
    assert_eq!(effectiveness_f32_to_string(immune(), 1), Ok("Immune".to_string()));
    assert_eq!(effectiveness_f32_to_string(immune(), 7), Ok("Immune".to_string()));
}

#[test]
fn encode_refuses_a_multiplier_without_label() {
    for exponent in [4i8, -4, 9, -9, i8::MAX, i8::MIN] {
        assert_eq!(effectiveness_f32_to_string(known(exponent), 0), Err(ChartError::InvalidValue));
        assert_eq!(effectiveness_f32_to_string(known(exponent), 2), Err(ChartError::InvalidValue));
    }
}

#[test]
fn decode_undoes_encode() {
    for (_, value) in table() {
        let label = effectiveness_f32_to_string(value, 0).unwrap();
        assert_eq!(effectiveness_string_to_f32(&label), Ok(value));
    }
}

#[test]
fn defined_multipliers_are_the_eight() {
    assert!(Multiplier::Zero.defined());
    for exponent in i8::MIN..=i8::MAX {
        assert_eq!(
            Multiplier::PowerOfTwo(exponent).defined(),
            (-3..=3).contains(&exponent)
        );
    }
    assert!(Effectiveness::Unknown.valid());
    assert!(known(3).valid());
    assert!(!known(4).valid());
}

#[test]
fn multiply_adds_exponents_and_keeps_zero() {
    let two = Multiplier::PowerOfTwo(1);
    let half = Multiplier::PowerOfTwo(-1);
    assert_eq!(two.multiply(half), Multiplier::PowerOfTwo(0));
    assert_eq!(two.multiply(two), Multiplier::PowerOfTwo(2));
    assert_eq!(Multiplier::PowerOfTwo(3).multiply(Multiplier::PowerOfTwo(3)), Multiplier::PowerOfTwo(6));
    assert_eq!(Multiplier::Zero.multiply(two), Multiplier::Zero);
    assert_eq!(half.multiply(Multiplier::Zero), Multiplier::Zero);
}
