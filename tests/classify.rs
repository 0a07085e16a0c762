use serde_graph::record::{classify, Color, DataType, Entry};

const TABLE: [([bool; 6], Color); 64] = [
        ([false, false, false, false, false, false], Color::White),
        ([true, false, false, false, false, false], Color::GreenGradient),
        ([false, true, false, false, false, false], Color::GreenGradient),
        ([true, true, false, false, false, false], Color::Green),
        ([false, false, true, false, false, false], Color::Red),
        ([true, false, true, false, false, false], Color::BlueGradient),
        ([false, true, true, false, false, false], Color::BlueGradient),
        ([true, true, true, false, false, false], Color::BlueGradient),
        ([false, false, false, true, false, false], Color::Red),
        ([true, false, false, true, false, false], Color::BlueGradient),
        ([false, true, false, true, false, false], Color::BlueGradient),
        ([true, true, false, true, false, false], Color::BlueGradient),
        ([false, false, true, true, false, false], Color::Red),
        ([true, false, true, true, false, false], Color::BlueGradient),
        ([false, true, true, true, false, false], Color::BlueGradient),
        ([true, true, true, true, false, false], Color::Blue),
        ([false, false, false, false, true, false], Color::YellowGradient),
        ([true, false, false, false, true, false], Color::Red),
        ([false, true, false, false, true, false], Color::Red),
        ([true, true, false, false, true, false], Color::Red),
        ([false, false, true, false, true, false], Color::Red),
        ([true, false, true, false, true, false], Color::Red),
        ([false, true, true, false, true, false], Color::Red),
        ([true, true, true, false, true, false], Color::Red),
        ([false, false, false, true, true, false], Color::Red),
        ([true, false, false, true, true, false], Color::Red),
        ([false, true, false, true, true, false], Color::Red),
        ([true, true, false, true, true, false], Color::Red),
        ([false, false, true, true, true, false], Color::Red),
        ([true, false, true, true, true, false], Color::Red),
        ([false, true, true, true, true, false], Color::Red),
        ([true, true, true, true, true, false], Color::Red),
        ([false, false, false, false, false, true], Color::YellowGradient),
        ([true, false, false, false, false, true], Color::Red),
        ([false, true, false, false, false, true], Color::Red),
        ([true, true, false, false, false, true], Color::Red),
        ([false, false, true, false, false, true], Color::Red),
        ([true, false, true, false, false, true], Color::Red),
        ([false, true, true, false, false, true], Color::Red),
        ([true, true, true, false, false, true], Color::Red),
        ([false, false, false, true, false, true], Color::Red),
        ([true, false, false, true, false, true], Color::Red),
        ([false, true, false, true, false, true], Color::Red),
        ([true, true, false, true, false, true], Color::Red),
        ([false, false, true, true, false, true], Color::Red),
        ([true, false, true, true, false, true], Color::Red),
        ([false, true, true, true, false, true], Color::Red),
        ([true, true, true, true, false, true], Color::Red),
        ([false, false, false, false, true, true], Color::Yellow),
        ([true, false, false, false, true, true], Color::Red),
        ([false, true, false, false, true, true], Color::Red),
        ([true, true, false, false, true, true], Color::Red),
        ([false, false, true, false, true, true], Color::Red),
        ([true, false, true, false, true, true], Color::Red),
        ([false, true, true, false, true, true], Color::Red),
        ([true, true, true, false, true, true], Color::Red),
        ([false, false, false, true, true, true], Color::Red),
        ([true, false, false, true, true, true], Color::Red),
        ([false, true, false, true, true, true], Color::Red),
        ([true, true, false, true, true, true], Color::Red),
        ([false, false, true, true, true, true], Color::Red),
        ([true, false, true, true, true, true], Color::Red),
        ([false, true, true, true, true, true], Color::Red),
        ([true, true, true, true, true, true], Color::Red),
];

#[test]
fn classifier_table_all_combinations() {
    for (facts, expected) in TABLE.iter() {
        let [s, d, f, i, cs, cd] = *facts;
        assert_eq!(classify(s, d, f, i, cs, cd), *expected, "facts {:?}", facts);
    }
}

#[test]
fn classifier_red_iff_invalid() {
    for (facts, _) in TABLE.iter() {
        let [s, d, f, i, cs, cd] = *facts;
        let derived = s || d;
        let invalid = (derived && (cs || cd)) || (!derived && (f || i));
        assert_eq!(classify(s, d, f, i, cs, cd) == Color::Red, invalid, "facts {:?}", facts);
    }
}

#[test]
fn classifier_gradient_iff_asymmetric_on_valid() {
    for (facts, _) in TABLE.iter() {
        let [s, d, f, i, cs, cd] = *facts;
        let c = classify(s, d, f, i, cs, cd);
        let gradient = matches!(c, Color::GreenGradient | Color::BlueGradient | Color::YellowGradient);
        let asym = s != d || f != i || cs != cd;
        if c != Color::Red {
            assert_eq!(gradient, asym, "facts {:?}", facts);
        }
        if !asym {
            assert!(!gradient);
        }
    }
}

#[test]
fn classifier_red_even_when_asymmetric() {
    assert_eq!(classify(true, false, false, false, true, false), Color::Red);
}

#[test]
fn color_and_shape_names() {
    assert_eq!(Color::Red.to_string(), "red");
    assert_eq!(Color::White.to_string(), "white");
    assert_eq!(Color::Green.to_string(), "green");
    assert_eq!(Color::GreenGradient.to_string(), "green_gradient");
    assert_eq!(Color::Yellow.to_string(), "yellow");
    assert_eq!(Color::YellowGradient.to_string(), "yellow_gradient");
    assert_eq!(Color::Blue.to_string(), "blue");
    assert_eq!(Color::BlueGradient.to_string(), "blue_gradient");
    assert_eq!(DataType::Enum.to_string(), "ellipse");
    assert_eq!(DataType::Struct.to_string(), "rectangle");
    assert_eq!(DataType::Unknown.to_string(), "rhombus");
}

#[test]
fn entry_new_is_white() {
    let e = Entry::new(DataType::Struct);
    assert_eq!(e.get_color(), Color::White);
    assert!(e.fields.is_empty());
    assert!(!e.public);
}

#[test]
fn add_to_fields_keeps_first_occurrence() {
    let mut e = Entry::new(DataType::Enum);
    e.add_to_fields(vec!["A".to_string(), "B".to_string(), "A".to_string()]);
    e.add_to_fields(vec!["C".to_string(), "B".to_string()]);
    assert_eq!(e.fields, vec!["A".to_string(), "B".to_string(), "C".to_string()]);
}
