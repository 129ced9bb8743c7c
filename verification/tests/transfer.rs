use lamberto::transfer::{default_direction, type_label, Direction, TransferType};

#[test]
fn test_type_label() {
    assert_eq!(type_label(1, Direction::Prograde), "I");
    assert_eq!(type_label(2, Direction::Prograde), "II");
    assert_eq!(type_label(1, Direction::Retrograde), "I-R");
    assert_eq!(type_label(3, Direction::Retrograde), "III-R");
}

#[test]
fn type_label_all_roman_numerals() {
    let expected = ["I", "II", "III", "IV", "V", "VI"];
    for (i, e) in expected.iter().enumerate() {
        let n = (i + 1) as u32;
        assert_eq!(type_label(n, Direction::Prograde), *e);
        assert_eq!(type_label(n, Direction::Retrograde), format!("{e}-R"));
    }
}

#[test]
fn type_label_beyond_six_is_decimal() {
    assert_eq!(type_label(7, Direction::Prograde), "7");
    assert_eq!(type_label(12, Direction::Retrograde), "12-R");
    assert_eq!(type_label(0, Direction::Prograde), "0");
    assert_eq!(type_label(0, Direction::Retrograde), "0-R");
    assert_eq!(type_label(100, Direction::Prograde), "100");
    assert_eq!(type_label(u32::MAX, Direction::Prograde), "4294967295");
}

#[test]
fn transfer_type_to_string_matches_label() {
    let t = TransferType { type_num: 2, direction: Direction::Retrograde };
    assert_eq!(t.to_string(), "II-R");
    let t = TransferType { type_num: 9, direction: Direction::Prograde };
    assert_eq!(t.to_string(), "9");
}

#[test]
fn retrograde_label_is_prograde_label_with_suffix() {
    for n in [0u32, 1, 4, 6, 7, 35, 1000] {
        let pro = type_label(n, Direction::Prograde);
        let retro = type_label(n, Direction::Retrograde);
        assert_eq!(retro, format!("{pro}-R"));
    }
}

#[test]
fn labels_of_distinct_types_differ() {
    let mut labels = Vec::new();
    for n in 0u32..40 {
        for d in [Direction::Prograde, Direction::Retrograde] {
            labels.push(type_label(n, d));
        }
    }
    let mut sorted = labels.clone();
    sorted.sort();
    sorted.dedup();
    assert_eq!(sorted.len(), labels.len());
}

#[test]
fn default_direction_is_prograde() {
    assert_eq!(default_direction(), Direction::Prograde);
}

fn read_label(s: &str) -> (u32, Direction) {
    let (numeral, direction) = match s.strip_suffix("-R") {
        Some(rest) => (rest, Direction::Retrograde),
        None => (s, Direction::Prograde),
    };
    let n = match numeral {
        "I" => 1,
        "II" => 2,
        "III" => 3,
        "IV" => 4,
        "V" => 5,
        "VI" => 6,
        other => other.parse().unwrap(),
    };
    (n, direction)
}

#[test]
fn labels_read_back_as_their_types() {
    for n in [0u32, 1, 2, 3, 4, 5, 6, 7, 9, 10, 12, 100, 4_000_000_000, u32::MAX] {
        for d in [Direction::Prograde, Direction::Retrograde] {
            assert_eq!(read_label(&type_label(n, d)), (n, d));
        }
    }
    assert!(!type_label(7, Direction::Prograde).ends_with("-R"));
}
