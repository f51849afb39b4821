use harmonic_sort::key::{
    camelot_from_clean, camelot_pitch, camelot_to_internal, free_text_to_internal,
    get_sort_weight, key_from_text, resolve_lookup_key, KeyError, Mode,
};

const WHEEL: [(u8, i32, i32); 12] = [
    (1, 8, 11),
    (2, 3, 6),
    (3, 10, 1),
    (4, 5, 8),
    (5, 0, 3),
    (6, 7, 10),
    (7, 2, 5),
    (8, 9, 0),
    (9, 4, 7),
    (10, 11, 2),
    (11, 6, 9),
    (12, 1, 4),
];

#[test]
fn every_camelot_code_weighs_its_ordinal() {
    for (n, minor_pitch, major_pitch) in WHEEL {
        let a = camelot_to_internal(&format!("{}A", n)).unwrap();
        assert_eq!(a, (minor_pitch, Mode::Minor));
        assert_eq!(get_sort_weight(a.0, a.1), 10 * n as i32);
        let b = camelot_to_internal(&format!("{}B", n)).unwrap();
        assert_eq!(b, (major_pitch, Mode::Major));
        assert_eq!(get_sort_weight(b.0, b.1), 10 * n as i32 + 1);
    }
}

#[test]
fn camelot_round_trips_through_weight() {
    for n in 1u8..=12 {
        for (letter, mode) in [("A", Mode::Minor), ("B", Mode::Major)] {
            let code = format!("{}{}", n, letter);
            let (pitch, m) = camelot_to_internal(&code).unwrap();
            let w = get_sort_weight(pitch, m);
            let back_mode = if w % 10 == 1 { Mode::Major } else { Mode::Minor };
            assert_eq!(w / 10, n as i32);
            assert_eq!(back_mode, mode);
            assert_eq!(format!("{}{}", w / 10, if back_mode == Mode::Minor { "A" } else { "B" }), code);
        }
    }
}

#[test]
fn invalid_camelot_codes_fail() {
    for code in ["13A", "", "XYZ", "0A", "5C", "A", "8", "1 2A"] {
        assert_eq!(camelot_to_internal(code), Err(KeyError::InvalidCamelotCode), "{}", code);
    }
}

#[test]
fn camelot_is_trimmed_and_upper_cased() {
    assert_eq!(camelot_to_internal(" 8a "), Ok((9, Mode::Minor)));
    assert_eq!(camelot_to_internal("\t12b\n"), Ok((4, Mode::Major)));
    assert_eq!(camelot_to_internal("08A"), Ok((9, Mode::Minor)));
}

#[test]
fn clean_camelot_is_read_as_given() {
    assert_eq!(camelot_from_clean("1B"), Ok((11, Mode::Major)));
    assert_eq!(camelot_from_clean("1b"), Err(KeyError::InvalidCamelotCode));
    assert_eq!(camelot_from_clean(" 1B"), Err(KeyError::InvalidCamelotCode));
}

#[test]
fn wheel_table_entries() {
    assert_eq!(camelot_pitch(1, Mode::Major), 11);
    assert_eq!(camelot_pitch(1, Mode::Minor), 8);
    assert_eq!(camelot_pitch(2, Mode::Major), 6);
    assert_eq!(camelot_pitch(2, Mode::Minor), 3);
    assert_eq!(camelot_pitch(12, Mode::Major), 4);
    assert_eq!(camelot_pitch(12, Mode::Minor), 1);
}

#[test]
fn weight_of_unknown_key_is_sentinel() {
    assert_eq!(get_sort_weight(-1, Mode::Major), 990);
    assert_eq!(get_sort_weight(12, Mode::Minor), 990);
    assert_eq!(get_sort_weight(8, Mode::Minor), 10);
    assert_eq!(get_sort_weight(0, Mode::Major), 81);
}

#[test]
fn free_text_keys() {
    assert_eq!(free_text_to_internal("F#"), Ok((6, Mode::Major)));
    assert_eq!(free_text_to_internal("Gb minor"), Ok((6, Mode::Minor)));
    assert_eq!(free_text_to_internal("C major"), Ok((0, Mode::Major)));
    assert_eq!(free_text_to_internal("Am"), Ok((9, Mode::Minor)));
    assert_eq!(free_text_to_internal("bbm"), Ok((10, Mode::Minor)));
    assert_eq!(free_text_to_internal("EB"), Ok((3, Mode::Major)));
    assert_eq!(free_text_to_internal("B"), Ok((11, Mode::Major)));
}

#[test]
fn free_text_unicode_accidentals() {
    assert_eq!(free_text_to_internal("A\u{266D} major"), Ok((8, Mode::Major)));
    assert_eq!(free_text_to_internal("C\u{266F}m"), Ok((1, Mode::Minor)));
}

#[test]
fn free_text_is_lower_cased_for_the_mode() {
    assert_eq!(free_text_to_internal("AM"), Ok((9, Mode::Minor)));
    assert_eq!(free_text_to_internal("D MAJOR"), Ok((2, Mode::Major)));
}

#[test]
fn free_text_unknown_roots_fail() {
    for text in ["", "H", "Cb", "E#", "7"] {
        assert_eq!(free_text_to_internal(text), Err(KeyError::UnrecognizedKeyString), "{}", text);
    }
}

#[test]
fn key_from_given_lower_case() {
    assert_eq!(key_from_text("AM", "AM"), Ok((9, Mode::Major)));
    assert_eq!(key_from_text("AM", "am"), Ok((9, Mode::Minor)));
}

#[test]
fn lookup_keys_try_camelot_first() {
    assert_eq!(resolve_lookup_key("8A"), Ok((9, Mode::Minor)));
    assert_eq!(resolve_lookup_key("Am"), Ok((9, Mode::Minor)));
    assert_eq!(resolve_lookup_key("5B"), Ok((3, Mode::Major)));
    assert_eq!(resolve_lookup_key("5C"), Err(KeyError::UnrecognizedKeyString));
}
