use djdrop::analyzer::{analysis_done_payload, bpm_fold_fits, key_name, keyfinder_key, normalize_bpm, to_camelot};

#[test]
fn normalize_bpm_doubles_below_min() {
    assert_eq!(normalize_bpm(70, Some(120), Some(175)), 140);
    // 45 → ×2=90 → ×2=180 (done doubling) → ÷2=90 (done halving)
    assert_eq!(normalize_bpm(45, Some(120), Some(175)), 90);
}

#[test]
fn normalize_bpm_halves_above_max() {
    assert_eq!(normalize_bpm(200, Some(120), Some(175)), 100);
}

#[test]
fn normalize_bpm_in_range_unchanged() {
    assert_eq!(normalize_bpm(140, Some(120), Some(175)), 140);
}

#[test]
fn normalize_bpm_no_range_unchanged() {
    assert_eq!(normalize_bpm(70, None, None), 70);
}

#[test]
fn camelot_major_keys() {
    assert_eq!(to_camelot("C"), "8B");
    assert_eq!(to_camelot("A"), "11B");
    assert_eq!(to_camelot("F#"), "2B");
}

#[test]
fn camelot_minor_keys() {
    assert_eq!(to_camelot("Am"), "8A");
    assert_eq!(to_camelot("Dm"), "7A");
    assert_eq!(to_camelot("F#m"), "11A");
}

#[test]
fn camelot_unknown_key_passthrough() {
    assert_eq!(to_camelot("Xm"), "Xm");
}

#[test]
fn camelot_covers_the_whole_wheel() {
    let keys = [
        ("C", "8B"), ("G", "9B"), ("D", "10B"), ("A", "11B"), ("E", "12B"), ("B", "1B"),
        ("F#", "2B"), ("C#", "3B"), ("G#", "4B"), ("D#", "5B"), ("A#", "6B"), ("F", "7B"),
        ("Am", "8A"), ("Em", "9A"), ("Bm", "10A"), ("F#m", "11A"), ("C#m", "12A"), ("G#m", "1A"),
        ("D#m", "2A"), ("A#m", "3A"), ("Fm", "4A"), ("Cm", "5A"), ("Gm", "6A"), ("Dm", "7A"),
    ];
    for (k, c) in keys {
        assert_eq!(to_camelot(k), c);
    }
    assert_eq!(to_camelot(""), "");
    assert_eq!(to_camelot("c"), "c");
}

#[test]
fn normalize_bpm_edge_cases() {
    // zero tempo, inverted range, zero minimum: nothing to fold
    assert_eq!(normalize_bpm(0, Some(120), Some(175)), 0);
    assert_eq!(normalize_bpm(70, Some(175), Some(120)), 70);
    assert_eq!(normalize_bpm(70, Some(0), Some(175)), 70);
    assert_eq!(normalize_bpm(70, Some(120), None), 70);
    // a range spanning an octave always catches the tempo
    assert_eq!(normalize_bpm(45, Some(80), Some(160)), 90);
    assert_eq!(normalize_bpm(1000, Some(80), Some(160)), 125);
    // folding twice can differ when the range is narrower than an octave
    assert_eq!(normalize_bpm(175, Some(120), Some(174)), 87);
    assert_eq!(normalize_bpm(87, Some(120), Some(174)), 174);
}

#[test]
fn analysis_payload_only_with_a_result() {
    assert!(analysis_done_payload("a".to_string(), 0, String::new()).is_none());
    let p = analysis_done_payload("a".to_string(), 128, String::new()).unwrap();
    assert_eq!((p.id.as_str(), p.bpm, p.key.as_str()), ("a", 128, ""));
    let p = analysis_done_payload("b".to_string(), 0, "Am".to_string()).unwrap();
    assert_eq!((p.id.as_str(), p.bpm, p.key.as_str()), ("b", 0, "Am"));
}

#[test]
fn keyfinder_output_is_trimmed() {
    assert_eq!(keyfinder_key("Am\n"), Some("Am".to_string()));
    assert_eq!(keyfinder_key("  F#\r\n"), Some("F#".to_string()));
    assert_eq!(keyfinder_key(" \n\t"), None);
    assert_eq!(keyfinder_key(""), None);
}

#[test]
fn key_names_follow_the_note_table() {
    assert_eq!(key_name(0, false), "C");
    assert_eq!(key_name(11, false), "B");
    assert_eq!(key_name(9, true), "Am");
    assert_eq!(key_name(6, true), "F#m");
    assert_eq!(to_camelot(&key_name(9, true)), "8A");
    assert_eq!(to_camelot(&key_name(1, false)), "3B");
}

#[test]
fn folding_fits_unless_the_range_starts_above_half_of_u32() {
    assert!(bpm_fold_fits(70, Some(120), Some(175)));
    assert!(bpm_fold_fits(5, None, None));
    assert!(bpm_fold_fits(0, Some(3_000_000_000), Some(4_000_000_000)));
    assert!(bpm_fold_fits(3_500_000_000, Some(3_000_000_000), Some(4_000_000_000)));
    assert!(!bpm_fold_fits(1, Some(3_000_000_000), Some(4_000_000_000)));
}
