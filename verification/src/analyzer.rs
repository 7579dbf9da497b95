//! Tempo normalisation, key notation and the analysis result that is
//! reported once a downloaded track has been examined.

use vstd::prelude::*;
use crate::text::{append_str, str_eq, trim, trim_chars};

verus! {

/// Doubles `b` until it reaches `lo` (a zero or negative `b` is left alone).
pub open spec fn double_up(b: int, lo: int) -> int
    decreases if lo > b { lo - b } else { 0 },
{
    if b <= 0 || b >= lo {
        b
    } else {
        double_up(2 * b, lo)
    }
}

/// Halves `b` (rounding down) until it is at most `hi`.
pub open spec fn halve_down(b: int, hi: int) -> int
    decreases b,
{
    if hi < 0 || b <= hi {
        b
    } else {
        halve_down(b / 2, hi)
    }
}

/// Both bounds are set and form a usable range, and there is a tempo to fold.
pub open spec fn bpm_range_applies(bpm: u32, min: Option<u32>, max: Option<u32>) -> bool {
    match (min, max) {
        (Some(lo), Some(hi)) => lo > 0 && lo < hi && bpm > 0,
        _ => false,
    }
}

/// The tempo folded into `lo..=hi` by octaves: first doubled up to `lo`, then
/// halved down to `hi`.
pub open spec fn fold_bpm(bpm: int, lo: int, hi: int) -> int {
    halve_down(double_up(bpm, lo), hi)
}

/// What `normalize_bpm` gives.
pub open spec fn normalized_bpm(bpm: u32, min: Option<u32>, max: Option<u32>) -> int {
    if bpm_range_applies(bpm, min, max) {
        fold_bpm(bpm as int, min->0 as int, max->0 as int)
    } else {
        bpm as int
    }
}

/// The doubling steps stay within `u32`.
pub open spec fn normalize_bpm_fits(bpm: u32, min: Option<u32>, max: Option<u32>) -> bool {
    bpm_range_applies(bpm, min, max) ==> double_up(bpm as int, min->0 as int) <= u32::MAX
}

proof fn lemma_double_up(b: int, lo: int)
    requires
        b > 0,
    ensures
        double_up(b, lo) >= b,
        double_up(b, lo) >= lo,
        b >= lo ==> double_up(b, lo) == b,
        b < lo ==> double_up(b, lo) == double_up(2 * b, lo),
    decreases if lo > b { lo - b } else { 0 },
{
    if b < lo {
        lemma_double_up(2 * b, lo);
    }
}

proof fn lemma_halve_down(b: int, hi: int)
    requires
        b > 0,
        hi > 0,
    ensures
        0 < halve_down(b, hi) <= hi,
        b <= hi ==> halve_down(b, hi) == b,
        b > hi ==> 2 * halve_down(b, hi) >= hi,
    decreases b,
{
    if b > hi {
        lemma_halve_down(b / 2, hi);
    }
}

/// Folds a detected tempo into the configured range by doubling or halving.
/// Without a usable range (both bounds set, `0 < min < max`) or without a
/// tempo (`0`), the tempo is returned as it is.
pub fn normalize_bpm(bpm: u32, min: Option<u32>, max: Option<u32>) -> (r: u32)
    requires
        normalize_bpm_fits(bpm, min, max),
    ensures
        r == normalized_bpm(bpm, min, max),
{
    let mut b = bpm;
    if let (Some(lo), Some(hi)) = (min, max) {
        if lo > 0 && lo < hi && b > 0 {
            while b < lo
                invariant
                    0 < b,
                    double_up(b as int, lo as int) == double_up(bpm as int, lo as int),
                    double_up(bpm as int, lo as int) <= u32::MAX,
                decreases if lo > b { lo - b } else { 0 },
            {
                proof {
                    lemma_double_up(b as int, lo as int);
                    lemma_double_up(2 * b, lo as int);
                }
                b = b * 2;
            }
            proof {
                lemma_double_up(b as int, lo as int);
            }
            while b > hi
                invariant
                    0 < hi,
                    0 < b,
                    halve_down(b as int, hi as int) == fold_bpm(bpm as int, lo as int, hi as int),
                decreases b,
            {
                b = b / 2;
            }
        }
    }
    b
}

/// Whether `normalize_bpm` can fold `bpm` without leaving `u32`: the
/// doubling only overflows for a lower bound above half of `u32::MAX`.
pub fn bpm_fold_fits(bpm: u32, min: Option<u32>, max: Option<u32>) -> (r: bool)
    ensures
        r == normalize_bpm_fits(bpm, min, max),
{
    if let (Some(lo), Some(hi)) = (min, max) {
        if lo > 0 && lo < hi && bpm > 0 {
            let mut b: u64 = bpm as u64;
            while b < lo as u64
                invariant
                    0 < b <= 2 * (u32::MAX as int),
                    double_up(b as int, lo as int) == double_up(bpm as int, lo as int),
                decreases if lo > b { lo - b } else { 0 },
            {
                b = b * 2;
            }
            return b <= u32::MAX as u64;
        }
    }
    true
}

/// With a usable range, the folded tempo is positive and never above `max`;
/// when the range spans an octave (`max >= 2 * min - 1`, so that halving a
/// tempo just above `max` cannot fall below `min`) it is never below `min`
/// either.
pub proof fn law_fold_bpm_bounds(bpm: int, lo: int, hi: int)
    requires
        0 < lo < hi,
        bpm > 0,
    ensures
        0 < fold_bpm(bpm, lo, hi) <= hi,
        hi >= 2 * lo - 1 ==> lo <= fold_bpm(bpm, lo, hi),
{
    lemma_double_up(bpm, lo);
    let v = double_up(bpm, lo);
    lemma_halve_down(v, hi);
}

/// A tempo already inside the range is left unchanged.
pub proof fn law_fold_bpm_in_range_unchanged(bpm: int, lo: int, hi: int)
    requires
        0 < lo <= bpm <= hi,
    ensures
        fold_bpm(bpm, lo, hi) == bpm,
{
    lemma_double_up(bpm, lo);
}

/// When the range spans an octave (`max >= 2 * min - 1`), folding twice is
/// folding once.
pub proof fn law_fold_bpm_idempotent(bpm: int, lo: int, hi: int)
    requires
        0 < lo < hi,
        hi >= 2 * lo - 1,
        bpm > 0,
    ensures
        fold_bpm(fold_bpm(bpm, lo, hi), lo, hi) == fold_bpm(bpm, lo, hi),
{
    law_fold_bpm_bounds(bpm, lo, hi);
    law_fold_bpm_in_range_unchanged(fold_bpm(bpm, lo, hi), lo, hi);
}

/// Camelot wheel code of a key written in standard notation; any other
/// text is its own result.
pub open spec fn camelot_code(key: Seq<char>) -> Seq<char> {
    if key == "C"@ {
        "8B"@
    } else if key == "G"@ {
        "9B"@
    } else if key == "D"@ {
        "10B"@
    } else if key == "A"@ {
        "11B"@
    } else if key == "E"@ {
        "12B"@
    } else if key == "B"@ {
        "1B"@
    } else if key == "F#"@ {
        "2B"@
    } else if key == "C#"@ {
        "3B"@
    } else if key == "G#"@ {
        "4B"@
    } else if key == "D#"@ {
        "5B"@
    } else if key == "A#"@ {
        "6B"@
    } else if key == "F"@ {
        "7B"@
    } else if key == "Am"@ {
        "8A"@
    } else if key == "Em"@ {
        "9A"@
    } else if key == "Bm"@ {
        "10A"@
    } else if key == "F#m"@ {
        "11A"@
    } else if key == "C#m"@ {
        "12A"@
    } else if key == "G#m"@ {
        "1A"@
    } else if key == "D#m"@ {
        "2A"@
    } else if key == "A#m"@ {
        "3A"@
    } else if key == "Fm"@ {
        "4A"@
    } else if key == "Cm"@ {
        "5A"@
    } else if key == "Gm"@ {
        "6A"@
    } else if key == "Dm"@ {
        "7A"@
    } else {
        key
    }
}

/// The Camelot wheel code of a key in standard notation (`"Am"` gives
/// `"8A"`); text that is not one of the 24 keys is returned unchanged.
pub fn to_camelot(key: &str) -> (r: String)
    ensures
        r@ == camelot_code(key@),
{
    let code: &str = if str_eq(key, "C") {
        "8B"
    } else if str_eq(key, "G") {
        "9B"
    } else if str_eq(key, "D") {
        "10B"
    } else if str_eq(key, "A") {
        "11B"
    } else if str_eq(key, "E") {
        "12B"
    } else if str_eq(key, "B") {
        "1B"
    } else if str_eq(key, "F#") {
        "2B"
    } else if str_eq(key, "C#") {
        "3B"
    } else if str_eq(key, "G#") {
        "4B"
    } else if str_eq(key, "D#") {
        "5B"
    } else if str_eq(key, "A#") {
        "6B"
    } else if str_eq(key, "F") {
        "7B"
    } else if str_eq(key, "Am") {
        "8A"
    } else if str_eq(key, "Em") {
        "9A"
    } else if str_eq(key, "Bm") {
        "10A"
    } else if str_eq(key, "F#m") {
        "11A"
    } else if str_eq(key, "C#m") {
        "12A"
    } else if str_eq(key, "G#m") {
        "1A"
    } else if str_eq(key, "D#m") {
        "2A"
    } else if str_eq(key, "A#m") {
        "3A"
    } else if str_eq(key, "Fm") {
        "4A"
    } else if str_eq(key, "Cm") {
        "5A"
    } else if str_eq(key, "Gm") {
        "6A"
    } else if str_eq(key, "Dm") {
        "7A"
    } else {
        key
    };
    code.to_owned()
}

/// Name of a pitch class, counted in semitones from C (`0` is C, `11` is B).
pub open spec fn note_name(pc: int) -> Seq<char> {
    if pc == 0 {
        "C"@
    } else if pc == 1 {
        "C#"@
    } else if pc == 2 {
        "D"@
    } else if pc == 3 {
        "D#"@
    } else if pc == 4 {
        "E"@
    } else if pc == 5 {
        "F"@
    } else if pc == 6 {
        "F#"@
    } else if pc == 7 {
        "G"@
    } else if pc == 8 {
        "G#"@
    } else if pc == 9 {
        "A"@
    } else if pc == 10 {
        "A#"@
    } else {
        "B"@
    }
}

/// The key named by its tonic pitch class and mode, in the notation that
/// `to_camelot` reads: the note, followed by `m` for a minor key.
pub fn key_name(root: usize, minor: bool) -> (r: String)
    requires
        root < 12,
    ensures
        r@ == if minor { note_name(root as int) + "m"@ } else { note_name(root as int) },
{
    let note: &str = if root == 0 {
        "C"
    } else if root == 1 {
        "C#"
    } else if root == 2 {
        "D"
    } else if root == 3 {
        "D#"
    } else if root == 4 {
        "E"
    } else if root == 5 {
        "F"
    } else if root == 6 {
        "F#"
    } else if root == 7 {
        "G"
    } else if root == 8 {
        "G#"
    } else if root == 9 {
        "A"
    } else if root == 10 {
        "A#"
    } else {
        "B"
    };
    let mut name = note.to_owned();
    if minor {
        append_str(&mut name, "m");
    }
    name
}

/// Analysis result sent to the front end.
pub struct AnalysisDonePayload {
    pub id: String,
    pub bpm: u32,
    pub key: String,
}

/// The analysis result worth reporting: there is one only when a tempo
/// (non-zero) or a key (non-empty) was found.
pub fn analysis_done_payload(id: String, bpm: u32, key: String) -> (r: Option<AnalysisDonePayload>)
    ensures
        r is Some <==> (bpm > 0 || key@.len() > 0),
        r matches Some(p) ==> p.id@ == id@ && p.bpm == bpm && p.key@ == key@,
{
    if bpm > 0 || !key.as_str().is_empty() {
        Some(AnalysisDonePayload { id, bpm, key })
    } else {
        None
    }
}

/// The key that a key-finder program printed: its output without
/// surrounding whitespace, or nothing when that is empty.
pub fn keyfinder_key(output: &str) -> (r: Option<String>)
    ensures
        match r {
            Some(k) => k@ == trim_chars(output@) && k@.len() > 0,
            None => trim_chars(output@).len() == 0,
        },
{
    let t = trim(output);
    if t.is_empty() {
        None
    } else {
        Some(t.to_owned())
    }
}


/// The numeric value of a decimal digit character.
pub open spec fn digit_value(c: char) -> int {
    c as int - '0' as int
}

/// The hour of a Camelot code (`1`..`12`): the number written before its
/// letter.
pub open spec fn camelot_hour(code: Seq<char>) -> int {
    if code.len() == 2 {
        digit_value(code[0])
    } else {
        10 * digit_value(code[0]) + digit_value(code[1])
    }
}

/// The Camelot hour of the major key on pitch class `pc`: C major is at 8,
/// and a fifth up (7 semitones) is one hour on around the wheel.
pub open spec fn major_hour(pc: int) -> int {
    ((7 * pc) % 12 + 7) % 12 + 1
}

proof fn lemma_major_on_wheel(pc: int)
    requires
        0 <= pc < 12,
    ensures
        camelot_code(note_name(pc)).len() >= 2,
        camelot_code(note_name(pc)).last() == 'B',
        camelot_hour(camelot_code(note_name(pc))) == major_hour(pc),
{
    reveal_strlit("10A");
    reveal_strlit("10B");
    reveal_strlit("11A");
    reveal_strlit("11B");
    reveal_strlit("12A");
    reveal_strlit("12B");
    reveal_strlit("1A");
    reveal_strlit("1B");
    reveal_strlit("2A");
    reveal_strlit("2B");
    reveal_strlit("3A");
    reveal_strlit("3B");
    reveal_strlit("4A");
    reveal_strlit("4B");
    reveal_strlit("5A");
    reveal_strlit("5B");
    reveal_strlit("6A");
    reveal_strlit("6B");
    reveal_strlit("7A");
    reveal_strlit("7B");
    reveal_strlit("8A");
    reveal_strlit("8B");
    reveal_strlit("9A");
    reveal_strlit("9B");
    reveal_strlit("A");
    reveal_strlit("A#");
    reveal_strlit("A#m");
    reveal_strlit("Am");
    reveal_strlit("B");
    reveal_strlit("Bm");
    reveal_strlit("C");
    reveal_strlit("C#");
    reveal_strlit("C#m");
    reveal_strlit("Cm");
    reveal_strlit("D");
    reveal_strlit("D#");
    reveal_strlit("D#m");
    reveal_strlit("Dm");
    reveal_strlit("E");
    reveal_strlit("Em");
    reveal_strlit("F");
    reveal_strlit("F#");
    reveal_strlit("F#m");
    reveal_strlit("Fm");
    reveal_strlit("G");
    reveal_strlit("G#");
    reveal_strlit("G#m");
    reveal_strlit("Gm");
    reveal_strlit("m");
    // The keys' lengths and letters, so that the solver tells them apart.
    assert("C"@.len() == 1);
    assert("C#"@.len() == 2);
    assert("D"@.len() == 1);
    assert("D#"@.len() == 2);
    assert("E"@.len() == 1);
    assert("F"@.len() == 1);
    assert("F#"@.len() == 2);
    assert("G"@.len() == 1);
    assert("G#"@.len() == 2);
    assert("A"@.len() == 1);
    assert("A#"@.len() == 2);
    assert("B"@.len() == 1);
    assert("Cm"@.len() == 2);
    assert("C#m"@.len() == 3);
    assert("Dm"@.len() == 2);
    assert("D#m"@.len() == 3);
    assert("Em"@.len() == 2);
    assert("Fm"@.len() == 2);
    assert("F#m"@.len() == 3);
    assert("Gm"@.len() == 2);
    assert("G#m"@.len() == 3);
    assert("Am"@.len() == 2);
    assert("A#m"@.len() == 3);
    assert("Bm"@.len() == 2);
    assert("C"@[0] == 'C');
    assert("C#"@[0] == 'C');
    assert("C#"@[1] == '#');
    assert("D"@[0] == 'D');
    assert("D#"@[0] == 'D');
    assert("D#"@[1] == '#');
    assert("E"@[0] == 'E');
    assert("F"@[0] == 'F');
    assert("F#"@[0] == 'F');
    assert("F#"@[1] == '#');
    assert("G"@[0] == 'G');
    assert("G#"@[0] == 'G');
    assert("G#"@[1] == '#');
    assert("A"@[0] == 'A');
    assert("A#"@[0] == 'A');
    assert("A#"@[1] == '#');
    assert("B"@[0] == 'B');
    assert("Cm"@[0] == 'C');
    assert("Cm"@[1] == 'm');
    assert("C#m"@[0] == 'C');
    assert("C#m"@[1] == '#');
    assert("C#m"@[2] == 'm');
    assert("Dm"@[0] == 'D');
    assert("Dm"@[1] == 'm');
    assert("D#m"@[0] == 'D');
    assert("D#m"@[1] == '#');
    assert("D#m"@[2] == 'm');
    assert("Em"@[0] == 'E');
    assert("Em"@[1] == 'm');
    assert("Fm"@[0] == 'F');
    assert("Fm"@[1] == 'm');
    assert("F#m"@[0] == 'F');
    assert("F#m"@[1] == '#');
    assert("F#m"@[2] == 'm');
    assert("Gm"@[0] == 'G');
    assert("Gm"@[1] == 'm');
    assert("G#m"@[0] == 'G');
    assert("G#m"@[1] == '#');
    assert("G#m"@[2] == 'm');
    assert("Am"@[0] == 'A');
    assert("Am"@[1] == 'm');
    assert("A#m"@[0] == 'A');
    assert("A#m"@[1] == '#');
    assert("A#m"@[2] == 'm');
    assert("Bm"@[0] == 'B');
    assert("Bm"@[1] == 'm');
    if pc == 0 {
        assert(camelot_code(note_name(0)) == "8B"@);
    } else if pc == 1 {
        assert(camelot_code(note_name(1)) == "3B"@);
    } else if pc == 2 {
        assert(camelot_code(note_name(2)) == "10B"@);
    } else if pc == 3 {
        assert(camelot_code(note_name(3)) == "5B"@);
    } else if pc == 4 {
        assert(camelot_code(note_name(4)) == "12B"@);
    } else if pc == 5 {
        assert(camelot_code(note_name(5)) == "7B"@);
    } else if pc == 6 {
        assert(camelot_code(note_name(6)) == "2B"@);
    } else if pc == 7 {
        assert(camelot_code(note_name(7)) == "9B"@);
    } else if pc == 8 {
        assert(camelot_code(note_name(8)) == "4B"@);
    } else if pc == 9 {
        assert(camelot_code(note_name(9)) == "11B"@);
    } else if pc == 10 {
        assert(camelot_code(note_name(10)) == "6B"@);
    } else if pc == 11 {
        assert(camelot_code(note_name(11)) == "1B"@);
    }
}

proof fn lemma_minor_on_wheel(pc: int)
    requires
        0 <= pc < 12,
    ensures
        camelot_code(note_name(pc) + "m"@).len() >= 2,
        camelot_code(note_name(pc) + "m"@).last() == 'A',
        camelot_hour(camelot_code(note_name(pc) + "m"@)) == major_hour((pc + 3) % 12),
{
    reveal_strlit("10A");
    reveal_strlit("10B");
    reveal_strlit("11A");
    reveal_strlit("11B");
    reveal_strlit("12A");
    reveal_strlit("12B");
    reveal_strlit("1A");
    reveal_strlit("1B");
    reveal_strlit("2A");
    reveal_strlit("2B");
    reveal_strlit("3A");
    reveal_strlit("3B");
    reveal_strlit("4A");
    reveal_strlit("4B");
    reveal_strlit("5A");
    reveal_strlit("5B");
    reveal_strlit("6A");
    reveal_strlit("6B");
    reveal_strlit("7A");
    reveal_strlit("7B");
    reveal_strlit("8A");
    reveal_strlit("8B");
    reveal_strlit("9A");
    reveal_strlit("9B");
    reveal_strlit("A");
    reveal_strlit("A#");
    reveal_strlit("A#m");
    reveal_strlit("Am");
    reveal_strlit("B");
    reveal_strlit("Bm");
    reveal_strlit("C");
    reveal_strlit("C#");
    reveal_strlit("C#m");
    reveal_strlit("Cm");
    reveal_strlit("D");
    reveal_strlit("D#");
    reveal_strlit("D#m");
    reveal_strlit("Dm");
    reveal_strlit("E");
    reveal_strlit("Em");
    reveal_strlit("F");
    reveal_strlit("F#");
    reveal_strlit("F#m");
    reveal_strlit("Fm");
    reveal_strlit("G");
    reveal_strlit("G#");
    reveal_strlit("G#m");
    reveal_strlit("Gm");
    reveal_strlit("m");
    // The keys' lengths and letters, so that the solver tells them apart.
    assert("C"@.len() == 1);
    assert("C#"@.len() == 2);
    assert("D"@.len() == 1);
    assert("D#"@.len() == 2);
    assert("E"@.len() == 1);
    assert("F"@.len() == 1);
    assert("F#"@.len() == 2);
    assert("G"@.len() == 1);
    assert("G#"@.len() == 2);
    assert("A"@.len() == 1);
    assert("A#"@.len() == 2);
    assert("B"@.len() == 1);
    assert("Cm"@.len() == 2);
    assert("C#m"@.len() == 3);
    assert("Dm"@.len() == 2);
    assert("D#m"@.len() == 3);
    assert("Em"@.len() == 2);
    assert("Fm"@.len() == 2);
    assert("F#m"@.len() == 3);
    assert("Gm"@.len() == 2);
    assert("G#m"@.len() == 3);
    assert("Am"@.len() == 2);
    assert("A#m"@.len() == 3);
    assert("Bm"@.len() == 2);
    assert("C"@[0] == 'C');
    assert("C#"@[0] == 'C');
    assert("C#"@[1] == '#');
    assert("D"@[0] == 'D');
    assert("D#"@[0] == 'D');
    assert("D#"@[1] == '#');
    assert("E"@[0] == 'E');
    assert("F"@[0] == 'F');
    assert("F#"@[0] == 'F');
    assert("F#"@[1] == '#');
    assert("G"@[0] == 'G');
    assert("G#"@[0] == 'G');
    assert("G#"@[1] == '#');
    assert("A"@[0] == 'A');
    assert("A#"@[0] == 'A');
    assert("A#"@[1] == '#');
    assert("B"@[0] == 'B');
    assert("Cm"@[0] == 'C');
    assert("Cm"@[1] == 'm');
    assert("C#m"@[0] == 'C');
    assert("C#m"@[1] == '#');
    assert("C#m"@[2] == 'm');
    assert("Dm"@[0] == 'D');
    assert("Dm"@[1] == 'm');
    assert("D#m"@[0] == 'D');
    assert("D#m"@[1] == '#');
    assert("D#m"@[2] == 'm');
    assert("Em"@[0] == 'E');
    assert("Em"@[1] == 'm');
    assert("Fm"@[0] == 'F');
    assert("Fm"@[1] == 'm');
    assert("F#m"@[0] == 'F');
    assert("F#m"@[1] == '#');
    assert("F#m"@[2] == 'm');
    assert("Gm"@[0] == 'G');
    assert("Gm"@[1] == 'm');
    assert("G#m"@[0] == 'G');
    assert("G#m"@[1] == '#');
    assert("G#m"@[2] == 'm');
    assert("Am"@[0] == 'A');
    assert("Am"@[1] == 'm');
    assert("A#m"@[0] == 'A');
    assert("A#m"@[1] == '#');
    assert("A#m"@[2] == 'm');
    assert("Bm"@[0] == 'B');
    assert("Bm"@[1] == 'm');
    if pc == 0 {
        assert(note_name(0) + "m"@ =~= "Cm"@);
        assert(camelot_code(note_name(0) + "m"@) == "5A"@);
    } else if pc == 1 {
        assert(note_name(1) + "m"@ =~= "C#m"@);
        assert(camelot_code(note_name(1) + "m"@) == "12A"@);
    } else if pc == 2 {
        assert(note_name(2) + "m"@ =~= "Dm"@);
        assert(camelot_code(note_name(2) + "m"@) == "7A"@);
    } else if pc == 3 {
        assert(note_name(3) + "m"@ =~= "D#m"@);
        assert(camelot_code(note_name(3) + "m"@) == "2A"@);
    } else if pc == 4 {
        assert(note_name(4) + "m"@ =~= "Em"@);
        assert(camelot_code(note_name(4) + "m"@) == "9A"@);
    } else if pc == 5 {
        assert(note_name(5) + "m"@ =~= "Fm"@);
        assert(camelot_code(note_name(5) + "m"@) == "4A"@);
    } else if pc == 6 {
        assert(note_name(6) + "m"@ =~= "F#m"@);
        assert(camelot_code(note_name(6) + "m"@) == "11A"@);
    } else if pc == 7 {
        assert(note_name(7) + "m"@ =~= "Gm"@);
        assert(camelot_code(note_name(7) + "m"@) == "6A"@);
    } else if pc == 8 {
        assert(note_name(8) + "m"@ =~= "G#m"@);
        assert(camelot_code(note_name(8) + "m"@) == "1A"@);
    } else if pc == 9 {
        assert(note_name(9) + "m"@ =~= "Am"@);
        assert(camelot_code(note_name(9) + "m"@) == "8A"@);
    } else if pc == 10 {
        assert(note_name(10) + "m"@ =~= "A#m"@);
        assert(camelot_code(note_name(10) + "m"@) == "3A"@);
    } else if pc == 11 {
        assert(note_name(11) + "m"@ =~= "Bm"@);
        assert(camelot_code(note_name(11) + "m"@) == "10A"@);
    }
}

/// The key names sit on the Camelot wheel where music theory puts them: the
/// major key on pitch class `pc` (`0` = C, one semitone per step) is at hour
/// `major_hour(pc)` of the outer ring (`B`), so each fifth up is the next
/// hour, and its minor key is at the hour of the major key three semitones
/// higher (its relative major) on the inner ring (`A`).
pub proof fn law_key_names_on_the_wheel(pc: int)
    requires
        0 <= pc < 12,
    ensures
        camelot_code(note_name(pc)).last() == 'B',
        camelot_hour(camelot_code(note_name(pc))) == major_hour(pc),
        camelot_code(note_name(pc) + "m"@).last() == 'A',
        camelot_hour(camelot_code(note_name(pc) + "m"@)) == major_hour((pc + 3) % 12),
{
    lemma_major_on_wheel(pc);
    lemma_minor_on_wheel(pc);
}

/// The twelve pitch classes have twelve different names.
pub proof fn law_note_names_differ(i: int, j: int)
    requires
        0 <= i < 12,
        0 <= j < 12,
        i != j,
    ensures
        note_name(i) != note_name(j),
{
    lemma_major_on_wheel(i);
    lemma_major_on_wheel(j);
    assert(major_hour(i) != major_hour(j)) by (nonlinear_arith)
        requires
            0 <= i < 12,
            0 <= j < 12,
            i != j,
    ;
}

} // verus!
