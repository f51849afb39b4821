use vstd::prelude::*;
use crate::text::{
    chars_of, contains_chars, has_infix, lower_of, lowercase, string_of, trim_of, trim_text,
    upper_of, uppercase,
};

verus! {

/// Tonality of a musical key.
#[derive(Clone, Copy, Debug, PartialEq, Eq, Structural)]
pub enum Mode {
    Major,
    Minor,
}

/// Why a key string could not be turned into a pitch class and a mode.
#[derive(Clone, Copy, Debug, PartialEq, Eq, Structural)]
pub enum KeyError {
    /// Not a Camelot code `1A`..`12B`.
    InvalidCamelotCode,
    /// A free-text key whose root note is not known.
    UnrecognizedKeyString,
}

/// Pitch class (0 = C, ..., 11 = B) of position `n` (1..=12) of the Camelot
/// wheel in the given mode: the letter A of the wheel is minor, B is major.
pub open spec fn wheel_pitch(n: int, mode: Mode) -> int {
    match mode {
        Mode::Major => if n == 1 { 11 } else if n == 2 { 6 } else if n == 3 { 1 } else if n == 4 { 8 }
            else if n == 5 { 3 } else if n == 6 { 10 } else if n == 7 { 5 } else if n == 8 { 0 }
            else if n == 9 { 7 } else if n == 10 { 2 } else if n == 11 { 9 } else { 4 },
        Mode::Minor => if n == 1 { 8 } else if n == 2 { 3 } else if n == 3 { 10 } else if n == 4 { 5 }
            else if n == 5 { 0 } else if n == 6 { 7 } else if n == 7 { 2 } else if n == 8 { 9 }
            else if n == 9 { 4 } else if n == 10 { 11 } else if n == 11 { 6 } else { 1 },
    }
}

/// The wheel table: pitch class of wheel position `n` in `mode`.
pub fn camelot_pitch(n: u8, mode: Mode) -> (r: i32)
    requires
        1 <= n <= 12,
    ensures
        r == wheel_pitch(n as int, mode),
{
    match mode {
        Mode::Major => if n == 1 { 11 } else if n == 2 { 6 } else if n == 3 { 1 } else if n == 4 { 8 }
            else if n == 5 { 3 } else if n == 6 { 10 } else if n == 7 { 5 } else if n == 8 { 0 }
            else if n == 9 { 7 } else if n == 10 { 2 } else if n == 11 { 9 } else { 4 },
        Mode::Minor => if n == 1 { 8 } else if n == 2 { 3 } else if n == 3 { 10 } else if n == 4 { 5 }
            else if n == 5 { 0 } else if n == 6 { 7 } else if n == 7 { 2 } else if n == 8 { 9 }
            else if n == 9 { 4 } else if n == 10 { 11 } else if n == 11 { 6 } else { 1 },
    }
}

/// Ordinal of wheel position `n` in `mode`: `10 * n`, plus one for major.
pub open spec fn wheel_ordinal(n: int, mode: Mode) -> int {
    10 * n + if mode == Mode::Major { 1int } else { 0int }
}

/// Sort weight found by searching the wheel from position `n` on: the ordinal
/// of the first position whose pitch class in `mode` is `pitch`, or 990 when
/// none is.
pub open spec fn weight_from(n: int, pitch: int, mode: Mode) -> int
    decreases 13 - n,
{
    if n < 1 || n > 12 {
        990
    } else if wheel_pitch(n, mode) == pitch {
        wheel_ordinal(n, mode)
    } else {
        weight_from(n + 1, pitch, mode)
    }
}

/// Sort weight of a key: the wheel table read backwards.
pub open spec fn weight(pitch: int, mode: Mode) -> int {
    weight_from(1, pitch, mode)
}

/// Position on the Camelot wheel of a key, as its sort weight: `10 * n` for
/// `nA`, `10 * n + 1` for `nB`, and 990 for a pair outside the wheel.
pub fn get_sort_weight(pitch: i32, mode: Mode) -> (r: i32)
    ensures
        r == weight(pitch as int, mode),
{
    let mut n: u8 = 1;
    while n <= 12
        invariant
            1 <= n <= 13,
            weight_from(n as int, pitch as int, mode) == weight(pitch as int, mode),
        decreases 13 - n,
    {
        if camelot_pitch(n, mode) == pitch {
            return 10 * (n as i32) + if mode == Mode::Major { 1 } else { 0 };
        }
        n = n + 1;
    }
    990
}

pub open spec fn is_digit(c: char) -> bool {
    '0' <= c <= '9'
}

pub open spec fn digit_value(c: char) -> int {
    (c as u32) - ('0' as u32)
}

/// Decimal value of a sequence of digits.
pub open spec fn digits_value(s: Seq<char>) -> int
    decreases s.len(),
{
    if s.len() == 0 {
        0
    } else {
        digits_value(s.drop_last()) * 10 + digit_value(s.last())
    }
}

/// What a trimmed, upper-cased Camelot code denotes: one or more digits with a
/// value from 1 to 12, then `A` (minor) or `B` (major).
pub open spec fn camelot_parse(c: Seq<char>) -> Result<(i32, Mode), KeyError> {
    if c.len() >= 2 && (c.last() == 'A' || c.last() == 'B') && (forall|i: int|
        0 <= i < c.len() - 1 ==> #[trigger] is_digit(c[i])) && 1 <= digits_value(c.drop_last())
        <= 12 {
        let mode = if c.last() == 'A' {
            Mode::Minor
        } else {
            Mode::Major
        };
        Ok((wheel_pitch(digits_value(c.drop_last()), mode) as i32, mode))
    } else {
        Err(KeyError::InvalidCamelotCode)
    }
}

/// Reads a Camelot code that is already trimmed and upper-cased.
pub fn camelot_from_clean(c: &str) -> (r: Result<(i32, Mode), KeyError>)
    ensures
        r == camelot_parse(c@),
{
    let len = c.unicode_len();
    if len < 2 {
        return Err(KeyError::InvalidCamelotCode);
    }
    let letter = c.get_char(len - 1);
    if letter != 'A' && letter != 'B' {
        return Err(KeyError::InvalidCamelotCode);
    }
    let ghost digits = c@.drop_last();
    let mut value: u32 = 0;
    let mut i: usize = 0;
    while i < len - 1
        invariant
            len == c@.len(),
            len >= 2,
            digits == c@.subrange(0, len - 1),
            0 <= i <= len - 1,
            forall|j: int| 0 <= j < i ==> #[trigger] is_digit(c@[j]),
            digits_value(digits.subrange(0, i as int)) >= 0,
            digits_value(digits.subrange(0, i as int)) <= 12 ==> value == digits_value(
                digits.subrange(0, i as int),
            ),
            digits_value(digits.subrange(0, i as int)) > 12 ==> value == 13,
        decreases len - 1 - i,
    {
        let d = c.get_char(i);
        if !('0' <= d && d <= '9') {
            assert(!is_digit(c@[i as int]));
            return Err(KeyError::InvalidCamelotCode);
        }
        assert(digits.subrange(0, i + 1).drop_last() =~= digits.subrange(0, i as int));
        if value <= 12 {
            value = value * 10 + (d as u32 - '0' as u32);
            if value > 12 {
                value = 13;
            }
        }
        i = i + 1;
    }
    assert(digits.subrange(0, (len - 1) as int) =~= digits);
    if value < 1 || value > 12 {
        return Err(KeyError::InvalidCamelotCode);
    }
    let mode = if letter == 'A' {
        Mode::Minor
    } else {
        Mode::Major
    };
    Ok((camelot_pitch(value as u8, mode), mode))
}

/// Reads a Camelot code such as `"8A"` or `" 12b "`: trimmed and upper-cased,
/// it must be a wheel position 1..=12 followed by `A` (minor) or `B` (major).
pub fn camelot_to_internal(camelot: &str) -> (r: Result<(i32, Mode), KeyError>)
    ensures
        r == camelot_parse(upper_of(trim_of(camelot@))),
{
    let t = trim_text(camelot);
    let clean = uppercase(t.as_str());
    camelot_from_clean(clean.as_str())
}

/// The ASCII form of the sharp and flat signs; other characters are kept.
pub open spec fn ascii_accidental(c: char) -> char {
    if c == '\u{266F}' {
        '#'
    } else if c == '\u{266D}' {
        'b'
    } else {
        c
    }
}

pub open spec fn ascii_accidentals(s: Seq<char>) -> Seq<char> {
    s.map_values(|c: char| ascii_accidental(c))
}

/// The upper-case form of a note letter `a`..`g`; other characters are kept.
pub open spec fn note_letter(c: char) -> char {
    if c == 'a' { 'A' } else if c == 'b' { 'B' } else if c == 'c' { 'C' } else if c == 'd' { 'D' }
    else if c == 'e' { 'E' } else if c == 'f' { 'F' } else if c == 'g' { 'G' } else { c }
}

/// The enharmonic table: pitch class of a root note, given its letter and its
/// accidental (`#` sharp, `b` flat).
pub open spec fn enharmonic_pitch(letter: char, acc: Option<char>) -> Option<int> {
    match acc {
        None => if letter == 'C' { Some(0int) } else if letter == 'D' { Some(2int) }
            else if letter == 'E' { Some(4int) } else if letter == 'F' { Some(5int) }
            else if letter == 'G' { Some(7int) } else if letter == 'A' { Some(9int) }
            else if letter == 'B' { Some(11int) } else { None },
        Some(a) => if a == '#' {
            if letter == 'C' { Some(1int) } else if letter == 'D' { Some(3int) }
            else if letter == 'F' { Some(6int) } else if letter == 'G' { Some(8int) }
            else if letter == 'A' { Some(10int) } else { None }
        } else {
            if letter == 'D' { Some(1int) } else if letter == 'E' { Some(3int) }
            else if letter == 'G' { Some(6int) } else if letter == 'A' { Some(8int) }
            else if letter == 'B' { Some(10int) } else { None }
        },
    }
}

/// The accidental that the second character of a key text stands for.
pub open spec fn accidental_of(t: Seq<char>) -> Option<char> {
    if t.len() >= 2 && t[1] == '#' {
        Some('#')
    } else if t.len() >= 2 && (t[1] == 'b' || t[1] == 'B') {
        Some('b')
    } else {
        None
    }
}

/// What a free-text key such as `"F#"` or `"Gb minor"` denotes, given the
/// text `t` with ASCII accidentals and its lower-case form `low`: minor when
/// `low` holds `m` but not `maj`; the root is the first character and an
/// accidental second character.
pub open spec fn free_text_parse(t: Seq<char>, low: Seq<char>) -> Result<(i32, Mode), KeyError> {
    let mode = if has_infix(low, seq!['m']) && !has_infix(low, seq!['m', 'a', 'j']) {
        Mode::Minor
    } else {
        Mode::Major
    };
    if t.len() == 0 {
        Err(KeyError::UnrecognizedKeyString)
    } else {
        match enharmonic_pitch(note_letter(t[0]), accidental_of(t)) {
            Some(p) => Ok((p as i32, mode)),
            None => Err(KeyError::UnrecognizedKeyString),
        }
    }
}

/// Reads a free-text key from its text `t` (accidentals already in ASCII) and
/// the lower-case form `low` of that text.
pub fn key_from_text(t: &str, low: &str) -> (r: Result<(i32, Mode), KeyError>)
    ensures
        r == free_text_parse(t@, low@),
{
    let lc = chars_of(low);
    let m_only: Vec<char> = vec!['m'];
    let maj: Vec<char> = vec!['m', 'a', 'j'];
    assert(m_only@ =~= seq!['m']);
    assert(maj@ =~= seq!['m', 'a', 'j']);
    let minor = contains_chars(lc.as_slice(), m_only.as_slice()) && !contains_chars(
        lc.as_slice(),
        maj.as_slice(),
    );
    let mode = if minor {
        Mode::Minor
    } else {
        Mode::Major
    };
    let len = t.unicode_len();
    if len == 0 {
        return Err(KeyError::UnrecognizedKeyString);
    }
    let first = t.get_char(0);
    let letter = if first == 'a' { 'A' } else if first == 'b' { 'B' } else if first == 'c' { 'C' }
        else if first == 'd' { 'D' } else if first == 'e' { 'E' } else if first == 'f' { 'F' }
        else if first == 'g' { 'G' } else { first };
    let acc: Option<char> = if len >= 2 {
        let second = t.get_char(1);
        if second == '#' {
            Some('#')
        } else if second == 'b' || second == 'B' {
            Some('b')
        } else {
            None
        }
    } else {
        None
    };
    let p: i32 = match acc {
        None => if letter == 'C' { 0 } else if letter == 'D' { 2 } else if letter == 'E' { 4 }
            else if letter == 'F' { 5 } else if letter == 'G' { 7 } else if letter == 'A' { 9 }
            else if letter == 'B' { 11 } else { -1 },
        Some(a) => if a == '#' {
            if letter == 'C' { 1 } else if letter == 'D' { 3 } else if letter == 'F' { 6 }
            else if letter == 'G' { 8 } else if letter == 'A' { 10 } else { -1 }
        } else {
            if letter == 'D' { 1 } else if letter == 'E' { 3 } else if letter == 'G' { 6 }
            else if letter == 'A' { 8 } else if letter == 'B' { 10 } else { -1 }
        },
    };
    if p < 0 {
        Err(KeyError::UnrecognizedKeyString)
    } else {
        Ok((p, mode))
    }
}

/// Reads a free-text key such as `"F#"`, `"Gb minor"` or `"A\u{266D} major"`.
pub fn free_text_to_internal(text: &str) -> (r: Result<(i32, Mode), KeyError>)
    ensures
        r == free_text_parse(ascii_accidentals(text@), lower_of(ascii_accidentals(text@))),
{
    let cs = chars_of(text);
    let mut ascii: Vec<char> = Vec::new();
    let mut i: usize = 0;
    while i < cs.len()
        invariant
            cs@ == text@,
            i <= cs@.len(),
            ascii@ =~= cs@.subrange(0, i as int).map_values(|c: char| ascii_accidental(c)),
        decreases cs@.len() - i,
    {
        let c = cs[i];
        ascii.push(if c == '\u{266F}' { '#' } else if c == '\u{266D}' { 'b' } else { c });
        i = i + 1;
        assert(ascii@ =~= cs@.subrange(0, i as int).map_values(|c: char| ascii_accidental(c)));
    }
    assert(cs@.subrange(0, cs@.len() as int) =~= cs@);
    let t = string_of(ascii.as_slice());
    let low = lowercase(t.as_str());
    key_from_text(t.as_str(), low.as_str())
}

/// What a key string of the outside lookup denotes: a Camelot code where it
/// reads as one, else a free-text key.
pub open spec fn lookup_key_parse(s: Seq<char>) -> Result<(i32, Mode), KeyError> {
    match camelot_parse(upper_of(trim_of(s))) {
        Ok(k) => Ok(k),
        Err(_) => free_text_parse(ascii_accidentals(s), lower_of(ascii_accidentals(s))),
    }
}

/// Reads a key string of the outside lookup: as a Camelot code first, then as
/// free text.
pub fn resolve_lookup_key(key_of: &str) -> (r: Result<(i32, Mode), KeyError>)
    ensures
        r == lookup_key_parse(key_of@),
{
    match camelot_to_internal(key_of) {
        Ok(k) => Ok(k),
        Err(_) => free_text_to_internal(key_of),
    }
}

/// The digit character of `d` (0..=9).
pub open spec fn digit_char(d: int) -> char {
    if d == 0 { '0' } else if d == 1 { '1' } else if d == 2 { '2' } else if d == 3 { '3' }
    else if d == 4 { '4' } else if d == 5 { '5' } else if d == 6 { '6' } else if d == 7 { '7' }
    else if d == 8 { '8' } else { '9' }
}

/// The Camelot code of wheel position `n` (1..=12) in `mode`, as text: `"8A"`, `"12B"`.
pub open spec fn camelot_code(n: int, mode: Mode) -> Seq<char> {
    let letter = if mode == Mode::Minor { 'A' } else { 'B' };
    if n < 10 {
        seq![digit_char(n), letter]
    } else {
        seq!['1', digit_char(n - 10), letter]
    }
}

/// Wheel position and mode that a sort weight stands for.
pub open spec fn wheel_of_weight(w: int) -> (int, Mode) {
    (w / 10, if w % 10 == 1 { Mode::Major } else { Mode::Minor })
}

proof fn lemma_weight_from(k: int, n: int, mode: Mode)
    requires
        1 <= k <= n <= 12,
    ensures
        weight_from(k, wheel_pitch(n, mode), mode) == wheel_ordinal(n, mode),
    decreases n - k,
{
    if k < n {
        assert(wheel_pitch(k, mode) != wheel_pitch(n, mode));
        lemma_weight_from(k + 1, n, mode);
    }
}

proof fn lemma_parse_code(n: int, mode: Mode)
    requires
        1 <= n <= 12,
    ensures
        camelot_parse(camelot_code(n, mode)) == Ok::<(i32, Mode), KeyError>(
            (wheel_pitch(n, mode) as i32, mode),
        ),
{
    let c = camelot_code(n, mode);
    let digits = c.drop_last();
    if n < 10 {
        assert(digits.drop_last() =~= Seq::<char>::empty());
        assert(digits.last() == digit_char(n));
        assert(digit_value(digit_char(n)) == n);
        assert(digits_value(digits) == digits_value(digits.drop_last()) * 10 + digit_value(digits.last()));
    } else {
        assert(digits.drop_last().drop_last() =~= Seq::<char>::empty());
        assert(digits.drop_last() =~= seq!['1']);
        assert(digit_value('1') == 1);
        assert(digits_value(seq!['1']) == digits_value(seq!['1'].drop_last()) * 10 + 1);
        assert(digits.last() == digit_char(n - 10));
        assert(digit_value(digit_char(n - 10)) == n - 10);
        assert(digits_value(digits) == digits_value(digits.drop_last()) * 10 + digit_value(digits.last()));
    }
}

/// Every Camelot code `1A`..`12B` reads as a key whose sort weight is the
/// code's ordinal: `10 * n` for `nA`, `10 * n + 1` for `nB`.
pub proof fn lemma_camelot_weight(n: int, mode: Mode)
    requires
        1 <= n <= 12,
    ensures
        camelot_parse(camelot_code(n, mode)) is Ok,
        weight(camelot_parse(camelot_code(n, mode))->Ok_0.0 as int,
            camelot_parse(camelot_code(n, mode))->Ok_0.1) == wheel_ordinal(n, mode),
{
    lemma_parse_code(n, mode);
    lemma_weight_from(1, n, mode);
}

/// Reading a Camelot code and reading its sort weight back as a wheel position
/// gives the same code again.
pub proof fn lemma_camelot_round_trip(n: int, mode: Mode)
    requires
        1 <= n <= 12,
    ensures
        ({
            let k = camelot_parse(camelot_code(n, mode))->Ok_0;
            let back = wheel_of_weight(weight(k.0 as int, k.1));
            back == (n, mode) && camelot_code(back.0, back.1) == camelot_code(n, mode)
        }),
{
    lemma_camelot_weight(n, mode);
}

} // verus!
