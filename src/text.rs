use vstd::prelude::*;

verus! {

/// A character with the Unicode `White_Space` property, as `char::is_whitespace`
/// documents it.
pub open spec fn is_white_space(c: char) -> bool {
    ('\u{9}' <= c <= '\u{D}') || c == ' ' || c == '\u{85}' || c == '\u{A0}' || c == '\u{1680}'
        || ('\u{2000}' <= c <= '\u{200A}') || c == '\u{2028}' || c == '\u{2029}' || c == '\u{202F}'
        || c == '\u{205F}' || c == '\u{3000}'
}

/// `s` without its leading white space.
pub open spec fn trim_start_of(s: Seq<char>) -> Seq<char>
    decreases s.len(),
{
    if s.len() > 0 && is_white_space(s[0]) {
        trim_start_of(s.drop_first())
    } else {
        s
    }
}

/// `s` without its trailing white space.
pub open spec fn trim_end_of(s: Seq<char>) -> Seq<char>
    decreases s.len(),
{
    if s.len() > 0 && is_white_space(s.last()) {
        trim_end_of(s.drop_last())
    } else {
        s
    }
}

/// `s` without its leading and trailing white space.
pub open spec fn trim_of(s: Seq<char>) -> Seq<char> {
    trim_end_of(trim_start_of(s))
}

proof fn lemma_trim_end_prefix(s: Seq<char>)
    ensures
        trim_end_of(s).len() <= s.len(),
        trim_end_of(s) == s.subrange(0, trim_end_of(s).len() as int),
        s.len() > 0 && !is_white_space(s[0]) ==> trim_end_of(s).len() > 0,
        trim_end_of(s).len() > 0 ==> !is_white_space(trim_end_of(s).last()),
    decreases s.len(),
{
    if s.len() > 0 && is_white_space(s.last()) {
        lemma_trim_end_prefix(s.drop_last());
        assert(s.drop_last().subrange(0, trim_end_of(s).len() as int) =~= s.subrange(
            0,
            trim_end_of(s).len() as int,
        ));
    } else {
        assert(s.subrange(0, s.len() as int) =~= s);
    }
}

proof fn lemma_trim_start_first(s: Seq<char>)
    ensures
        trim_start_of(s).len() > 0 ==> !is_white_space(trim_start_of(s)[0]),
    decreases s.len(),
{
    if s.len() > 0 && is_white_space(s[0]) {
        lemma_trim_start_first(s.drop_first());
    }
}

/// Trimming a text that is already trimmed leaves it as it is.
pub proof fn lemma_trim_idempotent(s: Seq<char>)
    ensures
        trim_of(trim_of(s)) == trim_of(s),
{
    let a = trim_start_of(s);
    let t = trim_end_of(a);
    lemma_trim_start_first(s);
    lemma_trim_end_prefix(a);
    if t.len() > 0 {
        assert(t[0] == a[0]);
        assert(trim_start_of(t) == t);
        assert(trim_end_of(t) == t);
    } else {
        assert(trim_start_of(t) == t);
        assert(trim_end_of(t) == t);
    }
}

/// What `str::to_lowercase` makes of a text.
pub uninterp spec fn lower_of(s: Seq<char>) -> Seq<char>;

/// What `str::to_uppercase` makes of a text.
pub uninterp spec fn upper_of(s: Seq<char>) -> Seq<char>;

/// Relies on `str::trim`: leading and trailing characters with the Unicode
/// `White_Space` property removed.
#[verifier::external_body]
pub(crate) fn trim_text(s: &str) -> (r: String)
    ensures
        r@ == trim_of(s@),
{
    s.trim().to_string()
}

/// Relies on `str::to_lowercase`: the lower-case form, a result that depends
/// on the characters alone.
#[verifier::external_body]
pub(crate) fn lowercase(s: &str) -> (r: String)
    ensures
        r@ == lower_of(s@),
{
    s.to_lowercase()
}

/// Relies on `str::to_uppercase`: the upper-case form, a result that depends
/// on the characters alone.
#[verifier::external_body]
pub(crate) fn uppercase(s: &str) -> (r: String)
    ensures
        r@ == upper_of(s@),
{
    s.to_uppercase()
}

/// The characters of `s`, in order.
pub(crate) fn chars_of(s: &str) -> (r: Vec<char>)
    ensures
        r@ == s@,
{
    let n = s.unicode_len();
    let mut v: Vec<char> = Vec::new();
    let mut i: usize = 0;
    while i < n
        invariant
            n == s@.len(),
            i <= n,
            v@ =~= s@.subrange(0, i as int),
        decreases n - i,
    {
        v.push(s.get_char(i));
        i = i + 1;
    }
    v
}

/// Relies on `String`'s `FromIterator<char>`: a string of the characters of `v`, in order.
#[verifier::external_body]
pub(crate) fn string_of(v: &[char]) -> (r: String)
    ensures
        r@ == v@,
{
    v.iter().collect()
}

/// `t` occurs in `s` as a run of consecutive characters.
pub open spec fn has_infix(s: Seq<char>, t: Seq<char>) -> bool {
    exists|i: int| 0 <= i && i + t.len() <= s.len() && #[trigger] s.subrange(i, i + t.len()) == t
}

/// Whether `t` occurs in `s`.
pub fn contains_chars(s: &[char], t: &[char]) -> (r: bool)
    ensures
        r == has_infix(s@, t@),
{
    let n = s.len();
    let m = t.len();
    if m > n {
        return false;
    }
    if m == 0 {
        assert(s@.subrange(0int, 0int + t@.len()) =~= t@);
        return true;
    }
    let mut i: usize = 0;
    while i <= n - m
        invariant
            n == s@.len(),
            m == t@.len(),
            0 < m <= n,
            i <= n - m + 1,
            forall|k: int| 0 <= k < i ==> #[trigger] s@.subrange(k, k + m) != t@,
        decreases n - m + 1 - i,
    {
        let mut j: usize = 0;
        let mut same = true;
        while j < m
            invariant
                n == s@.len(),
                m == t@.len(),
                i + m <= n,
                j <= m,
                same ==> forall|l: int| 0 <= l < j ==> s@[i + l] == t@[l],
                !same ==> s@.subrange(i as int, i + m) != t@,
            decreases m - j,
        {
            if s[i + j] != t[j] {
                assert(s@.subrange(i as int, i + m)[j as int] != t@[j as int]);
                same = false;
            }
            j = j + 1;
        }
        if same {
            assert(s@.subrange(i as int, i + m) =~= t@);
            return true;
        }
        i = i + 1;
    }
    false
}

/// The character that normalization puts for `c`: curly single quotes (left
/// and right) and backticks become `'`, curly double quotes become `"`, hyphens become spaces.
pub open spec fn unify_char(c: char) -> char {
    if c == '\u{2018}' || c == '\u{2019}' || c == '`' {
        '\''
    } else if c == '\u{201C}' || c == '\u{201D}' {
        '"'
    } else if c == '-' {
        ' '
    } else {
        c
    }
}

/// One pass from the left that puts a single space for each pair of spaces.
pub open spec fn collapse_spaces(s: Seq<char>) -> Seq<char>
    decreases s.len(),
{
    if s.len() == 0 {
        s
    } else if s.len() >= 2 && s[0] == ' ' && s[1] == ' ' {
        seq![' '] + collapse_spaces(s.subrange(2, s.len() as int))
    } else {
        seq![s[0]] + collapse_spaces(s.subrange(1, s.len() as int))
    }
}

/// Quotes, backticks and hyphens unified, then pairs of spaces collapsed.
pub open spec fn folded(s: Seq<char>) -> Seq<char> {
    collapse_spaces(s.map_values(|c: char| unify_char(c)))
}

/// A character that folding never leaves in a text: a curly quote, a
/// backtick or a hyphen.
pub open spec fn is_folded_away(c: char) -> bool {
    c == '\u{2018}' || c == '\u{2019}' || c == '`' || c == '\u{201C}' || c == '\u{201D}' || c == '-'
}

proof fn lemma_collapse_keeps(s: Seq<char>)
    requires
        forall|k: int| 0 <= k < s.len() ==> !is_folded_away(#[trigger] s[k]),
    ensures
        forall|k: int| 0 <= k < collapse_spaces(s).len() ==> !is_folded_away(#[trigger] collapse_spaces(s)[k]),
    decreases s.len(),
{
    if s.len() == 0 {
    } else if s.len() >= 2 && s[0] == ' ' && s[1] == ' ' {
        let rest = s.subrange(2, s.len() as int);
        assert forall|k: int| 0 <= k < rest.len() implies !is_folded_away(#[trigger] rest[k]) by {
            assert(rest[k] == s[k + 2]);
        }
        lemma_collapse_keeps(rest);
        let c = collapse_spaces(s);
        assert(c == seq![' '] + collapse_spaces(rest));
        assert forall|k: int| 0 <= k < c.len() implies !is_folded_away(#[trigger] c[k]) by {
            if k > 0 {
                assert(c[k] == collapse_spaces(rest)[k - 1]);
            }
        }
    } else {
        let rest = s.subrange(1, s.len() as int);
        assert forall|k: int| 0 <= k < rest.len() implies !is_folded_away(#[trigger] rest[k]) by {
            assert(rest[k] == s[k + 1]);
        }
        lemma_collapse_keeps(rest);
        let c = collapse_spaces(s);
        assert(c == seq![s[0]] + collapse_spaces(rest));
        assert forall|k: int| 0 <= k < c.len() implies !is_folded_away(#[trigger] c[k]) by {
            if k > 0 {
                assert(c[k] == collapse_spaces(rest)[k - 1]);
            }
        }
    }
}

/// After folding, a text holds no curly quote, backtick or hyphen: every
/// single-quote variant has become `'`.
pub proof fn lemma_folded_has_no_variants(s: Seq<char>)
    ensures
        forall|k: int| 0 <= k < folded(s).len() ==> !is_folded_away(#[trigger] folded(s)[k]),
{
    let m = s.map_values(|c: char| unify_char(c));
    assert forall|k: int| 0 <= k < m.len() implies !is_folded_away(#[trigger] m[k]) by {
        assert(m[k] == unify_char(s[k]));
    }
    lemma_collapse_keeps(m);
}

/// A title or an artist as the matcher compares it: trimmed, lower-cased, folded.
pub open spec fn normalized(s: Seq<char>) -> Seq<char> {
    folded(lower_of(trim_of(s)))
}

pub(crate) fn fold_chars(s: &[char]) -> (r: Vec<char>)
    ensures
        r@ == folded(s@),
{
    let n = s.len();
    let mut unified: Vec<char> = Vec::new();
    let mut i: usize = 0;
    while i < n
        invariant
            n == s@.len(),
            i <= n,
            unified@ =~= s@.subrange(0, i as int).map_values(|c: char| unify_char(c)),
        decreases n - i,
    {
        let c = s[i];
        let u = if c == '\u{2018}' || c == '\u{2019}' || c == '`' {
            '\''
        } else if c == '\u{201C}' || c == '\u{201D}' {
            '"'
        } else if c == '-' {
            ' '
        } else {
            c
        };
        unified.push(u);
        i = i + 1;
        assert(unified@ =~= s@.subrange(0, i as int).map_values(|c: char| unify_char(c)));
    }
    assert(s@.subrange(0, n as int) =~= s@);
    let ghost m = unified@;
    assert(m.subrange(0, n as int) =~= m);
    let mut out: Vec<char> = Vec::new();
    let mut i: usize = 0;
    while i < n
        invariant
            n == m.len(),
            m == unified@,
            i <= n,
            out@ + collapse_spaces(m.subrange(i as int, n as int)) == collapse_spaces(m),
        decreases n - i,
    {
        let ghost rest = m.subrange(i as int, n as int);
        if i + 1 < n && unified[i] == ' ' && unified[i + 1] == ' ' {
            assert(rest.subrange(2, rest.len() as int) =~= m.subrange(i + 2, n as int));
            out.push(' ');
            i = i + 2;
        } else {
            assert(rest.subrange(1, rest.len() as int) =~= m.subrange(i + 1, n as int));
            out.push(unified[i]);
            i = i + 1;
        }
        assert(out@ + collapse_spaces(m.subrange(i as int, n as int)) =~= collapse_spaces(m));
    }
    assert(m.subrange(n as int, n as int) =~= Seq::<char>::empty());
    assert(out@ + collapse_spaces(m.subrange(n as int, n as int)) =~= out@);
    out
}

/// Unifies quotes, backticks and hyphens of a text that is already trimmed
/// and lower-cased, and collapses its pairs of spaces.
pub fn fold_text(s: &str) -> (r: String)
    ensures
        r@ == folded(s@),
{
    let cs = chars_of(s);
    let f = fold_chars(cs.as_slice());
    string_of(f.as_slice())
}

pub(crate) fn normalize_chars(s: &str) -> (r: Vec<char>)
    ensures
        r@ == normalized(s@),
{
    let t = trim_text(s);
    let low = lowercase(t.as_str());
    let cs = chars_of(low.as_str());
    fold_chars(cs.as_slice())
}

/// Normal form of a title or an artist: trimmed, lower-cased, with quotes,
/// backticks and hyphens unified and pairs of spaces collapsed.
pub fn normalize(s: &str) -> (r: String)
    ensures
        r@ == normalized(s@),
{
    let f = normalize_chars(s);
    string_of(f.as_slice())
}

} // verus!
