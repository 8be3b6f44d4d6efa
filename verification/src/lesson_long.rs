//! The long lesson: a random text is keyed, the user copies it, and the reply
//! shows where the copy differs from the text.
use kanaria::string::UCSStr;
use unicode_normalization::UnicodeNormalization;
use vstd::prelude::*;
use vstd::string::*;

use crate::levenshtein::{
    alignment, compare_str, distance, law_alignment_cost_is_distance, law_cost_is_printed_mismatches,
    lower, mismatches, upper,
};
use crate::rng::{gen_range_u8_inclusive, gen_range_usize, thread_rng};
use crate::text::{
    after_colon, before_colon, chars_of, digits_value, is_ascii_digit, parse_usize, parsed_usize, push_char, remove_whitespace,
    same_text, split_at_colon, string_of, trim, trimmed, without_whitespace,
};

verus! {

/// Why no lesson text could be made.
#[derive(Debug, Clone, Copy, PartialEq, Eq, Structural)]
pub enum LessonError {
    /// The problem set's name is none of `alpha`, `koch` and `lcwo`.
    UnknownProbset,
    /// The argument of `koch` is not a number.
    InvalidLevel,
    /// The level of `koch` lies outside `1..=35`.
    LevelOutOfRange,
}

impl LessonError {
    /// The message shown to the user.
    pub fn message(&self) -> (r: String)
        ensures
            r@ == self.message_spec(),
    {
        match self {
            LessonError::UnknownProbset => String::from_str(
                "unknown probset.\navailable selections are: alpha, koch",
            ),
            LessonError::InvalidLevel => String::from_str("invalid level argument"),
            LessonError::LevelOutOfRange => String::from_str("level must be in range 1..36"),
        }
    }

    pub open spec fn message_spec(&self) -> Seq<char> {
        match self {
            LessonError::UnknownProbset => "unknown probset.\navailable selections are: alpha, koch"@,
            LessonError::InvalidLevel => "invalid level argument"@,
            LessonError::LevelOutOfRange => "level must be in range 1..36"@,
        }
    }
}

/// The characters of the Koch method, in the order in which they are taught.
pub open spec fn koch_seq() -> Seq<char> {
    seq![
        'K', 'M', 'U', 'R', 'E', 'S', 'N', 'A', 'P', 'T',
        'L', 'W', 'I', 'J', 'Z', 'F', 'O', 'Y',
        'V', 'G', '5', '/', 'Q', '9', '2', 'H', '3',
        '8', 'B', '4', '7', 'C', '1', 'D', '6', '0',
        'X',
    ]
}

/// The characters of the Koch method, in the order in which they are taught.
pub fn koch_chars() -> (v: Vec<char>)
    ensures
        v@ == koch_seq(),
{
    let v = vec![
        'K', 'M', 'U', 'R', 'E', 'S', 'N', 'A', 'P', 'T',
        'L', 'W', 'I', 'J', 'Z', 'F', 'O', 'Y',
        'V', 'G', '5', '/', 'Q', '9', '2', 'H', '3',
        '8', 'B', '4', '7', 'C', '1', 'D', '6', '0',
        'X',
    ];
    assert(v@ =~= koch_seq());
    v
}

/// The kind of text a problem set asks for.
#[derive(Debug, Clone, Copy, PartialEq, Eq, Structural)]
pub enum LessonKind {
    /// Capital letters `A` to `Z`.
    Alpha,
    /// The first `level + 1` characters of the Koch method.
    Koch(usize),
}

/// Whether a text of the given kind may hold `c`.
pub open spec fn kind_allows(kind: LessonKind, c: char) -> bool {
    match kind {
        LessonKind::Alpha => 'A' <= c && c <= 'Z',
        LessonKind::Koch(level) => exists|k: int| 0 <= k <= level && koch_seq()[k] == c,
    }
}

/// `letters` with a space after every fifth one.
pub open spec fn grouped(letters: Seq<char>) -> Seq<char>
    decreases letters.len(),
{
    if letters.len() == 0 {
        seq![]
    } else {
        let r = grouped(letters.drop_last()).push(letters.last());
        if (letters.len() - 1) % 5 == 4 {
            r.push(' ')
        } else {
            r
        }
    }
}

/// A text of `n` characters in groups of five holds `n + n / 5` characters.
pub proof fn law_grouped_length(letters: Seq<char>)
    ensures
        grouped(letters).len() == letters.len() + letters.len() / 5,
    decreases letters.len(),
{
    if letters.len() > 0 {
        law_grouped_length(letters.drop_last());
    }
}

/// Whether `text` is a lesson text of `kind`: `length` allowed characters in
/// groups of five, each group followed by a space.
pub open spec fn is_lesson_text(kind: LessonKind, length: nat, text: Seq<char>) -> bool {
    exists|letters: Seq<char>|
        {
            &&& letters.len() == length
            &&& forall|k: int| 0 <= k < letters.len() ==> kind_allows(kind, #[trigger] letters[k])
            &&& text == grouped(letters)
        }
}

/// The kind of text that a `koch` argument asks for.
pub open spec fn koch_request(args: Seq<char>) -> Result<LessonKind, LessonError> {
    match parsed_usize(args) {
        None => Err(LessonError::InvalidLevel),
        Some(level) => if 1 <= level && level <= 35 {
            Ok(LessonKind::Koch(level))
        } else {
            Err(LessonError::LevelOutOfRange)
        },
    }
}

/// The kind of text that a problem set asks for: its name stands before the
/// first `':'`, its argument after it.
pub open spec fn lesson_request(probset: Seq<char>) -> Result<LessonKind, LessonError> {
    let name = before_colon(probset);
    if name == "alpha"@ {
        Ok(LessonKind::Alpha)
    } else if name == "koch"@ || name == "lcwo"@ {
        koch_request(trimmed(after_colon(probset)))
    } else {
        Err(LessonError::UnknownProbset)
    }
}

/// Lays `letters` out in groups of five, each followed by a space.
pub fn grouped_text(letters: &Vec<char>) -> (s: String)
    ensures
        s@ == grouped(letters@),
{
    let mut s = String::new();
    for i in 0..letters.len()
        invariant
            s@ == grouped(letters@.take(i as int)),
    {
        let ghost prev = letters@.take(i as int);
        assert(letters@.take(i + 1).drop_last() == prev);
        push_char(&mut s, letters[i]);
        if i % 5 == 4 {
            push_char(&mut s, ' ');
        }
    }
    assert(letters@.take(letters.len() as int) == letters@);
    s
}

/// The letters that the drawn bytes stand for.
pub open spec fn letters_of(draws: Seq<u8>) -> Seq<char> {
    draws.map_values(|d: u8| d as char)
}

/// The text that the drawn bytes make: each byte read as a character, laid
/// out in groups of five.
pub fn alpha_text(draws: &Vec<u8>) -> (s: String)
    ensures
        s@ == grouped(letters_of(draws@)),
{
    let mut letters: Vec<char> = Vec::new();
    for i in 0..draws.len()
        invariant
            letters@ == letters_of(draws@.take(i as int)),
    {
        letters.push(draws[i] as char);
        assert(letters_of(draws@.take(i + 1)) =~= letters_of(draws@.take(i as int)).push(
            draws@[i as int] as char,
        ));
    }
    assert(draws@.take(draws.len() as int) == draws@);
    grouped_text(&letters)
}

/// The Koch characters at the drawn positions.
pub open spec fn koch_letters_of(picks: Seq<usize>) -> Seq<char> {
    picks.map_values(|p: usize| koch_seq()[p as int])
}

/// The text that the drawn positions make: the Koch character at each
/// position, laid out in groups of five.
pub fn koch_text(picks: &Vec<usize>) -> (s: String)
    requires
        forall|k: int| 0 <= k < picks@.len() ==> #[trigger] picks@[k] < koch_seq().len(),
    ensures
        s@ == grouped(koch_letters_of(picks@)),
{
    let koch = koch_chars();
    let mut letters: Vec<char> = Vec::new();
    for i in 0..picks.len()
        invariant
            koch@ == koch_seq(),
            forall|k: int| 0 <= k < picks@.len() ==> #[trigger] picks@[k] < koch_seq().len(),
            letters@ == koch_letters_of(picks@.take(i as int)),
    {
        letters.push(koch[picks[i]]);
        assert(koch_letters_of(picks@.take(i + 1)) =~= koch_letters_of(picks@.take(i as int)).push(
            koch_seq()[picks@[i as int] as int],
        ));
    }
    assert(picks@.take(picks.len() as int) == picks@);
    grouped_text(&letters)
}

/// A random text of `length` capital letters in groups of five.
pub fn prob_alpha(length: usize) -> (res: Result<String, LessonError>)
    ensures
        res is Ok,
        res matches Ok(text) ==> is_lesson_text(LessonKind::Alpha, length as nat, text@),
{
    let mut rng = thread_rng();
    let mut draws: Vec<u8> = Vec::new();
    for _i in 0..length
        invariant
            forall|k: int| 0 <= k < draws@.len() ==> 65 <= #[trigger] draws@[k] <= 90,
            draws@.len() == _i,
    {
        let d: u8 = gen_range_u8_inclusive(&mut rng, 65, 90);
        draws.push(d);
    }
    let text = alpha_text(&draws);
    proof {
        let letters = letters_of(draws@);
        assert forall|k: int| 0 <= k < letters.len() implies kind_allows(
            LessonKind::Alpha,
            #[trigger] letters[k],
        ) by {
            assert(65 <= draws@[k] <= 90);
        }
    }
    Ok(text)
}

/// A random text of `length` characters of the Koch method in groups of
/// five; `args` gives the level: the first `level + 1` characters are used.
pub fn prob_koch_method(length: usize, args: &str) -> (res: Result<String, LessonError>)
    ensures
        match koch_request(args@) {
            Err(e) => res == Err::<String, LessonError>(e),
            Ok(kind) => res matches Ok(text) && is_lesson_text(kind, length as nat, text@),
        },
{
    let level = match parse_usize(args) {
        Some(level) => level,
        None => {
            return Err(LessonError::InvalidLevel);
        },
    };
    if level < 1 || level > 35 {
        return Err(LessonError::LevelOutOfRange);
    }
    let count: usize = level + 1;
    let mut rng = thread_rng();
    let mut picks: Vec<usize> = Vec::new();
    for _i in 0..length
        invariant
            count == level + 1,
            level <= 35,
            forall|k: int| 0 <= k < picks@.len() ==> #[trigger] picks@[k] < count,
            picks@.len() == _i,
    {
        let p: usize = gen_range_usize(&mut rng, 0, count);
        picks.push(p);
    }
    let text = koch_text(&picks);
    proof {
        let letters = koch_letters_of(picks@);
        assert forall|k: int| 0 <= k < letters.len() implies kind_allows(
            LessonKind::Koch(level),
            #[trigger] letters[k],
        ) by {
            assert(picks@[k] < count);
            assert(koch_seq()[picks@[k] as int] == letters[k]);
        }
    }
    Ok(text)
}

/// The text of a lesson: `probset` names the problem set (`alpha`, or `koch`
/// or `lcwo` followed by `':'` and a level), `length` the number of
/// characters.
pub fn get_lesson_str(probset: &str, length: usize) -> (res: Result<String, LessonError>)
    ensures
        match lesson_request(probset@) {
            Err(e) => res == Err::<String, LessonError>(e),
            Ok(kind) => res matches Ok(text) && is_lesson_text(kind, length as nat, text@),
        },
{
    let (name, args) = split_at_colon(probset);
    if same_text(name, "alpha") {
        prob_alpha(length)
    } else if same_text(name, "koch") || same_text(name, "lcwo") {
        let args = trim(args);
        prob_koch_method(length, args)
    } else {
        Err(LessonError::UnknownProbset)
    }
}

/// The state of a long lesson: the text being keyed.
pub struct LessonLongModeState {
    pub text: String,
}

impl LessonLongModeState {
    /// A long lesson on a fresh text of `length` characters of `probset`.
    pub fn new(probset: &str, length: usize) -> (res: Result<Self, LessonError>)
        ensures
            match lesson_request(probset@) {
                Err(e) => res matches Err(r) && r == e,
                Ok(kind) => res matches Ok(st) && is_lesson_text(kind, length as nat, st.text@),
            },
    {
        match get_lesson_str(probset, length) {
            Ok(text) => Ok(LessonLongModeState { text }),
            Err(e) => Err(e),
        }
    }
}

/// Ends a long lesson; the reply is always the same.
pub fn end(_state: &LessonLongModeState) -> (res: Result<String, LessonError>)
    ensures
        res matches Ok(s) && s@ == "Long lesson ended"@,
{
    Ok(String::from_str("Long lesson ended"))
}

/// What kanaria's upper-case and then katakana conversion makes of one
/// character: a lower-case letter, half or full width (`a`-`z`, U+FF41 to
/// U+FF5A), becomes its capital; a hiragana (U+3041 to U+3096, U+309D to
/// U+309F) becomes the katakana 0x60 above it; anything else stays.
pub open spec fn upper_katakana_char(c: char) -> char {
    let v = c as int;
    if (0x61 <= v <= 0x7A) || (0xFF41 <= v <= 0xFF5A) {
        (v - 0x20) as char
    } else if (0x3041 <= v <= 0x3096) || (0x309D <= v <= 0x309F) {
        (v + 0x60) as char
    } else {
        c
    }
}

/// What kanaria's `UCSStr` makes of a string converted to upper case and
/// then to katakana: each character converted on its own.
pub open spec fn upper_katakana(s: Seq<char>) -> Seq<char> {
    s.map_values(|c: char| upper_katakana_char(c))
}

/// kanaria: `UCSStr::from_str(s).upper_case().katakana().to_string()`, one
/// conversion of the whole string; kanaria maps each character on its own,
/// as `upper_katakana_char` states.
#[verifier::external_body]
fn to_upper_katakana(s: &str) -> (r: String)
    ensures
        r@ == upper_katakana(s@),
{
    UCSStr::from_str(s).upper_case().katakana().to_string()
}

/// The compatibility decomposition (Unicode normalization form KD) of a
/// string, as unicode-normalization computes it.
pub uninterp spec fn nfkd_form(s: Seq<char>) -> Seq<char>;

/// unicode-normalization: `s.nfkd()` collected into a string. Its result is
/// named `nfkd_form`; nothing more is stated of it.
#[verifier::external_body]
fn nfkd(s: &str) -> (r: String)
    ensures
        r@ == nfkd_form(s@),
{
    s.nfkd().collect::<String>()
}

/// How a text is normalized before it is compared: white space removed,
/// upper case and katakana, then decomposed.
pub open spec fn normalized(s: Seq<char>) -> Seq<char> {
    nfkd_form(upper_katakana(without_whitespace(s)))
}

/// Normalizes a text before it is compared.
pub fn normalize_text(s: &str) -> (r: String)
    ensures
        r@ == normalized(s@),
{
    let s = remove_whitespace(s);
    let s = to_upper_katakana(s.as_str());
    nfkd(s.as_str())
}

/// The character of the decimal digit `d`.
pub open spec fn digit_char(d: nat) -> char {
    ((48 + d) as u8) as char
}

/// The decimal digits of `n`.
pub open spec fn decimal(n: nat) -> Seq<char>
    decreases n,
{
    if n < 10 {
        seq![digit_char(n)]
    } else {
        decimal(n / 10).push(digit_char(n % 10))
    }
}

/// Writes `n` in decimal.
pub fn decimal_string(n: usize) -> (s: String)
    ensures
        s@ == decimal(n as nat),
    decreases n,
{
    let d: u8 = (n % 10) as u8;
    let c = (48 + d) as char;
    if n < 10 {
        let mut s = String::new();
        push_char(&mut s, c);
        s
    } else {
        let mut s = decimal_string(n / 10);
        push_char(&mut s, c);
        s
    }
}

/// Under each pair of characters a space where they agree, `'*'` where they
/// differ; as long as the shorter of the two.
pub open spec fn diff_marks(x: Seq<char>, y: Seq<char>) -> Seq<char> {
    let n = if x.len() <= y.len() {
        x.len()
    } else {
        y.len()
    };
    Seq::new(
        n,
        |k: int|
            if x[k] == y[k] {
                ' '
            } else {
                '*'
            },
    )
}

/// Marks where `x` and `y` differ.
pub fn mark_differences(x: &str, y: &str) -> (r: String)
    ensures
        r@ == diff_marks(x@, y@),
{
    let vx = chars_of(x);
    let vy = chars_of(y);
    let n: usize = if vx.len() <= vy.len() {
        vx.len()
    } else {
        vy.len()
    };
    let mut marks: Vec<char> = Vec::new();
    for k in 0..n
        invariant
            vx@ == x@,
            vy@ == y@,
            n <= vx@.len(),
            n <= vy@.len(),
            marks@.len() == k,
            forall|t: int| 0 <= t < k ==> #[trigger] marks@[t] == diff_marks(x@, y@)[t],
    {
        if vx[k] == vy[k] {
            marks.push(' ');
        } else {
            marks.push('*');
        }
    }
    assert(marks@ =~= diff_marks(x@, y@));
    string_of(&marks)
}

/// The number of `'*'` in `marks`.
pub open spec fn stars(marks: Seq<char>) -> nat
    decreases marks.len(),
{
    if marks.len() == 0 {
        0
    } else {
        stars(marks.drop_last()) + if marks.last() == '*' {
            1nat
        } else {
            0nat
        }
    }
}

proof fn lemma_stars_mismatches(x: Seq<char>, y: Seq<char>)
    requires
        x.len() == y.len(),
    ensures
        stars(diff_marks(x, y)) == mismatches(x, y),
    decreases x.len(),
{
    if x.len() > 0 {
        lemma_stars_mismatches(x.drop_last(), y.drop_last());
        assert(diff_marks(x, y).drop_last() =~= diff_marks(x.drop_last(), y.drop_last()));
    }
}

/// The marks under the two aligned rows of a reply hold as many `'*'` as
/// the distance counts.
pub proof fn law_marks_count_distance(a: Seq<char>, b: Seq<char>)
    ensures
        stars(diff_marks(upper(alignment(a, b)), lower(alignment(a, b)))) == distance(a, b),
{
    law_alignment_cost_is_distance(a, b);
    law_cost_is_printed_mismatches(alignment(a, b));
    lemma_stars_mismatches(upper(alignment(a, b)), lower(alignment(a, b)));
}

/// The reply to a copied text: the distance, the two aligned rows and the
/// marks under them, in a diff block.
pub open spec fn reply_text(dist: nat, m_input: Seq<char>, m_text: Seq<char>) -> Seq<char> {
    "Difference: "@ + decimal(dist) + "\n```diff\n-"@ + m_input + "\n+"@ + m_text + "\n "@
        + diff_marks(m_input, m_text) + "\n```"@
}

/// Whether `r` opens with `Difference: `, then a decimal number that reads
/// back as `n`, then a line break.
pub open spec fn opens_with_difference(r: Seq<char>, n: nat) -> bool {
    let head = "Difference: "@;
    exists|digits: Seq<char>|
        {
            &&& digits.len() > 0
            &&& forall|k: int| 0 <= k < digits.len() ==> is_ascii_digit(#[trigger] digits[k])
            &&& digits_value(digits) == n
            &&& r.len() > head.len() + digits.len()
            &&& r.take(head.len() as int) == head
            &&& r.subrange(head.len() as int, (head.len() + digits.len()) as int) == digits
            &&& r[(head.len() + digits.len()) as int] == '\n'
        }
}

/// The decimal digits of `n` are digits, and read back as `n`.
pub proof fn law_decimal_reads_back(n: nat)
    ensures
        decimal(n).len() > 0,
        forall|k: int| 0 <= k < decimal(n).len() ==> is_ascii_digit(#[trigger] decimal(n)[k]),
        digits_value(decimal(n)) == n,
    decreases n,
{
    assert(forall|d: nat| d < 10 ==> (digit_char(d) as int) == 48 + d) by {
        assert forall|d: nat| d < 10 implies (digit_char(d) as int) == 48 + d by {
            let x: u8 = (48 + d) as u8;
            assert(x as int == 48 + d);
            assert((x as char) as int == x as int);
        }
    }
    if n < 10 {
        let s = decimal(n);
        assert(s.drop_last() =~= Seq::<char>::empty());
        assert(digits_value(s.drop_last()) == 0);
    } else {
        law_decimal_reads_back(n / 10);
        let s = decimal(n);
        assert(s.drop_last() == decimal(n / 10));
        assert forall|k: int| 0 <= k < s.len() implies is_ascii_digit(#[trigger] s[k]) by {
            if k < s.len() - 1 {
                assert(s[k] == decimal(n / 10)[k]);
            }
        }
        assert(digits_value(s) == (n / 10) * 10 + n % 10);
    }
}

/// Writes the reply to a copied text.
pub fn format_reply(dist: usize, m_input: &str, m_text: &str) -> (r: String)
    ensures
        r@ == reply_text(dist as nat, m_input@, m_text@),
        opens_with_difference(r@, dist as nat),
{
    let marks = mark_differences(m_input, m_text);
    let mut r = String::from_str("Difference: ");
    let digits = decimal_string(dist);
    r.append(digits.as_str());
    r.append("\n```diff\n-");
    r.append(m_input);
    r.append("\n+");
    r.append(m_text);
    r.append("\n ");
    r.append(marks.as_str());
    r.append("\n```");
    proof {
        let head = "Difference: "@;
        let digits = decimal(dist as nat);
        law_decimal_reads_back(dist as nat);
        let rest = "\n```diff\n-"@ + m_input@ + "\n+"@ + m_text@ + "\n "@ + diff_marks(
            m_input@,
            m_text@,
        ) + "\n```"@;
        reveal_strlit("\n```diff\n-");
        assert(rest[0] == '\n');
        assert(r@ =~= head + digits + rest);
        assert(r@.take(head.len() as int) =~= head);
        assert(r@.subrange(head.len() as int, (head.len() + digits.len()) as int) =~= digits);
        assert(r@[(head.len() + digits.len()) as int] == rest[0]);
    }
    r
}

/// The reply to `input`, a copy of the lesson text `text`: both are
/// normalized, then aligned and compared. `None` only where a normalized
/// string is too long to be compared (it holds `usize::MAX` characters).
pub fn lesson_reply(text: &str, input: &str) -> (r: Option<String>)
    ensures
        ({
            let ni = normalized(input@);
            let nt = normalized(text@);
            &&& r is Some <==> (ni.len() < usize::MAX && nt.len() < usize::MAX)
            &&& r matches Some(s) ==> s@ == reply_text(
                distance(ni, nt),
                upper(alignment(ni, nt)),
                lower(alignment(ni, nt)),
            )
            &&& r matches Some(s) ==> opens_with_difference(s@, distance(ni, nt))
        }),
{
    let text_n = normalize_text(text);
    let input_n = normalize_text(input);
    if input_n.as_str().unicode_len() == usize::MAX || text_n.as_str().unicode_len()
        == usize::MAX {
        return None;
    }
    let (m_input, m_text, dist) = compare_str(input_n.as_str(), text_n.as_str());
    Some(format_reply(dist, m_input.as_str(), m_text.as_str()))
}

} // verus!
