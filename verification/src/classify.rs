use crate::column::{ColumnConstraint, ColumnType};
use crate::names::to_lowercase_string;
use chrono::Timelike;
use vstd::prelude::*;
use vstd::string::*;

verus! {

/// Lowercase an ASCII capital letter; leave every other character alone.
pub open spec fn lower_ascii(c: char) -> char {
    if 'A' <= c && c <= 'Z' {
        ((c as u8) + 32) as char
    } else {
        c
    }
}

/// Case-insensitive (ASCII) match of `s` against an all-lowercase word.
pub open spec fn matches_ci(s: Seq<char>, word: Seq<char>) -> bool {
    s.len() == word.len() && forall|i: int|
        0 <= i < s.len() ==> lower_ascii(#[trigger] s[i]) == word[i]
}

/// The two boolean spellings, matched without regard to letter case.
pub open spec fn is_bool_text(s: Seq<char>) -> bool {
    matches_ci(s, "true"@) || matches_ci(s, "false"@)
}

/// Lowercase an ASCII capital letter at run time.
fn lower_char(c: char) -> (r: char)
    ensures
        r == lower_ascii(c),
{
    if 'A' <= c && c <= 'Z' {
        ((c as u8) + 32) as char
    } else {
        c
    }
}

/// Whether the tail of `s` from `start` on matches the all-lowercase
/// `word`, without regard to letter case.
fn matches_ci_from(s: &str, start: usize, word: &str) -> (r: bool)
    requires
        start <= s@.len(),
    ensures
        r == matches_ci(s@.subrange(start as int, s@.len() as int), word@),
{
    let n = s.unicode_len();
    let w = word.unicode_len();
    let ghost b = s@.subrange(start as int, s@.len() as int);
    if n - start != w {
        return false;
    }
    let mut j: usize = 0;
    while j < w
        invariant
            0 <= j <= w,
            w == word@.len(),
            start + w == n,
            n == s@.len(),
            b == s@.subrange(start as int, s@.len() as int),
            forall|j2: int| 0 <= j2 < j ==> lower_ascii(#[trigger] b[j2]) == word@[j2],
        decreases w - j,
    {
        let c = lower_char(s.get_char(start + j));
        if c != word.get_char(j) {
            proof {
                assert(b[j as int] == s@[start + j]);
            }
            return false;
        }
        proof {
            assert(b[j as int] == s@[start + j]);
        }
        j = j + 1;
    }
    true
}

/// Whether the field spells `true` or `false`, in any letter case.
fn is_bool_str(s: &str) -> (r: bool)
    ensures
        r == is_bool_text(s@),
{
    proof {
        assert(s@.subrange(0, s@.len() as int) =~= s@);
    }
    let r1 = matches_ci_from(s, 0, "true");
    let r2 = matches_ci_from(s, 0, "false");
    r1 || r2
}

/// A decimal digit.
pub open spec fn is_digit(c: char) -> bool {
    '0' <= c && c <= '9'
}

/// The numeric value of a decimal digit.
pub open spec fn digit_val(c: char) -> int {
    (c as u32) as int - ('0' as u32) as int
}

/// Every character of `s` is a decimal digit.
pub open spec fn all_digits(s: Seq<char>) -> bool {
    forall|i: int| 0 <= i < s.len() ==> is_digit(#[trigger] s[i])
}

/// The value of a string of decimal digits.
pub open spec fn digits_value(s: Seq<char>) -> int
    decreases s.len(),
{
    if s.len() == 0 {
        0
    } else {
        digits_value(s.drop_last()) * 10 + digit_val(s.last())
    }
}

/// The magnitude part of a signed decimal literal: what follows one
/// optional leading sign.
pub open spec fn sign_stripped(s: Seq<char>) -> Seq<char> {
    if s.len() > 0 && (s[0] == '+' || s[0] == '-') {
        s.drop_first()
    } else {
        s
    }
}

/// Whether `s` is the decimal text of a signed 64-bit integer: an
/// optional sign, then at least one digit, all digits, with a value that
/// fits the signed 64-bit range.  This is exactly the set of strings the
/// signed 64-bit parse accepts.
pub open spec fn is_integer_text(s: Seq<char>) -> bool {
    let b = sign_stripped(s);
    &&& b.len() > 0
    &&& all_digits(b)
    &&& if s.len() > 0 && s[0] == '-' {
        digits_value(b) <= i64::MAX as int + 1
    } else {
        digits_value(b) <= i64::MAX as int
    }
}

/// Appending a digit multiplies the value by ten and adds the digit.
proof fn lemma_digits_value_push(s: Seq<char>, c: char)
    ensures
        digits_value(s.push(c)) == digits_value(s) * 10 + digit_val(c),
{
    assert(s.push(c).drop_last() =~= s);
}

/// The value of a digit string never goes down as digits are appended.
proof fn lemma_digits_value_grows(s: Seq<char>, c: char)
    requires
        all_digits(s),
        is_digit(c),
    ensures
        digits_value(s.push(c)) >= digits_value(s) * 10,
        digits_value(s.push(c)) >= 0,
{
    lemma_digits_value_push(s, c);
    lemma_digits_value_nonneg(s);
}

/// A string of digits has a non-negative value.
proof fn lemma_digits_value_nonneg(s: Seq<char>)
    requires
        all_digits(s),
    ensures
        digits_value(s) >= 0,
    decreases s.len(),
{
    if s.len() > 0 {
        assert(all_digits(s.drop_last()));
        lemma_digits_value_nonneg(s.drop_last());
    }
}

/// Whether the field is the decimal text of a signed 64-bit integer.
fn is_integer_str(s: &str) -> (r: bool)
    ensures
        r == is_integer_text(s@),
{
    let n = s.unicode_len();
    if n == 0 {
        return false;
    }
    let c0 = s.get_char(0);
    let neg = c0 == '-';
    let start: usize = if c0 == '+' || c0 == '-' {
        1
    } else {
        0
    };
    proof {
        assert(sign_stripped(s@) =~= s@.subrange(start as int, n as int));
    }
    if start == n {
        return false;
    }
    let limit: u64 = if neg {
        9223372036854775808
    } else {
        9223372036854775807
    };
    let mut i: usize = start;
    let mut mag: u64 = 0;
    let mut over: bool = false;
    while i < n
        invariant
            start <= i <= n,
            n == s@.len(),
            neg == (s@.len() > 0 && s@[0] == '-'),
            sign_stripped(s@) == s@.subrange(start as int, n as int),
            limit == if neg {
                i64::MAX as int + 1
            } else {
                i64::MAX as int
            },
            all_digits(s@.subrange(start as int, i as int)),
            !over ==> mag == digits_value(s@.subrange(start as int, i as int)) && mag <= limit,
            over ==> digits_value(s@.subrange(start as int, i as int)) > limit,
        decreases n - i,
    {
        let c = s.get_char(i);
        if !('0' <= c && c <= '9') {
            proof {
                let b = s@.subrange(start as int, n as int);
                assert(b[i - start] == s@[i as int]);
                assert(!all_digits(b));
            }
            return false;
        }
        let d: u64 = ((c as u8) - ('0' as u8)) as u64;
        proof {
            assert(d as int == digit_val(c));
            assert(s@.subrange(start as int, i + 1 as int) =~= s@.subrange(
                start as int,
                i as int,
            ).push(s@[i as int]));
            lemma_digits_value_push(s@.subrange(start as int, i as int), s@[i as int]);
            lemma_digits_value_nonneg(s@.subrange(start as int, i as int));
        }
        if over {
            proof {
                lemma_digits_value_grows(s@.subrange(start as int, i as int), s@[i as int]);
            }
        } else {
            if mag > limit / 10 || (mag == limit / 10 && d > limit % 10) {
                over = true;
            } else {
                mag = mag * 10 + d;
            }
        }
        i = i + 1;
    }
    proof {
        assert(s@.subrange(start as int, n as int) =~= sign_stripped(s@));
    }
    !over
}

/// How many `.` characters `s` holds.
pub open spec fn dot_count(s: Seq<char>) -> int
    decreases s.len(),
{
    if s.len() == 0 {
        0
    } else {
        dot_count(s.drop_last()) + if s.last() == '.' {
            1int
        } else {
            0int
        }
    }
}

/// Whether `s` holds at least one decimal digit.
pub open spec fn has_digit(s: Seq<char>) -> bool {
    exists|i: int| 0 <= i < s.len() && is_digit(#[trigger] s[i])
}

/// The mantissa of a decimal floating-point literal: digits with at most
/// one decimal point among them, and at least one digit.
pub open spec fn is_mantissa_text(m: Seq<char>) -> bool {
    &&& forall|i: int| 0 <= i < m.len() ==> is_digit(#[trigger] m[i]) || m[i] == '.'
    &&& dot_count(m) <= 1
    &&& has_digit(m)
}

/// The exponent that follows the marker: an optional sign, then at least
/// one digit, all digits.
pub open spec fn is_exponent_text(e: Seq<char>) -> bool {
    let b = sign_stripped(e);
    b.len() > 0 && all_digits(b)
}

/// The position of the first exponent marker (`e` or `E`) in `s`, or
/// `s.len()` if there is none.
pub open spec fn first_exp_marker(s: Seq<char>) -> int
    decreases s.len(),
{
    if s.len() == 0 {
        0
    } else if s[0] == 'e' || s[0] == 'E' {
        0
    } else {
        1 + first_exp_marker(s.drop_first())
    }
}

/// Whether `s` is a floating-point literal as the 64-bit decimal parse
/// accepts it: an optional sign, then one of the special words `inf`,
/// `infinity` or `nan` in any letter case, or a mantissa with an optional
/// exponent.  Every such string parses successfully (out-of-range values
/// round to infinity or zero, still a success).
pub open spec fn is_float_text(s: Seq<char>) -> bool {
    let b = sign_stripped(s);
    ||| matches_ci(b, "inf"@)
    ||| matches_ci(b, "infinity"@)
    ||| matches_ci(b, "nan"@)
    ||| {
        let k = first_exp_marker(b);
        if k == b.len() {
            is_mantissa_text(b)
        } else {
            is_mantissa_text(b.subrange(0, k)) && is_exponent_text(
                b.subrange(k + 1, b.len() as int),
            )
        }
    }
}

/// Pins down `first_exp_marker` from what a scan observes: no marker
/// before `m`, and a marker at `m` unless `m` is the length.
proof fn lemma_first_exp_marker(s: Seq<char>, m: int)
    requires
        0 <= m <= s.len(),
        forall|j: int| 0 <= j < m ==> !(#[trigger] s[j] == 'e' || s[j] == 'E'),
        m < s.len() ==> (s[m] == 'e' || s[m] == 'E'),
    ensures
        first_exp_marker(s) == m,
    decreases s.len(),
{
    if s.len() == 0 {
    } else if s[0] == 'e' || s[0] == 'E' {
        assert(m == 0);
    } else {
        assert(m >= 1);
        lemma_first_exp_marker(s.drop_first(), m - 1);
    }
}

/// Appending a character extends the dot count by whether it is a dot.
proof fn lemma_dot_count_push(s: Seq<char>, c: char)
    ensures
        dot_count(s.push(c)) == dot_count(s) + if c == '.' {
            1int
        } else {
            0int
        },
{
    assert(s.push(c).drop_last() =~= s);
}

/// Whether characters `start..k` of the field form a mantissa.
fn mantissa_check(s: &str, start: usize, k: usize) -> (r: bool)
    requires
        start <= k <= s@.len(),
    ensures
        r == is_mantissa_text(s@.subrange(start as int, k as int)),
{
    let ghost m = s@.subrange(start as int, k as int);
    let mut i: usize = start;
    let mut dots: usize = 0;
    let mut seen_digit: bool = false;
    while i < k
        invariant
            start <= i <= k <= s@.len(),
            m == s@.subrange(start as int, k as int),
            forall|j: int|
                0 <= j < i - start ==> is_digit(#[trigger] m[j]) || m[j] == '.',
            dots == dot_count(s@.subrange(start as int, i as int)),
            seen_digit == has_digit(s@.subrange(start as int, i as int)),
            dots <= i - start,
        decreases k - i,
    {
        let c = s.get_char(i);
        proof {
            assert(m[i - start] == s@[i as int]);
            assert(s@.subrange(start as int, i + 1 as int) =~= s@.subrange(
                start as int,
                i as int,
            ).push(s@[i as int]));
            lemma_dot_count_push(s@.subrange(start as int, i as int), s@[i as int]);
        }
        if '0' <= c && c <= '9' {
            seen_digit = true;
            proof {
                assert(is_digit(s@.subrange(start as int, i + 1 as int)[i - start]));
            }
        } else if c == '.' {
            dots = dots + 1;
            proof {
                if has_digit(s@.subrange(start as int, i as int)) {
                    let w = choose|w: int|
                        0 <= w < i - start && is_digit(s@.subrange(start as int, i as int)[w]);
                    assert(is_digit(s@.subrange(start as int, i + 1 as int)[w]));
                }
            }
        } else {
            return false;
        }
        proof {
            if has_digit(s@.subrange(start as int, i as int)) {
                let w = choose|w: int|
                    0 <= w < i - start && is_digit(s@.subrange(start as int, i as int)[w]);
                assert(is_digit(s@.subrange(start as int, i + 1 as int)[w]));
            }
            if has_digit(s@.subrange(start as int, i + 1 as int)) && !is_digit(s@[i as int]) {
                let w = choose|w: int|
                    0 <= w < i + 1 - start && is_digit(
                        #[trigger] s@.subrange(start as int, i + 1 as int)[w],
                    );
                assert(is_digit(s@.subrange(start as int, i as int)[w]));
            }
        }
        i = i + 1;
    }
    dots <= 1 && seen_digit
}

/// Whether the field is a floating-point literal.
fn is_float_str(s: &str) -> (r: bool)
    ensures
        r == is_float_text(s@),
{
    let n = s.unicode_len();
    if n == 0 {
        proof {
            reveal_strlit("inf");
            reveal_strlit("infinity");
            reveal_strlit("nan");
        }
        return false;
    }
    let c0 = s.get_char(0);
    let start: usize = if c0 == '+' || c0 == '-' {
        1
    } else {
        0
    };
    let ghost b = sign_stripped(s@);
    proof {
        assert(b =~= s@.subrange(start as int, n as int));
    }
    if matches_ci_from(s, start, "inf") || matches_ci_from(s, start, "infinity")
        || matches_ci_from(s, start, "nan") {
        return true;
    }
    // Find the first exponent marker at or after the sign.
    let mut k: usize = start;
    while k < n
        invariant
            start <= k <= n,
            n == s@.len(),
            forall|j: int| start <= j < k ==> !(#[trigger] s@[j] == 'e' || s@[j] == 'E'),
        ensures
            start <= k <= n,
            forall|j: int| start <= j < k ==> !(#[trigger] s@[j] == 'e' || s@[j] == 'E'),
            k < n ==> (s@[k as int] == 'e' || s@[k as int] == 'E'),
        decreases n - k,
    {
        let c = s.get_char(k);
        if c == 'e' || c == 'E' {
            break ;
        }
        k = k + 1;
    }
    proof {
        assert(forall|j: int| 0 <= j < k - start ==> !(#[trigger] b[j] == 'e' || b[j] == 'E'))
            by {
            assert(forall|j: int| 0 <= j < k - start ==> b[j] == s@[j + start]);
        }
        lemma_first_exp_marker(b, k - start);
    }
    let mantissa_ok = mantissa_check(s, start, k);
    proof {
        assert(s@.subrange(start as int, k as int) =~= b.subrange(0, k - start));
    }
    if !mantissa_ok {
        return false;
    }
    if k == n {
        return true;
    }
    // The exponent part: characters after the marker.
    let estart = k + 1;
    if estart == n {
        return false;
    }
    let ghost e = b.subrange(k - start + 1, b.len() as int);
    proof {
        assert(e =~= s@.subrange(estart as int, n as int));
    }
    let ec = s.get_char(estart);
    let dstart: usize = if ec == '+' || ec == '-' {
        estart + 1
    } else {
        estart
    };
    proof {
        assert(sign_stripped(e) =~= s@.subrange(dstart as int, n as int));
    }
    if dstart == n {
        return false;
    }
    let mut j = dstart;
    while j < n
        invariant
            dstart <= j <= n,
            n == s@.len(),
            sign_stripped(e) == s@.subrange(dstart as int, n as int),
            e == b.subrange(k - start + 1, b.len() as int),
            b == sign_stripped(s@),
            b.len() == n - start,
            k - start == first_exp_marker(b),
            start <= k < n,
            is_mantissa_text(b.subrange(0, k - start)),
            !matches_ci(b, "inf"@),
            !matches_ci(b, "infinity"@),
            !matches_ci(b, "nan"@),
            all_digits(s@.subrange(dstart as int, j as int)),
        decreases n - j,
    {
        let c = s.get_char(j);
        if !('0' <= c && c <= '9') {
            proof {
                assert(sign_stripped(e)[j - dstart] == s@[j as int]);
                assert(!all_digits(sign_stripped(e)));
            }
            return false;
        }
        proof {
            assert(s@.subrange(dstart as int, j + 1 as int) =~= s@.subrange(
                dstart as int,
                j as int,
            ).push(s@[j as int]));
        }
        j = j + 1;
    }
    proof {
        assert(sign_stripped(e) =~= s@.subrange(dstart as int, n as int));
    }
    true
}

/// How long the run of decimal digits ending at position `i` is.
pub open spec fn digits_ending_at(s: Seq<char>, i: int) -> int
    decreases i + 1,
{
    if i < 0 || i >= s.len() || !is_digit(s[i]) {
        0
    } else {
        1 + digits_ending_at(s, i - 1)
    }
}

/// The run ending at `i` is made of digits and is preceded by a
/// non-digit or the start of the string.
proof fn lemma_digits_ending_at(s: Seq<char>, i: int)
    requires
        0 <= i < s.len(),
    ensures
        0 <= digits_ending_at(s, i) <= i + 1,
        forall|j: int| i - digits_ending_at(s, i) < j <= i ==> is_digit(#[trigger] s[j]),
        i - digits_ending_at(s, i) >= 0 ==> !is_digit(s[i - digits_ending_at(s, i)]),
    decreases i,
{
    if !is_digit(s[i]) {
        assert(digits_ending_at(s, i) == 0);
    } else if i == 0 {
        assert(digits_ending_at(s, i) == 1);
    } else {
        lemma_digits_ending_at(s, i - 1);
        let r = digits_ending_at(s, i);
        assert(r == 1 + digits_ending_at(s, i - 1));
        assert forall|j: int| i - r < j <= i implies is_digit(#[trigger] s[j]) by {
            if j < i {
                assert((i - 1) - digits_ending_at(s, i - 1) < j <= i - 1);
            }
        }
    }
}

/// The characters a field may hold before it is offered to the date
/// parser: lowercase letters, digits, and the separators that written
/// dates use.
pub open spec fn safe_date_char(c: char) -> bool {
    ||| ('a' <= c && c <= 'z')
    ||| is_digit(c)
    ||| c == ' '
    ||| c == ':'
    ||| c == '+'
    ||| c == '-'
    ||| c == '/'
    ||| c == '.'
    ||| c == ','
}

/// A lowercase letter.
pub open spec fn is_lower_alpha(c: char) -> bool {
    'a' <= c && c <= 'z'
}

/// The word `w` occurs in `s` at position `i` as a whole alphabetic
/// token: the characters match and no letter adjoins it on either side.
pub open spec fn word_at(s: Seq<char>, i: int, w: Seq<char>) -> bool {
    &&& 0 <= i
    &&& i + w.len() <= s.len()
    &&& s.subrange(i, i + w.len()) == w
    &&& (i == 0 || !is_lower_alpha(s[i - 1]))
    &&& (i + w.len() == s.len() || !is_lower_alpha(s[i + w.len()]))
}

/// One of the date parser's weekday words stands at position `i`.
pub open spec fn weekday_word_at(s: Seq<char>, i: int) -> bool {
    ||| word_at(s, i, "mon"@)
    ||| word_at(s, i, "monday"@)
    ||| word_at(s, i, "tue"@)
    ||| word_at(s, i, "tues"@)
    ||| word_at(s, i, "tuesday"@)
    ||| word_at(s, i, "wed"@)
    ||| word_at(s, i, "wednesday"@)
    ||| word_at(s, i, "thu"@)
    ||| word_at(s, i, "thurs"@)
    ||| word_at(s, i, "thursday"@)
    ||| word_at(s, i, "fri"@)
    ||| word_at(s, i, "friday"@)
    ||| word_at(s, i, "sat"@)
    ||| word_at(s, i, "saturday"@)
    ||| word_at(s, i, "sun"@)
    ||| word_at(s, i, "sunday"@)
}

/// `s` holds a weekday word as a whole token somewhere.
pub open spec fn has_weekday_word(s: Seq<char>) -> bool {
    exists|i: int| #[trigger] weekday_word_at(s, i)
}

/// A number the parser would read as year zero stands at `i`: a maximal
/// all-zero digit run of length `l` that starts a number of its own (it
/// is not the fraction of a preceding number), written with more than
/// two characters — more than two zeros, or zeros followed by a decimal
/// separator and a digit.
pub open spec fn zero_year_at(s: Seq<char>, i: int, l: int) -> bool {
    &&& 0 <= i
    &&& 1 <= l
    &&& i + l <= s.len()
    &&& (forall|j: int| i <= j < i + l ==> #[trigger] s[j] == '0')
    &&& (i == 0 || !is_digit(s[i - 1]))
    &&& (i + l == s.len() || !is_digit(s[i + l]))
    &&& !(i >= 2 && (s[i - 1] == '.' || s[i - 1] == ',') && is_digit(s[i - 2]))
    &&& (l > 2 || (i + l + 1 < s.len() && (s[i + l] == '.' || s[i + l] == ',') && is_digit(
        s[i + l + 1],
    )))
}

/// `s` holds a number the parser would read as year zero.
pub open spec fn has_zero_year_token(s: Seq<char>) -> bool {
    exists|i: int, l: int| #[trigger] zero_year_at(s, i, l)
}

/// The fields the date parser is allowed to see.  The parser panics on
/// some inputs, so a verified check keeps those away from it; everything
/// excluded here classifies as text instead.  In `s`:
/// - every character is a letter, digit or date separator, so the
///   parser's tokens are plain ASCII and its byte slicing stays on
///   character bounds;
/// - no ten digits run together, so every number it parses into a
///   64-bit integer fits one;
/// - every colon sits between digits, so the token after a colon in a
///   clock reading exists and is numeric where the parser insists on it;
/// - no five digits follow a colon or a sign directly, so hour and
///   minute offsets stay small enough for its zone arithmetic;
/// - the field does not end in a sign or a slash, so the token the
///   parser reads past such a separator exists;
/// - no weekday word together with a number that reads as year zero
///   (zeros written with more than two characters), so the parser's
///   day-of-week arithmetic never sees year zero.
///
/// The guard turns away more than the panicking inputs: compact 12- and
/// 14-digit timestamps (their digit runs exceed nine; a wider bound
/// would let a long seconds token overflow the parser's 32-bit parse of
/// it) and, when a weekday word is present, any zero-led number of more
/// than two characters.  Such fields classify as text.
pub open spec fn date_parse_safe(s: Seq<char>) -> bool {
    &&& forall|i: int| 0 <= i < s.len() ==> safe_date_char(#[trigger] s[i])
    &&& forall|i: int| 0 <= i < s.len() ==> digits_ending_at(s, i) <= 9
    &&& forall|i: int|
        0 <= i < s.len() && #[trigger] s[i] == ':' ==> 1 <= i && i + 1 < s.len() && is_digit(
            s[i - 1],
        ) && is_digit(s[i + 1])
    &&& forall|i: int|
        0 <= i < s.len() && (#[trigger] s[i] == ':' || s[i] == '+' || s[i] == '-') && i + 5
            < s.len() ==> digits_ending_at(s, i + 5) <= 4
    &&& (s.len() > 0 ==> s.last() != '+' && s.last() != '-' && s.last() != '/')
    &&& !(has_weekday_word(s) && has_zero_year_token(s))
}

/// Whether the word stands at position `i` of the field as a whole
/// alphabetic token.
fn word_at_exec(s: &str, i: usize, word: &str) -> (r: bool)
    requires
        i <= s@.len(),
    ensures
        r == word_at(s@, i as int, word@),
{
    let n = s.unicode_len();
    let wl = word.unicode_len();
    if n - i < wl {
        return false;
    }
    if i > 0 {
        let before = s.get_char(i - 1);
        if 'a' <= before && before <= 'z' {
            return false;
        }
    }
    if i + wl < n {
        let after = s.get_char(i + wl);
        if 'a' <= after && after <= 'z' {
            return false;
        }
    }
    let mut j: usize = 0;
    while j < wl
        invariant
            0 <= j <= wl,
            wl == word@.len(),
            i + wl <= n,
            n == s@.len(),
            forall|j2: int| 0 <= j2 < j ==> s@[i + j2] == word@[j2],
        decreases wl - j,
    {
        if s.get_char(i + j) != word.get_char(j) {
            proof {
                assert(s@.subrange(i as int, i + wl) != word@) by {
                    assert(s@.subrange(i as int, i + wl)[j as int] == s@[i + j]);
                }
            }
            return false;
        }
        j = j + 1;
    }
    proof {
        assert(s@.subrange(i as int, i + wl) =~= word@);
    }
    true
}

/// Whether a weekday word stands anywhere in the field.
fn has_weekday_word_exec(s: &str) -> (r: bool)
    ensures
        r == has_weekday_word(s@),
{
    proof {
        reveal_strlit("mon");
        reveal_strlit("monday");
        reveal_strlit("tue");
        reveal_strlit("tues");
        reveal_strlit("tuesday");
        reveal_strlit("wed");
        reveal_strlit("wednesday");
        reveal_strlit("thu");
        reveal_strlit("thurs");
        reveal_strlit("thursday");
        reveal_strlit("fri");
        reveal_strlit("friday");
        reveal_strlit("sat");
        reveal_strlit("saturday");
        reveal_strlit("sun");
        reveal_strlit("sunday");
    }
    let n = s.unicode_len();
    let mut i: usize = 0;
    while i < n
        invariant
            0 <= i <= n,
            n == s@.len(),
            forall|p: int| 0 <= p < i ==> !(#[trigger] weekday_word_at(s@, p)),
        decreases n - i,
    {
        let hit = word_at_exec(s, i, "mon") || word_at_exec(s, i, "monday") || word_at_exec(
            s,
            i,
            "tue",
        ) || word_at_exec(s, i, "tues") || word_at_exec(s, i, "tuesday") || word_at_exec(
            s,
            i,
            "wed",
        ) || word_at_exec(s, i, "wednesday") || word_at_exec(s, i, "thu") || word_at_exec(
            s,
            i,
            "thurs",
        ) || word_at_exec(s, i, "thursday") || word_at_exec(s, i, "fri") || word_at_exec(
            s,
            i,
            "friday",
        ) || word_at_exec(s, i, "sat") || word_at_exec(s, i, "saturday") || word_at_exec(
            s,
            i,
            "sun",
        ) || word_at_exec(s, i, "sunday");
        if hit {
            proof {
                assert(weekday_word_at(s@, i as int));
            }
            return true;
        }
        i = i + 1;
    }
    proof {
        assert(forall|p: int| !(#[trigger] weekday_word_at(s@, p))) by {
            assert(forall|p: int|
                (p < 0 || p >= s@.len()) ==> !(#[trigger] weekday_word_at(s@, p))) by {
                assert(forall|p: int| p < 0 ==> !(#[trigger] weekday_word_at(s@, p)));
                assert(forall|p: int|
                    p >= s@.len() ==> !(#[trigger] weekday_word_at(s@, p))) by {
                    assert("mon"@.len() == 3);
                }
            }
        }
    }
    false
}

/// Whether the field holds a number the parser would read as year zero.
fn has_zero_year_exec(s: &str) -> (r: bool)
    ensures
        r == has_zero_year_token(s@),
{
    let n = s.unicode_len();
    let mut i: usize = 0;
    while i < n
        invariant
            0 <= i <= n,
            n == s@.len(),
            i == 0 || i == n || !is_digit(s@[i as int]) || !is_digit(s@[i - 1]),
            forall|i2: int, l2: int| i2 < i ==> !(#[trigger] zero_year_at(s@, i2, l2)),
        decreases n - i,
    {
        let c = s.get_char(i);
        if !('0' <= c && c <= '9') {
            proof {
                assert forall|l2: int| !(#[trigger] zero_year_at(s@, i as int, l2)) by {
                    if zero_year_at(s@, i as int, l2) {
                        assert(s@[i as int] == '0');
                    }
                }
            }
            i = i + 1;
            continue ;
        }
        // A maximal digit run starts here; scan it.
        let start = i;
        let mut all_zero = c == '0';
        let mut e: usize = i + 1;
        proof {
            assert(all_zero == (forall|j: int| start <= j < start + 1 ==> s@[j] == '0'));
        }
        while e < n
            invariant
                start < e <= n,
                n == s@.len(),
                forall|j: int| start <= j < e ==> is_digit(#[trigger] s@[j]),
                all_zero == (forall|j: int| start <= j < e ==> s@[j] == '0'),
            ensures
                start < e <= n,
                forall|j: int| start <= j < e ==> is_digit(#[trigger] s@[j]),
                all_zero == (forall|j: int| start <= j < e ==> s@[j] == '0'),
                e == n || !is_digit(s@[e as int]),
            decreases n - e,
        {
            let d = s.get_char(e);
            if !('0' <= d && d <= '9') {
                break ;
            }
            proof {
                if all_zero && d == '0' {
                    assert(forall|j: int| start <= j < e + 1 ==> s@[j] == '0');
                } else {
                    if !all_zero {
                        let w = choose|w: int| start <= w < e && s@[w] != '0';
                        assert(s@[w] != '0');
                    }
                    assert(!(forall|j: int| start <= j < e + 1 ==> s@[j] == '0')) by {
                        if d != '0' {
                            assert(s@[e as int] != '0');
                        }
                    }
                }
            }
            if d != '0' {
                all_zero = false;
            }
            e = e + 1;
        }
        if all_zero {
            let toolong = e - start > 2;
            let mut frac = false;
            if n - e > 1 {
                let sep = s.get_char(e);
                if sep == '.' || sep == ',' {
                    let d2 = s.get_char(e + 1);
                    if '0' <= d2 && d2 <= '9' {
                        frac = true;
                    }
                }
            }
            let mut glued = false;
            if start >= 2 {
                let p1 = s.get_char(start - 1);
                if p1 == '.' || p1 == ',' {
                    let p2 = s.get_char(start - 2);
                    if '0' <= p2 && p2 <= '9' {
                        glued = true;
                    }
                }
            }
            if (toolong || frac) && !glued {
                proof {
                    assert(zero_year_at(s@, start as int, (e - start) as int));
                }
                return true;
            }
            proof {
                assert(frac == (start + (e - start) + 1 < s@.len() && (s@[start + (e - start)]
                    == '.' || s@[start + (e - start)] == ',') && is_digit(
                    s@[start + (e - start) + 1],
                )));
                assert(glued == (start >= 2 && (s@[start - 1] == '.' || s@[start - 1] == ',')
                    && is_digit(s@[start - 2])));
            }
        }
        proof {
            assert forall|i2: int, l2: int| start <= i2 < e implies !(#[trigger] zero_year_at(
                s@,
                i2,
                l2,
            )) by {
                if zero_year_at(s@, i2, l2) {
                    if i2 > start {
                        assert(is_digit(s@[i2 - 1]));
                        assert(false);
                    } else if l2 < e - start {
                        assert(is_digit(s@[i2 + l2]));
                        assert(false);
                    } else if l2 > e - start {
                        assert(i2 + l2 <= s@.len());
                        assert(e < s@.len() && s@[e as int] == '0');
                        assert(false);
                    } else {
                        assert(all_zero);
                        assert(false);
                    }
                }
            }
        }
        i = e;
    }
    proof {
        assert forall|i2: int, l2: int| !(#[trigger] zero_year_at(s@, i2, l2)) by {
            if zero_year_at(s@, i2, l2) {
                assert(0 <= i2 && 1 <= l2 && i2 + l2 <= s@.len());
                assert(i2 < n);
            }
        }
    }
    false
}

/// Whether the field may be offered to the date parser.
fn is_date_parse_safe(s: &str) -> (r: bool)
    ensures
        r == date_parse_safe(s@),
{
    let n = s.unicode_len();
    if n == 0 {
        proof {
            assert(!has_weekday_word(s@)) by {
                reveal_strlit("mon");
                reveal_strlit("monday");
                reveal_strlit("tue");
                reveal_strlit("tues");
                reveal_strlit("tuesday");
                reveal_strlit("wed");
                reveal_strlit("wednesday");
                reveal_strlit("thu");
                reveal_strlit("thurs");
                reveal_strlit("thursday");
                reveal_strlit("fri");
                reveal_strlit("friday");
                reveal_strlit("sat");
                reveal_strlit("saturday");
                reveal_strlit("sun");
                reveal_strlit("sunday");
            }
        }
        return true;
    }
    let mut i: usize = 0;
    let mut run: usize = 0;
    while i < n
        invariant
            0 <= i <= n,
            n == s@.len(),
            run == digits_ending_at(s@, i - 1),
            forall|p: int| 0 <= p < i ==> safe_date_char(#[trigger] s@[p]),
            forall|p: int| 0 <= p < i ==> digits_ending_at(s@, p) <= 9,
            forall|p: int|
                0 <= p < i && #[trigger] s@[p] == ':' ==> 1 <= p && p + 1 < n && is_digit(
                    s@[p - 1],
                ) && is_digit(s@[p + 1]),
            forall|p: int|
                0 <= p && p + 5 < i && (#[trigger] s@[p] == ':' || s@[p] == '+' || s@[p] == '-')
                    ==> digits_ending_at(s@, p + 5) <= 4,
        decreases n - i,
    {
        let c = s.get_char(i);
        let safe = ('a' <= c && c <= 'z') || ('0' <= c && c <= '9') || c == ' ' || c == ':' || c
            == '+' || c == '-' || c == '/' || c == '.' || c == ',';
        if !safe {
            return false;
        }
        if c == ':' {
            if i == 0 {
                return false;
            }
            proof {
                lemma_digits_ending_at(s@, i - 1);
            }
            if run == 0 {
                return false;
            }
            if i + 1 == n {
                return false;
            }
            let next = s.get_char(i + 1);
            if !('0' <= next && next <= '9') {
                return false;
            }
            proof {
                assert(is_digit(s@[i - 1]));
            }
        }
        let new_run: usize = if '0' <= c && c <= '9' {
            run + 1
        } else {
            0
        };
        proof {
            assert(new_run == digits_ending_at(s@, i as int));
        }
        if new_run > 9 {
            return false;
        }
        if new_run == 5 && i >= 5 {
            let sym = s.get_char(i - 5);
            if sym == ':' || sym == '+' || sym == '-' {
                return false;
            }
        }
        proof {
            lemma_digits_ending_at(s@, i as int);
            assert(forall|p: int|
                0 <= p && p + 5 < i + 1 && (#[trigger] s@[p] == ':' || s@[p] == '+' || s@[p]
                    == '-') ==> digits_ending_at(s@, p + 5) <= 4) by {
                if i >= 5 && (s@[i - 5] == ':' || s@[i - 5] == '+' || s@[i - 5] == '-') {
                    assert(digits_ending_at(s@, i as int) <= 4) by {
                        if digits_ending_at(s@, i as int) >= 5 {
                            assert(digits_ending_at(s@, i as int) >= 6);
                            assert(is_digit(s@[i - 5]));
                        }
                    }
                }
            }
        }
        run = new_run;
        i = i + 1;
    }
    let last = s.get_char(n - 1);
    if last == '+' || last == '-' || last == '/' {
        return false;
    }
    if has_zero_year_exec(s) && has_weekday_word_exec(s) {
        return false;
    }
    true
}

/// What the date parse of a field returns: a pure function of the
/// characters alone.  `None` when the text does not parse as a date;
/// otherwise the parsed time-of-day, as whole seconds from midnight and
/// nanoseconds within the second.
pub uninterp spec fn date_time_of(s: Seq<char>) -> Option<(u32, u32)>;

/// Relies on `dtparse::Parser::parse` and on `chrono::Timelike`.  The
/// parser runs with a pinned two-digit-year anchor and a pinned default
/// date (the first day of 2000, a leap year; the parser itself defaults
/// the time to midnight), so it reads no clock and its answer is a
/// function of the text alone.  The caller keeps fields on which the
/// parser can panic away from it; see `date_parse_safe`.
#[verifier::external_body]
fn parse_time_of_day(field: &str) -> (r: Option<(u32, u32)>)
    requires
        date_parse_safe(field@),
    ensures
        r == date_time_of(field@),
{
    let mut info = dtparse::ParserInfo::default();
    info.year = 2000;
    info.century = 2000;
    let anchor = chrono::NaiveDate::from_ymd_opt(2000, 1, 1).unwrap().and_hms_opt(0, 0, 0).unwrap();
    let none = std::collections::HashMap::new();
    match dtparse::Parser::new(info).parse(field, None, None, false, false, Some(&anchor), false, &none) {
        Ok((dt, _, _)) => Some((dt.time().num_seconds_from_midnight(), dt.time().nanosecond())),
        Err(_) => None,
    }
}

/// The date parser's answer for a field: the parse runs on the
/// lowercased text, and only when the safety check admits it; an
/// excluded field counts as not parsed.  `Some(true)` means the parsed
/// time-of-day was exactly midnight.
pub open spec fn field_date_class(s: Seq<char>) -> Option<bool> {
    if date_parse_safe(crate::names::lower_of(s)) {
        match date_time_of(crate::names::lower_of(s)) {
            Some((sec, nano)) => Some(sec == 0 && nano == 0),
            None => None,
        }
    } else {
        None
    }
}

/// The classification of one field: a function of its characters alone.
pub open spec fn classify_field(s: Seq<char>) -> ColumnType {
    classify_spec(s, field_date_class(s))
}

/// The classification of one field, given the date parser's answer for
/// it: `None` when the field did not parse as a date, otherwise whether
/// the parsed time-of-day was exactly midnight.  The checks run in a
/// fixed priority order; the first that matches decides.
pub open spec fn classify_spec(s: Seq<char>, date_class: Option<bool>) -> ColumnType {
    if s.len() == 0 {
        ColumnType::Unknown
    } else if is_bool_text(s) {
        ColumnType::Boolean
    } else if is_integer_text(s) {
        ColumnType::Integer
    } else if is_float_text(s) {
        ColumnType::Numeric
    } else {
        match date_class {
            Some(true) => ColumnType::Date,
            Some(false) => ColumnType::Timestamp,
            None => ColumnType::Text,
        }
    }
}

/// The decision tail of the classifier, once the date parser has
/// answered: exact for every answer.
pub fn classify_with_date_class(xfield: &str, date_class: Option<bool>) -> (t: ColumnType)
    ensures
        t == classify_spec(xfield@, date_class),
{
    let n = xfield.unicode_len();
    if n == 0 {
        ColumnType::Unknown
    } else if is_bool_str(xfield) {
        ColumnType::Boolean
    } else if is_integer_str(xfield) {
        ColumnType::Integer
    } else if is_float_str(xfield) {
        ColumnType::Numeric
    } else {
        match date_class {
            Some(true) => ColumnType::Date,
            Some(false) => ColumnType::Timestamp,
            None => ColumnType::Text,
        }
    }
}

/// Classify one text field: a function of its characters alone.  The
/// checks run in a fixed priority order: empty, boolean spelling, signed
/// 64-bit integer, floating-point literal, and only then the permissive
/// date parse, whose outcome picks `Date` (midnight), `Timestamp` (any
/// other time) or `Text` (no parse).  The date parser sees the
/// lowercased field, and only when the safety check admits it.
pub fn find_type(xfield: &str) -> (t: ColumnType)
    ensures
        t == classify_field(xfield@),
        xfield@.len() == 0 ==> t == ColumnType::Unknown,
        is_bool_text(xfield@) ==> t == ColumnType::Boolean,
        xfield@.len() > 0 && !is_bool_text(xfield@) && is_integer_text(xfield@) ==> t
            == ColumnType::Integer,
        xfield@.len() > 0 && !is_bool_text(xfield@) && !is_integer_text(xfield@)
            && is_float_text(xfield@) ==> t == ColumnType::Numeric,
        xfield@.len() > 0 && !is_bool_text(xfield@) && !is_integer_text(xfield@)
            && !is_float_text(xfield@) ==> (t == ColumnType::Date || t == ColumnType::Timestamp
            || t == ColumnType::Text),
{
    let n = xfield.unicode_len();
    if n == 0 {
        proof {
            reveal_strlit("true");
            reveal_strlit("false");
            assert(ColumnType::Unknown == classify_field(xfield@));
        }
        ColumnType::Unknown
    } else if is_bool_str(xfield) {
        proof {
            assert(ColumnType::Boolean == classify_field(xfield@));
        }
        ColumnType::Boolean
    } else if is_integer_str(xfield) {
        proof {
            assert(ColumnType::Integer == classify_field(xfield@));
        }
        ColumnType::Integer
    } else if is_float_str(xfield) {
        proof {
            assert(ColumnType::Numeric == classify_field(xfield@));
        }
        ColumnType::Numeric
    } else {
        let low = to_lowercase_string(xfield);
        let dc: Option<bool> = if is_date_parse_safe(low.as_str()) {
            match parse_time_of_day(low.as_str()) {
                Some((sec, nano)) => Some(sec == 0 && nano == 0),
                None => None,
            }
        } else {
            None
        };
        proof {
            assert(dc == field_date_class(xfield@));
        }
        let t = match dc {
            Some(true) => ColumnType::Date,
            Some(false) => ColumnType::Timestamp,
            None => ColumnType::Text,
        };
        proof {
            assert(t == classify_spec(xfield@, field_date_class(xfield@)));
        }
        t
    }
}

/// Classification is total and deterministic: it is a function of the
/// field's characters and the date parser's answer alone, always one of
/// the seven tags; an empty field is `Unknown`, and either boolean
/// spelling, in any letter case, is `Boolean`.
pub proof fn lemma_classify_total(s: Seq<char>, dc: Option<bool>)
    ensures
        s.len() == 0 ==> classify_spec(s, dc) == ColumnType::Unknown,
        is_bool_text(s) ==> classify_spec(s, dc) == ColumnType::Boolean,
        classify_spec(s, dc) == ColumnType::Unknown || classify_spec(s, dc)
            == ColumnType::Boolean || classify_spec(s, dc) == ColumnType::Integer || classify_spec(
            s,
            dc,
        ) == ColumnType::Numeric || classify_spec(s, dc) == ColumnType::Date || classify_spec(
            s,
            dc,
        ) == ColumnType::Timestamp || classify_spec(s, dc) == ColumnType::Text,
{
    reveal_strlit("true");
    reveal_strlit("false");
}

/// The decimal digit character of a value between zero and nine.
pub open spec fn digit_char(d: int) -> char {
    ((48 + d) as u8) as char
}

/// The decimal digit string of a non-negative number, most significant
/// digit first.
pub open spec fn dec_digits(n: int) -> Seq<char>
    decreases n,
{
    if n < 10 {
        seq![digit_char(n)]
    } else {
        dec_digits(n / 10).push(digit_char(n % 10))
    }
}

/// The decimal text of an integer: a minus sign for negative values,
/// then the digits of its magnitude.
pub open spec fn decimal_of(v: int) -> Seq<char> {
    if v < 0 {
        seq!['-'] + dec_digits(-v)
    } else {
        dec_digits(v)
    }
}

/// The decimal digit string of `n` is made of digits and reads back as
/// `n`.
proof fn lemma_dec_digits_value(n: int)
    requires
        n >= 0,
    ensures
        dec_digits(n).len() >= 1,
        all_digits(dec_digits(n)),
        digits_value(dec_digits(n)) == n,
        is_digit(dec_digits(n)[0]),
    decreases n,
{
    if n < 10 {
        let s1 = seq![digit_char(n)];
        assert(s1.len() == 1);
        assert(s1.last() == digit_char(n));
        assert(s1.drop_last() =~= Seq::<char>::empty());
        assert(digits_value(s1.drop_last()) == 0);
        assert(digits_value(s1) == digit_val(digit_char(n)));
        assert(digit_val(digit_char(n)) == n);
    } else {
        lemma_dec_digits_value(n / 10);
        lemma_digits_value_push(dec_digits(n / 10), digit_char(n % 10));
        assert(forall|i: int|
            0 <= i < dec_digits(n / 10).len() ==> #[trigger] dec_digits(n)[i] == dec_digits(
                n / 10,
            )[i]);
    }
}

/// Every integer of the signed 64-bit range classifies as `Integer` from
/// its decimal text, whatever the date parser would have answered: the
/// integer check sits before the date check and accepts exactly these
/// strings.
pub proof fn lemma_decimal_classifies_integer(v: i64)
    ensures
        is_integer_text(decimal_of(v as int)),
        forall|dc: Option<bool>| #[trigger] classify_spec(decimal_of(v as int), dc)
            == ColumnType::Integer,
{
    reveal_strlit("true");
    reveal_strlit("false");
    let s = decimal_of(v as int);
    if v < 0 {
        let mag = -(v as int);
        lemma_dec_digits_value(mag);
        assert(s[0] == '-');
        assert(s.drop_first() =~= dec_digits(mag));
        assert(sign_stripped(s) == dec_digits(mag));
    } else {
        lemma_dec_digits_value(v as int);
        assert(is_digit(s[0]));
        assert(sign_stripped(s) == s);
    }
    assert(is_integer_text(s));
    assert(forall|dc: Option<bool>| #[trigger] classify_spec(s, dc) == ColumnType::Integer) by {
        assert(s.len() > 0);
        assert(!matches_ci(s, "true"@)) by {
            if matches_ci(s, "true"@) {
                assert(lower_ascii(s[0]) == 't');
            }
        }
        assert(!matches_ci(s, "false"@)) by {
            if matches_ci(s, "false"@) {
                assert(lower_ascii(s[0]) == 'f');
            }
        }
    }
}

/// When a field counts as null: exact, case-sensitive equality with the
/// configured null sentinel.
pub open spec fn constraint_spec(field: Seq<char>, null_as: Seq<char>) -> ColumnConstraint {
    if field == null_as {
        ColumnConstraint::Nullable
    } else {
        ColumnConstraint::NotNull
    }
}

/// Character-for-character string equality.
fn str_eq(a: &str, b: &str) -> (r: bool)
    ensures
        r == (a@ == b@),
{
    let n = a.unicode_len();
    let m = b.unicode_len();
    if n != m {
        return false;
    }
    let mut i: usize = 0;
    while i < n
        invariant
            0 <= i <= n,
            n == a@.len(),
            n == b@.len(),
            forall|j: int| 0 <= j < i ==> a@[j] == b@[j],
        decreases n - i,
    {
        if a.get_char(i) != b.get_char(i) {
            return false;
        }
        i = i + 1;
    }
    proof {
        assert(a@ =~= b@);
    }
    true
}

/// Classify one field's nullability against the configured sentinel.
pub fn find_constraint(field: &str, null_as: &str) -> (c: ColumnConstraint)
    ensures
        c == constraint_spec(field@, null_as@),
{
    if str_eq(field, null_as) {
        ColumnConstraint::Nullable
    } else {
        ColumnConstraint::NotNull
    }
}

} // verus!
