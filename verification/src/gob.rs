//! The grammar of the clock log.
//!
//! A log is a stream of records separated by commas or newlines; runs of
//! whitespace, separators and `#`-comments between records are ignored. Each
//! record is one semantic action: a tag add or clear, a clock-out, a date, a
//! clock-in (possibly combined with its clock-out), a numeric override, a
//! group definition, or a job name. The spec functions here define that
//! grammar over the character sequence; the executable parser is proved to
//! return exactly what they say.

use vstd::prelude::*;

use crate::clockin::{ActionV, ClockAction, LineActionV, LineClockAction};
use crate::err::TokErr;
use crate::s_time::STime;
use crate::text::str_to_chars;

verus! {

/// Characters that end a `#`-comment (without being part of it).
pub open spec fn is_break_char(c: char) -> bool {
    c == ',' || c == '\n' || c == '\r'
}

/// Characters ignored between records: separators and whitespace.
pub open spec fn is_junk_char(c: char) -> bool {
    c == ',' || c == ' ' || c == '\t' || c == '\n' || c == '\r'
}

/// Whitespace tolerated around `/`, `:`, `=` and `[` inside a record.
pub open spec fn is_inline_ws(c: char) -> bool {
    c == ' ' || c == '\t'
}

/// A decimal digit.
pub open spec fn is_digit(c: char) -> bool {
    48 <= c as u32 <= 57
}

/// An ASCII letter, which may start an unquoted identifier.
pub open spec fn is_alpha(c: char) -> bool {
    (65 <= c as u32 <= 90) || (97 <= c as u32 <= 122)
}

/// A character that may continue an unquoted identifier.
pub open spec fn is_ident_char(c: char) -> bool {
    is_alpha(c) || is_digit(c) || c == '_'
}

/// The position of the first comment-ending character at or after `i`.
pub open spec fn scan_to_break(s: Seq<char>, i: int) -> int
    decreases s.len() - i,
    when 0 <= i <= s.len()
{
    if i < s.len() && !is_break_char(s[i]) {
        scan_to_break(s, i + 1)
    } else {
        i
    }
}

pub proof fn lemma_scan_to_break_bounds(s: Seq<char>, i: int)
    requires
        0 <= i <= s.len(),
    ensures
        i <= scan_to_break(s, i) <= s.len(),
    decreases s.len() - i,
{
    if i < s.len() && !is_break_char(s[i]) {
        lemma_scan_to_break_bounds(s, i + 1);
    }
}

/// The position of the first character after the junk run at `i`: separators,
/// whitespace, and `#`-comments running to the next separator or the end.
pub open spec fn skip_junk(s: Seq<char>, i: int) -> int
    decreases s.len() - i,
    when 0 <= i <= s.len()
    via skip_junk_decreases
{
    if i < s.len() && is_junk_char(s[i]) {
        skip_junk(s, i + 1)
    } else if i < s.len() && s[i] == '#' {
        skip_junk(s, scan_to_break(s, i + 1))
    } else {
        i
    }
}

#[via_fn]
proof fn skip_junk_decreases(s: Seq<char>, i: int) {
    if i < s.len() && !is_junk_char(s[i]) && s[i] == '#' {
        lemma_scan_to_break_bounds(s, i + 1);
    }
}

pub proof fn lemma_skip_junk_bounds(s: Seq<char>, i: int)
    requires
        0 <= i <= s.len(),
    ensures
        i <= skip_junk(s, i) <= s.len(),
    decreases s.len() - i,
{
    if i < s.len() && is_junk_char(s[i]) {
        lemma_skip_junk_bounds(s, i + 1);
    } else if i < s.len() && s[i] == '#' {
        lemma_scan_to_break_bounds(s, i + 1);
        lemma_skip_junk_bounds(s, scan_to_break(s, i + 1));
    }
}

/// The position of the first non-whitespace character at or after `i`.
pub open spec fn ws_end(s: Seq<char>, i: int) -> int
    decreases s.len() - i,
    when 0 <= i <= s.len()
{
    if i < s.len() && is_inline_ws(s[i]) {
        ws_end(s, i + 1)
    } else {
        i
    }
}

pub proof fn lemma_ws_end_bounds(s: Seq<char>, i: int)
    requires
        0 <= i <= s.len(),
    ensures
        i <= ws_end(s, i) <= s.len(),
    decreases s.len() - i,
{
    if i < s.len() && is_inline_ws(s[i]) {
        lemma_ws_end_bounds(s, i + 1);
    }
}

/// The end of the run of digits starting at `i`.
pub open spec fn digits_end(s: Seq<char>, i: int) -> int
    decreases s.len() - i,
    when 0 <= i <= s.len()
{
    if i < s.len() && is_digit(s[i]) {
        digits_end(s, i + 1)
    } else {
        i
    }
}

pub proof fn lemma_digits_end_bounds(s: Seq<char>, i: int)
    requires
        0 <= i <= s.len(),
    ensures
        i <= digits_end(s, i) <= s.len(),
        forall|k: int| i <= k < digits_end(s, i) ==> is_digit(s[k]),
        digits_end(s, i) < s.len() ==> !is_digit(s[digits_end(s, i)]),
    decreases s.len() - i,
{
    if i < s.len() && is_digit(s[i]) {
        lemma_digits_end_bounds(s, i + 1);
    }
}

/// The numeric value of the digit `c`.
pub open spec fn digit_val(c: char) -> int {
    c as u32 - 48
}

/// The value of the digit run `s[i..j)` read as a decimal number.
pub open spec fn digits_val(s: Seq<char>, i: int, j: int) -> int
    decreases j - i,
    when i <= j
{
    if j <= i {
        0
    } else {
        digits_val(s, i, j - 1) * 10 + digit_val(s[j - 1])
    }
}

pub proof fn lemma_digits_val_nonneg(s: Seq<char>, i: int, j: int)
    requires
        0 <= i <= j <= s.len(),
        forall|k: int| i <= k < j ==> is_digit(s[k]),
    ensures
        digits_val(s, i, j) >= 0,
    decreases j - i,
{
    if j > i {
        lemma_digits_val_nonneg(s, i, j - 1);
    }
}

pub proof fn lemma_digits_val_mono(s: Seq<char>, i: int, j: int, k: int)
    requires
        0 <= i <= j <= k <= s.len(),
        forall|m: int| i <= m < k ==> is_digit(s[m]),
    ensures
        digits_val(s, i, j) <= digits_val(s, i, k),
    decreases k - j,
{
    if j < k {
        lemma_digits_val_nonneg(s, i, k - 1);
        lemma_digits_val_mono(s, i, j, k - 1);
    }
}

/// Whether a non-negative integer literal stands at `i`: a digit run whose
/// value fits the machine (a longer run is rejected, as the log's own parser
/// rejects it).
pub open spec fn uint_ok(s: Seq<char>, i: int) -> bool {
    &&& 0 <= i < s.len()
    &&& is_digit(s[i])
    &&& digits_val(s, i, digits_end(s, i)) <= i64::MAX
}

/// The value of the integer literal at `i`.
pub open spec fn uint_val(s: Seq<char>, i: int) -> int {
    digits_val(s, i, digits_end(s, i))
}

/// Reads the digit run at `i`; `None` if no digit stands there or the value
/// does not fit.
pub(crate) fn parse_uint(s: &Vec<char>, i: usize) -> (r: Option<(i64, usize)>)
    requires
        i <= s@.len(),
    ensures
        match r {
            Some((v, e)) => {
                &&& uint_ok(s@, i as int)
                &&& v == uint_val(s@, i as int)
                &&& e == digits_end(s@, i as int)
                &&& i < e <= s@.len()
                &&& v >= 0
            },
            None => !uint_ok(s@, i as int),
        },
{
    proof {
        lemma_digits_end_bounds(s@, i as int);
    }
    if i >= s.len() || !exec_is_digit(s[i]) {
        return None;
    }
    let ghost end = digits_end(s@, i as int);
    let mut j: usize = i;
    let mut v: i64 = 0;
    while j < s.len() && 48 <= s[j] as u32 && s[j] as u32 <= 57
        invariant
            i <= j <= end <= s@.len(),
            digits_end(s@, i as int) == end,
            forall|k: int| i <= k < end ==> is_digit(s@[k]),
            end < s@.len() ==> !is_digit(s@[end as int]),
            v == digits_val(s@, i as int, j as int),
            0 <= v <= i64::MAX,
        decreases s@.len() - j,
    {
        let d: i64 = ((s[j] as u32) - 48) as i64;
        proof {
            lemma_digits_end_bounds(s@, j as int);
        }
        if v > (i64::MAX - d) / 10 {
            proof {
                assert(digits_val(s@, i as int, j as int + 1) > i64::MAX) by {
                    assert(v * 10 + d > i64::MAX) by (nonlinear_arith)
                        requires
                            v > (i64::MAX - d) / 10,
                            0 <= d <= 9,
                            v >= 0,
                    ;
                }
                lemma_digits_val_mono(s@, i as int, j as int + 1, end);
            }
            return None;
        }
        proof {
            assert(v * 10 + d <= i64::MAX) by (nonlinear_arith)
                requires
                    v <= (i64::MAX - d) / 10,
                    0 <= d <= 9,
                    v >= 0,
            ;
        }
        v = v * 10 + d;
        j += 1;
    }
    proof {
        assert(j == end);
    }
    Some((v, j))
}

/// Moves past the junk run at `i`.
pub(crate) fn skip_junk_exec(s: &Vec<char>, i: usize) -> (r: usize)
    requires
        i <= s@.len(),
    ensures
        r as int == skip_junk(s@, i as int),
        i <= r <= s@.len(),
{
    let mut j: usize = i;
    loop
        invariant
            i <= j <= s@.len(),
            skip_junk(s@, i as int) == skip_junk(s@, j as int),
        ensures
            i <= j <= s@.len(),
            skip_junk(s@, i as int) == j as int,
        decreases s@.len() - j,
    {
        if j >= s.len() {
            break;
        }
        let c = s[j];
        if c == ',' || c == ' ' || c == '\t' || c == '\n' || c == '\r' {
            j += 1;
        } else if c == '#' {
            let ghost hash = j as int;
            j += 1;
            while j < s.len() && !(s[j] == ',' || s[j] == '\n' || s[j] == '\r')
                invariant
                    hash + 1 <= j <= s@.len(),
                    scan_to_break(s@, hash + 1) == scan_to_break(s@, j as int),
                decreases s@.len() - j,
            {
                j += 1;
            }
            proof {
                assert(scan_to_break(s@, j as int) == j as int);
                assert(skip_junk(s@, hash) == skip_junk(s@, j as int));
            }
        } else {
            break;
        }
    }
    j
}

/// Moves past the inline whitespace at `i`.
pub(crate) fn skip_ws_exec(s: &Vec<char>, i: usize) -> (r: usize)
    requires
        i <= s@.len(),
    ensures
        r as int == ws_end(s@, i as int),
        i <= r <= s@.len(),
{
    let mut j: usize = i;
    while j < s.len() && (s[j] == ' ' || s[j] == '\t')
        invariant
            i <= j <= s@.len(),
            ws_end(s@, i as int) == ws_end(s@, j as int),
        decreases s@.len() - j,
    {
        j += 1;
    }
    j
}

/// The escape meaning of `c` after a backslash in a quoted value.
pub open spec fn esc_char(c: char) -> char {
    if c == 't' {
        '\t'
    } else if c == 'n' {
        '\n'
    } else if c == 'r' {
        '\r'
    } else {
        c
    }
}

/// The value and end of a quoted run starting just after its opening quote at
/// `i`: characters up to the closing quote, with backslash escapes applied.
/// `None` when the quote never closes.
pub open spec fn scan_quoted(s: Seq<char>, i: int) -> Option<(Seq<char>, int)>
    decreases s.len() - i,
    when 0 <= i <= s.len()
{
    if i >= s.len() {
        None
    } else if s[i] == '"' {
        Some((Seq::empty(), i + 1))
    } else if s[i] == '\\' {
        if i + 1 < s.len() {
            match scan_quoted(s, i + 2) {
                Some((v, e)) => Some((seq![esc_char(s[i + 1])] + v, e)),
                None => None,
            }
        } else {
            None
        }
    } else {
        match scan_quoted(s, i + 1) {
            Some((v, e)) => Some((seq![s[i]] + v, e)),
            None => None,
        }
    }
}

pub proof fn lemma_scan_quoted_bounds(s: Seq<char>, i: int)
    requires
        0 <= i <= s.len(),
    ensures
        scan_quoted(s, i) matches Some((v, e)) ==> i < e <= s.len(),
    decreases s.len() - i,
{
    if i < s.len() && s[i] != '"' {
        if s[i] == '\\' {
            if i + 1 < s.len() {
                lemma_scan_quoted_bounds(s, i + 2);
            }
        } else {
            lemma_scan_quoted_bounds(s, i + 1);
        }
    }
}

/// The end of the identifier-character run at `i`.
pub open spec fn ident_run_end(s: Seq<char>, i: int) -> int
    decreases s.len() - i,
    when 0 <= i <= s.len()
{
    if i < s.len() && is_ident_char(s[i]) {
        ident_run_end(s, i + 1)
    } else {
        i
    }
}

pub proof fn lemma_ident_run_end_bounds(s: Seq<char>, i: int)
    requires
        0 <= i <= s.len(),
    ensures
        i <= ident_run_end(s, i) <= s.len(),
    decreases s.len() - i,
{
    if i < s.len() && is_ident_char(s[i]) {
        lemma_ident_run_end_bounds(s, i + 1);
    }
}

/// The string value at `i`: a quoted form with escapes, or an unquoted
/// identifier — a letter followed by letters, digits and underscores.
pub open spec fn strval(s: Seq<char>, i: int) -> Option<(Seq<char>, int)> {
    if 0 <= i < s.len() && s[i] == '"' {
        scan_quoted(s, i + 1)
    } else if 0 <= i < s.len() && is_alpha(s[i]) {
        Some((s.subrange(i, ident_run_end(s, i + 1)), ident_run_end(s, i + 1)))
    } else {
        None
    }
}

pub proof fn lemma_strval_bounds(s: Seq<char>, i: int)
    requires
        0 <= i <= s.len(),
    ensures
        strval(s, i) matches Some((v, e)) ==> i < e <= s.len(),
{
    if i < s.len() && s[i] == '"' {
        lemma_scan_quoted_bounds(s, i + 1);
    } else if i < s.len() && is_alpha(s[i]) {
        lemma_ident_run_end_bounds(s, i + 1);
    }
}

/// Reads a quoted run, from just after the opening quote.
fn scan_quoted_exec(s: &Vec<char>, i: usize) -> (r: Option<(String, usize)>)
    requires
        i <= s@.len(),
    ensures
        match r {
            Some((v, e)) => scan_quoted(s@, i as int) == Some((v@, e as int)) && i < e <= s@.len(),
            None => scan_quoted(s@, i as int) is None,
        },
    decreases s@.len() - i,
{
    if i >= s.len() {
        return None;
    }
    let c = s[i];
    if c == '"' {
        let out = String::new();
        proof {
            assert(out@ =~= Seq::<char>::empty());
        }
        return Some((out, i + 1));
    }
    if c == '\\' {
        if i + 1 >= s.len() {
            return None;
        }
        let e = s[i + 1];
        let ec: char = if e == 't' {
            '\t'
        } else if e == 'n' {
            '\n'
        } else if e == 'r' {
            '\r'
        } else {
            e
        };
        match scan_quoted_exec(s, i + 2) {
            Some((v, end)) => {
                let mut out = String::new();
                crate::text::push_char(&mut out, ec);
                out.append(v.as_str());
                proof {
                    assert(out@ =~= seq![esc_char(s@[i as int + 1])] + v@);
                }
                Some((out, end))
            },
            None => None,
        }
    } else {
        match scan_quoted_exec(s, i + 1) {
            Some((v, end)) => {
                let mut out = String::new();
                crate::text::push_char(&mut out, c);
                out.append(v.as_str());
                proof {
                    assert(out@ =~= seq![s@[i as int]] + v@);
                }
                Some((out, end))
            },
            None => None,
        }
    }
}

/// Reads the string value at `i`, quoted or bare.
pub(crate) fn parse_strval(s: &Vec<char>, i: usize) -> (r: Option<(String, usize)>)
    requires
        i <= s@.len(),
    ensures
        match r {
            Some((v, e)) => strval(s@, i as int) == Some((v@, e as int)) && i < e <= s@.len(),
            None => strval(s@, i as int) is None,
        },
{
    if i >= s.len() {
        return None;
    }
    if s[i] == '"' {
        return scan_quoted_exec(s, i + 1);
    }
    if !exec_is_alpha(s[i]) {
        return None;
    }
    let mut j: usize = i + 1;
    while j < s.len() && (exec_is_ident_char_inline(s[j]))
        invariant
            i + 1 <= j <= s@.len(),
            ident_run_end(s@, i as int + 1) == ident_run_end(s@, j as int),
        decreases s@.len() - j,
    {
        j += 1;
    }
    Some((crate::text::chars_to_string(s, i, j), j))
}

/// Executable test for an identifier character, usable in a loop condition.
fn exec_is_ident_char_inline(c: char) -> (r: bool)
    ensures
        r == is_ident_char(c),
{
    let u = c as u32;
    (65 <= u && u <= 90) || (97 <= u && u <= 122) || (48 <= u && u <= 57) || c == '_'
}

/// The minute count and end of a time value `H:M` at `i`, both sides plain
/// non-negative integers with no whitespace around the colon, rejected when
/// the count does not fit the machine.
pub open spec fn stime_at(s: Seq<char>, i: int) -> Option<(int, int)> {
    if uint_ok(s, i) {
        let e1 = digits_end(s, i);
        if e1 < s.len() && s[e1] == ':' && uint_ok(s, e1 + 1) {
            let h = uint_val(s, i);
            let m = uint_val(s, e1 + 1);
            if h * 60 + m <= i64::MAX {
                Some((h * 60 + m, digits_end(s, e1 + 1)))
            } else {
                None
            }
        } else {
            None
        }
    } else {
        None
    }
}

pub proof fn lemma_stime_at_bounds(s: Seq<char>, i: int)
    requires
        0 <= i <= s.len(),
    ensures
        stime_at(s, i) matches Some((v, e)) ==> i < e <= s.len() && 0 <= v <= i64::MAX,
{
    if uint_ok(s, i) {
        lemma_digits_end_bounds(s, i);
        let e1 = digits_end(s, i);
        if e1 < s.len() && s[e1] == ':' && uint_ok(s, e1 + 1) {
            lemma_digits_end_bounds(s, e1 + 1);
            lemma_digits_val_nonneg(s, i, e1);
            lemma_digits_val_nonneg(s, e1 + 1, digits_end(s, e1 + 1));
        }
    }
}

/// The value and end of a signed integer at `i`: an optional minus sign, then
/// a digit run.
pub open spec fn int_at(s: Seq<char>, i: int) -> Option<(int, int)> {
    if 0 <= i < s.len() && s[i] == '-' {
        if uint_ok(s, i + 1) {
            Some((-uint_val(s, i + 1), digits_end(s, i + 1)))
        } else {
            None
        }
    } else if uint_ok(s, i) {
        Some((uint_val(s, i), digits_end(s, i)))
    } else {
        None
    }
}

pub proof fn lemma_int_at_bounds(s: Seq<char>, i: int)
    requires
        0 <= i <= s.len(),
    ensures
        int_at(s, i) matches Some((v, e)) ==> i < e <= s.len() && i64::MIN <= v <= i64::MAX,
{
    if 0 <= i < s.len() && s[i] == '-' {
        if uint_ok(s, i + 1) {
            lemma_digits_end_bounds(s, i + 1);
            lemma_digits_val_nonneg(s, i + 1, digits_end(s, i + 1));
        }
    } else if uint_ok(s, i) {
        lemma_digits_end_bounds(s, i);
        lemma_digits_val_nonneg(s, i, digits_end(s, i));
    }
}

/// The day, month, optional year, and end of a date `D/M` or `D/M/Y` at `i`:
/// non-negative integers with whitespace tolerated around each slash. A
/// trailing slash not followed by a number is not consumed, and the year is
/// then absent.
pub open spec fn date_at(s: Seq<char>, i: int) -> Option<((int, int, Option<int>), int)> {
    if uint_ok(s, i) {
        let e1 = digits_end(s, i);
        let j = ws_end(s, e1);
        if j < s.len() && s[j] == '/' {
            let k = ws_end(s, j + 1);
            if uint_ok(s, k) {
                let e2 = digits_end(s, k);
                let d = uint_val(s, i);
                let m = uint_val(s, k);
                let j2 = ws_end(s, e2);
                if j2 < s.len() && s[j2] == '/' && uint_ok(s, ws_end(s, j2 + 1)) {
                    Some(
                        (
                            (d, m, Some(uint_val(s, ws_end(s, j2 + 1)))),
                            digits_end(s, ws_end(s, j2 + 1)),
                        ),
                    )
                } else {
                    Some(((d, m, None), e2))
                }
            } else {
                None
            }
        } else {
            None
        }
    } else {
        None
    }
}

pub proof fn lemma_date_at_bounds(s: Seq<char>, i: int)
    requires
        0 <= i <= s.len(),
    ensures
        date_at(s, i) matches Some(((d, m, y), e)) ==> {
            &&& i < e <= s.len()
            &&& 0 <= d <= i64::MAX
            &&& 0 <= m <= i64::MAX
            &&& (y matches Some(v) ==> 0 <= v <= i64::MAX)
        },
{
    if uint_ok(s, i) {
        lemma_digits_end_bounds(s, i);
        lemma_digits_val_nonneg(s, i, digits_end(s, i));
        let e1 = digits_end(s, i);
        lemma_ws_end_bounds(s, e1);
        let j = ws_end(s, e1);
        if j < s.len() && s[j] == '/' {
            lemma_ws_end_bounds(s, j + 1);
            let k = ws_end(s, j + 1);
            if uint_ok(s, k) {
                lemma_digits_end_bounds(s, k);
                lemma_digits_val_nonneg(s, k, digits_end(s, k));
                let e2 = digits_end(s, k);
                lemma_ws_end_bounds(s, e2);
                let j2 = ws_end(s, e2);
                if j2 < s.len() && s[j2] == '/' {
                    lemma_ws_end_bounds(s, j2 + 1);
                    if uint_ok(s, ws_end(s, j2 + 1)) {
                        lemma_digits_end_bounds(s, ws_end(s, j2 + 1));
                        lemma_digits_val_nonneg(
                            s,
                            ws_end(s, j2 + 1),
                            digits_end(s, ws_end(s, j2 + 1)),
                        );
                    }
                }
            }
        }
    }
}

/// The member names and end of a group body at `i` (just after the `[`):
/// string values separated by junk, closed by `]`.
pub open spec fn members_at(s: Seq<char>, i: int) -> Option<(Seq<Seq<char>>, int)>
    decreases s.len() - i,
    when 0 <= i <= s.len()
    via members_at_decreases
{
    let j = skip_junk(s, i);
    if j < s.len() && s[j] == ']' {
        Some((Seq::empty(), j + 1))
    } else {
        match strval(s, j) {
            Some((v, e)) => match members_at(s, e) {
                Some((vs, e2)) => Some((seq![v] + vs, e2)),
                None => None,
            },
            None => None,
        }
    }
}

#[via_fn]
proof fn members_at_decreases(s: Seq<char>, i: int) {
    lemma_skip_junk_bounds(s, i);
    lemma_strval_bounds(s, skip_junk(s, i));
}

pub proof fn lemma_members_at_bounds(s: Seq<char>, i: int)
    requires
        0 <= i <= s.len(),
    ensures
        members_at(s, i) matches Some((vs, e)) ==> i < e <= s.len(),
    decreases s.len() - i,
{
    lemma_skip_junk_bounds(s, i);
    let j = skip_junk(s, i);
    if j < s.len() && s[j] == ']' {
    } else {
        lemma_strval_bounds(s, j);
        match strval(s, j) {
            Some((v, e)) => {
                lemma_members_at_bounds(s, e);
            },
            None => {},
        }
    }
}

/// The name, members and end of a group definition at `i` (just after the
/// `$`).
pub open spec fn group_at(s: Seq<char>, i: int) -> Option<((Seq<char>, Seq<Seq<char>>), int)> {
    match strval(s, i) {
        Some((k, e1)) => {
            let j = ws_end(s, e1);
            if j < s.len() && s[j] == '[' {
                match members_at(s, j + 1) {
                    Some((vs, e2)) => Some(((k, vs), e2)),
                    None => None,
                }
            } else {
                None
            }
        },
        None => None,
    }
}

pub proof fn lemma_group_at_bounds(s: Seq<char>, i: int)
    requires
        0 <= i <= s.len(),
    ensures
        group_at(s, i) matches Some((kv, e)) ==> i < e <= s.len(),
{
    lemma_strval_bounds(s, i);
    match strval(s, i) {
        Some((k, e1)) => {
            lemma_ws_end_bounds(s, e1);
            let j = ws_end(s, e1);
            if j < s.len() && s[j] == '[' {
                lemma_members_at_bounds(s, j + 1);
            }
        },
        None => {},
    }
}

/// The action and end of the record at `i` (a non-junk position). The
/// alternatives overlap, so their order decides: tag clear, tag add,
/// clock-out, date, clock-in (or in-out), numeric override, group definition,
/// then a bare name with an optional numeric suffix.
pub open spec fn spec_action(s: Seq<char>, i: int) -> Option<(ActionV, int)> {
    if !(0 <= i < s.len()) {
        None
    } else if s[i] == '_' {
        if i + 1 < s.len() && s[i + 1] == '_' {
            match strval(s, i + 2) {
                Some((v, e)) => Some((ActionV::ClearTags(Some(v)), e)),
                None => Some((ActionV::ClearTags(None), i + 2)),
            }
        } else {
            match strval(s, i + 1) {
                Some((v, e)) => Some((ActionV::AddTag(v), e)),
                None => None,
            }
        }
    } else if s[i] == '-' {
        match stime_at(s, i + 1) {
            Some((t, e)) => Some((ActionV::Out(t), e)),
            None => None,
        }
    } else if s[i] == '=' {
        match strval(s, i + 1) {
            Some((k, e1)) => {
                let j = ws_end(s, e1);
                if j < s.len() && s[j] == ':' {
                    match int_at(s, ws_end(s, j + 1)) {
                        Some((v, e2)) => Some((ActionV::SetNum(k, v), e2)),
                        None => None,
                    }
                } else {
                    None
                }
            },
            None => None,
        }
    } else if s[i] == '$' {
        match group_at(s, i + 1) {
            Some(((k, vs), e)) => Some((ActionV::DefGroup(k, vs), e)),
            None => None,
        }
    } else if is_digit(s[i]) {
        match date_at(s, i) {
            Some(((d, m, y), e)) => Some((ActionV::SetDate(d, m, y), e)),
            None => match stime_at(s, i) {
                Some((t1, e1)) => {
                    if e1 < s.len() && s[e1] == '-' {
                        match stime_at(s, e1 + 1) {
                            Some((t2, e2)) => Some((ActionV::InOut(t1, t2), e2)),
                            None => Some((ActionV::In(t1), e1)),
                        }
                    } else {
                        Some((ActionV::In(t1), e1))
                    }
                },
                None => None,
            },
        }
    } else {
        match strval(s, i) {
            Some((k, e1)) => {
                let j = ws_end(s, e1);
                if j < s.len() && s[j] == '=' {
                    match int_at(s, ws_end(s, j + 1)) {
                        Some((v, e2)) => Some((ActionV::SetNum(k, v), e2)),
                        None => Some((ActionV::SetJob(k), e1)),
                    }
                } else {
                    Some((ActionV::SetJob(k), e1))
                }
            },
            None => None,
        }
    }
}

pub proof fn lemma_spec_action_bounds(s: Seq<char>, i: int)
    requires
        0 <= i <= s.len(),
    ensures
        spec_action(s, i) matches Some((a, e)) ==> i < e <= s.len(),
{
    if 0 <= i < s.len() {
        lemma_strval_bounds(s, i);
        lemma_stime_at_bounds(s, i);
        lemma_date_at_bounds(s, i);
        if i + 1 <= s.len() {
            lemma_strval_bounds(s, i + 1);
            lemma_stime_at_bounds(s, i + 1);
            lemma_group_at_bounds(s, i + 1);
        }
        if i + 2 <= s.len() {
            lemma_strval_bounds(s, i + 2);
        }
        if s[i] == '=' {
            match strval(s, i + 1) {
                Some((k, e1)) => {
                    lemma_ws_end_bounds(s, e1);
                    let j = ws_end(s, e1);
                    if j < s.len() && s[j] == ':' {
                        lemma_ws_end_bounds(s, j + 1);
                        lemma_int_at_bounds(s, ws_end(s, j + 1));
                    }
                },
                None => {},
            }
        }
        if is_digit(s[i]) {
            match stime_at(s, i) {
                Some((t1, e1)) => {
                    if e1 < s.len() && s[e1] == '-' {
                        lemma_stime_at_bounds(s, e1 + 1);
                    }
                },
                None => {},
            }
        }
        match strval(s, i) {
            Some((k, e1)) => {
                lemma_ws_end_bounds(s, e1);
                let j = ws_end(s, e1);
                if j < s.len() && s[j] == '=' {
                    lemma_ws_end_bounds(s, j + 1);
                    lemma_int_at_bounds(s, ws_end(s, j + 1));
                }
            },
            None => {},
        }
    }
}

/// The 1-based line number of position `i`.
pub open spec fn line_at(s: Seq<char>, i: int) -> int
    decreases i,
    when 0 <= i <= s.len()
{
    if i <= 0 {
        1
    } else {
        line_at(s, i - 1) + if s[i - 1] == '\n' {
            1int
        } else {
            0int
        }
    }
}

/// The 1-based column number of position `i`: characters since the last
/// newline, plus one.
pub open spec fn col_at(s: Seq<char>, i: int) -> int
    decreases i,
    when 0 <= i <= s.len()
{
    if i <= 0 {
        1
    } else if s[i - 1] == '\n' {
        1
    } else {
        col_at(s, i - 1) + 1
    }
}

pub proof fn lemma_line_col_bounds(s: Seq<char>, i: int)
    requires
        0 <= i <= s.len(),
    ensures
        1 <= line_at(s, i) <= i + 1,
        1 <= col_at(s, i) <= i + 1,
    decreases i,
{
    if i > 0 {
        lemma_line_col_bounds(s, i - 1);
    }
}

/// Computes the 1-based line and column of position `i`.
fn line_col_at(s: &Vec<char>, i: usize) -> (r: (usize, usize))
    requires
        i <= s@.len(),
        s@.len() < usize::MAX,
    ensures
        r.0 as int == line_at(s@, i as int),
        r.1 as int == col_at(s@, i as int),
{
    let mut line: usize = 1;
    let mut col: usize = 1;
    let mut j: usize = 0;
    while j < i
        invariant
            j <= i <= s@.len() < usize::MAX,
            line as int == line_at(s@, j as int),
            col as int == col_at(s@, j as int),
        decreases i - j,
    {
        proof {
            lemma_line_col_bounds(s@, j as int);
        }
        if s[j] == '\n' {
            line += 1;
            col = 1;
        } else {
            col += 1;
        }
        j += 1;
    }
    (line, col)
}

/// Reads the time value `H:M` at `i`.
pub(crate) fn parse_stime_at(s: &Vec<char>, i: usize) -> (r: Option<(i64, usize)>)
    requires
        i <= s@.len(),
    ensures
        match r {
            Some((v, e)) => stime_at(s@, i as int) == Some((v as int, e as int)) && i < e
                <= s@.len() && v >= 0,
            None => stime_at(s@, i as int) is None,
        },
{
    proof {
        lemma_stime_at_bounds(s@, i as int);
    }
    match parse_uint(s, i) {
        Some((h, e1)) => {
            if e1 < s.len() && s[e1] == ':' {
                match parse_uint(s, e1 + 1) {
                    Some((m, e2)) => {
                        let v: i128 = h as i128 * 60 + m as i128;
                        if v <= i64::MAX as i128 {
                            Some((v as i64, e2))
                        } else {
                            None
                        }
                    },
                    None => None,
                }
            } else {
                None
            }
        },
        None => None,
    }
}

/// Reads the signed integer at `i`.
pub(crate) fn parse_int_at(s: &Vec<char>, i: usize) -> (r: Option<(i64, usize)>)
    requires
        i <= s@.len(),
    ensures
        match r {
            Some((v, e)) => int_at(s@, i as int) == Some((v as int, e as int)) && i < e
                <= s@.len(),
            None => int_at(s@, i as int) is None,
        },
{
    proof {
        lemma_int_at_bounds(s@, i as int);
    }
    if i < s.len() && s[i] == '-' {
        match parse_uint(s, i + 1) {
            Some((v, e)) => Some((-v, e)),
            None => None,
        }
    } else {
        match parse_uint(s, i) {
            Some((v, e)) => Some((v, e)),
            None => None,
        }
    }
}

/// Reads the date `D/M` or `D/M/Y` at `i`.
pub(crate) fn parse_date_at(s: &Vec<char>, i: usize) -> (r: Option<((i64, i64, Option<i64>), usize)>)
    requires
        i <= s@.len(),
    ensures
        match r {
            Some(((d, m, y), e)) => {
                &&& date_at(s@, i as int) == Some(
                    (
                        (
                            d as int,
                            m as int,
                            match y {
                                Some(v) => Some(v as int),
                                None => None,
                            },
                        ),
                        e as int,
                    ),
                )
                &&& i < e <= s@.len()
            },
            None => date_at(s@, i as int) is None,
        },
{
    proof {
        lemma_date_at_bounds(s@, i as int);
    }
    match parse_uint(s, i) {
        Some((d, e1)) => {
            let j = skip_ws_exec(s, e1);
            if j < s.len() && s[j] == '/' {
                let k = skip_ws_exec(s, j + 1);
                match parse_uint(s, k) {
                    Some((m, e2)) => {
                        let j2 = skip_ws_exec(s, e2);
                        if j2 < s.len() && s[j2] == '/' {
                            let k2 = skip_ws_exec(s, j2 + 1);
                            match parse_uint(s, k2) {
                                Some((y, e3)) => Some(((d, m, Some(y)), e3)),
                                None => Some(((d, m, None), e2)),
                            }
                        } else {
                            Some(((d, m, None), e2))
                        }
                    },
                    None => None,
                }
            } else {
                None
            }
        },
        None => None,
    }
}

/// Executable test for a decimal digit.
pub(crate) fn exec_is_digit(c: char) -> (r: bool)
    ensures
        r == is_digit(c),
{
    let u = c as u32;
    48 <= u && u <= 57
}

/// Executable test for an ASCII letter.
pub(crate) fn exec_is_alpha(c: char) -> (r: bool)
    ensures
        r == is_alpha(c),
{
    let u = c as u32;
    (65 <= u && u <= 90) || (97 <= u && u <= 122)
}

/// Executable test for an identifier character.
pub(crate) fn exec_is_ident_char(c: char) -> (r: bool)
    ensures
        r == is_ident_char(c),
{
    exec_is_alpha(c) || exec_is_digit(c) || c == '_'
}

} // verus!

verus! {

/// Reads the group body at `i`, just after the `[`.
fn parse_members(s: &Vec<char>, i: usize) -> (r: Option<(Vec<String>, usize)>)
    requires
        i <= s@.len(),
    ensures
        match r {
            Some((vs, e)) => members_at(s@, i as int) == Some((vs.deep_view(), e as int)) && i < e
                <= s@.len(),
            None => members_at(s@, i as int) is None,
        },
    decreases s@.len() - i,
{
    proof {
        lemma_members_at_bounds(s@, i as int);
    }
    let j = skip_junk_exec(s, i);
    if j < s.len() && s[j] == ']' {
        let out: Vec<String> = Vec::new();
        proof {
            assert(out.deep_view() =~= Seq::<Seq<char>>::empty());
        }
        return Some((out, j + 1));
    }
    match parse_strval(s, j) {
        Some((v, e)) => match parse_members(s, e) {
            Some((vs0, e2)) => {
                let mut vs = vs0;
                let ghost pre = vs.deep_view();
                let ghost vv = v@;
                vs.insert(0, v);
                proof {
                    assert(vs.deep_view() =~= seq![vv] + pre);
                }
                Some((vs, e2))
            },
            None => None,
        },
        None => None,
    }
}

/// Reads the record at `i`, a non-junk position, as one action.
pub(crate) fn parse_action(s: &Vec<char>, i: usize) -> (r: Option<(ClockAction, usize)>)
    requires
        i <= s@.len(),
    ensures
        match r {
            Some((a, e)) => spec_action(s@, i as int) == Some((a@, e as int)) && i < e <= s@.len(),
            None => spec_action(s@, i as int) is None,
        },
{
    proof {
        lemma_spec_action_bounds(s@, i as int);
    }
    if i >= s.len() {
        return None;
    }
    let c = s[i];
    if c == '_' {
        if i + 1 < s.len() && s[i + 1] == '_' {
            match parse_strval(s, i + 2) {
                Some((v, e)) => Some((ClockAction::ClearTags(Some(v)), e)),
                None => Some((ClockAction::ClearTags(None), i + 2)),
            }
        } else {
            match parse_strval(s, i + 1) {
                Some((v, e)) => Some((ClockAction::AddTag(v), e)),
                None => None,
            }
        }
    } else if c == '-' {
        match parse_stime_at(s, i + 1) {
            Some((t, e)) => Some((ClockAction::Out(STime::from_minutes(t)), e)),
            None => None,
        }
    } else if c == '=' {
        match parse_strval(s, i + 1) {
            Some((k, e1)) => {
                let j = skip_ws_exec(s, e1);
                if j < s.len() && s[j] == ':' {
                    let k2 = skip_ws_exec(s, j + 1);
                    match parse_int_at(s, k2) {
                        Some((v, e2)) => Some((ClockAction::SetNum(k, v), e2)),
                        None => None,
                    }
                } else {
                    None
                }
            },
            None => None,
        }
    } else if c == '$' {
        match parse_strval(s, i + 1) {
            Some((k, e1)) => {
                let j = skip_ws_exec(s, e1);
                if j < s.len() && s[j] == '[' {
                    match parse_members(s, j + 1) {
                        Some((vs, e2)) => Some((ClockAction::DefGroup(k, vs), e2)),
                        None => None,
                    }
                } else {
                    None
                }
            },
            None => None,
        }
    } else if exec_is_digit(c) {
        match parse_date_at(s, i) {
            Some(((d, m, y), e)) => Some((ClockAction::SetDate(d, m, y), e)),
            None => match parse_stime_at(s, i) {
                Some((t1, e1)) => {
                    if e1 < s.len() && s[e1] == '-' {
                        match parse_stime_at(s, e1 + 1) {
                            Some((t2, e2)) => Some(
                                (
                                    ClockAction::InOut(
                                        STime::from_minutes(t1),
                                        STime::from_minutes(t2),
                                    ),
                                    e2,
                                ),
                            ),
                            None => Some((ClockAction::In(STime::from_minutes(t1)), e1)),
                        }
                    } else {
                        Some((ClockAction::In(STime::from_minutes(t1)), e1))
                    }
                },
                None => None,
            },
        }
    } else {
        match parse_strval(s, i) {
            Some((k, e1)) => {
                let j = skip_ws_exec(s, e1);
                if j < s.len() && s[j] == '=' {
                    let k2 = skip_ws_exec(s, j + 1);
                    match parse_int_at(s, k2) {
                        Some((v, e2)) => Some((ClockAction::SetNum(k, v), e2)),
                        None => Some((ClockAction::SetJob(k), e1)),
                    }
                } else {
                    Some((ClockAction::SetJob(k), e1))
                }
            },
            None => None,
        }
    }
}

/// Reads the string value at the front of `s`, quoted or bare; text after it
/// is ignored, as the log's own parser ignores it.
pub fn str_val(s: &str) -> (r: Result<String, TokErr>)
    ensures
        match strval(s@, 0) {
            Some((v, e)) => r matches Ok(out) && out@ == v,
            None => r matches Err(e) && e matches TokErr::ParseErr(l, c) && l == 1usize && c
                == 1usize,
        },
{
    let chars = str_to_chars(s);
    match parse_strval(&chars, 0) {
        Some((v, _e)) => Ok(v),
        None => Err(TokErr::ParseErr(1, 1)),
    }
}

/// Whether `s` holds a character that would split it across records or words.
pub open spec fn has_splitting_char(s: Seq<char>) -> bool {
    exists|k: int| 0 <= k < s.len() && (s[k] == ' ' || s[k] == '\n' || s[k] == '\t')
}

/// The form in which a job name is written back to the log: quoted whenever
/// it holds a space, tab or newline, bare otherwise.
pub fn do_quotes(s: &str) -> (r: String)
    ensures
        r@ == if has_splitting_char(s@) {
            seq!['"'] + s@ + seq!['"']
        } else {
            s@
        },
{
    let chars = str_to_chars(s);
    let mut i: usize = 0;
    let mut found = false;
    while i < chars.len()
        invariant
            i <= chars@.len(),
            chars@ == s@,
            found == exists|k: int|
                0 <= k < i && (s@[k] == ' ' || s@[k] == '\n' || s@[k] == '\t'),
        decreases chars@.len() - i,
    {
        let c = chars[i];
        if c == ' ' || c == '\n' || c == '\t' {
            found = true;
        }
        i += 1;
    }
    if found {
        let mut out = String::new();
        crate::text::push_char(&mut out, '"');
        out.append(s);
        crate::text::push_char(&mut out, '"');
        proof {
            assert(out@ =~= seq!['"'] + s@ + seq!['"']);
        }
        out
    } else {
        let out = s.to_owned();
        out
    }
}

/// `r` with `pre` put before its records, failures passed through.
pub open spec fn prepend_actions(
    pre: Seq<LineActionV>,
    r: Result<Seq<LineActionV>, int>,
) -> Result<Seq<LineActionV>, int> {
    match r {
        Ok(rest) => Ok(pre + rest),
        Err(p) => Err(p),
    }
}

/// Every record of the log from position `i` on, each with its 1-based line
/// and column, or the position where no record alternative matches. The
/// stream ends at the end of input, after any trailing junk.
pub open spec fn spec_actions(s: Seq<char>, i: int) -> Result<Seq<LineActionV>, int>
    decreases s.len() - i,
    when 0 <= i <= s.len()
    via spec_actions_decreases
{
    let j = skip_junk(s, i);
    if j >= s.len() {
        Ok(Seq::empty())
    } else {
        match spec_action(s, j) {
            None => Err(j),
            Some((a, e)) => prepend_actions(
                seq![LineActionV { line: line_at(s, j), col: col_at(s, j), action: a }],
                spec_actions(s, e),
            ),
        }
    }
}

#[via_fn]
proof fn spec_actions_decreases(s: Seq<char>, i: int) {
    lemma_skip_junk_bounds(s, i);
    lemma_spec_action_bounds(s, skip_junk(s, i));
}

/// Parses the whole log text into its stream of positioned actions, or
/// reports the line and column where the grammar rejected it.
pub fn line_clock_actions(text: &str) -> (r: Result<Vec<LineClockAction>, TokErr>)
    requires
        text@.len() < usize::MAX,
    ensures
        match r {
            Ok(v) => spec_actions(text@, 0) == Ok::<_, int>(v.deep_view()),
            Err(e) => {
                &&& spec_actions(text@, 0) matches Err(p)
                &&& e matches TokErr::ParseErr(l, c) && l as int == line_at(text@, p) && c as int
                    == col_at(text@, p)
            },
        },
{
    let chars = str_to_chars(text);
    let mut out: Vec<LineClockAction> = Vec::new();
    let mut i: usize = 0;
    proof {
        assert(out.deep_view() =~= Seq::<LineActionV>::empty());
        assert(spec_actions(text@, 0) == prepend_actions(
            out.deep_view(),
            spec_actions(text@, i as int),
        ));
    }
    loop
        invariant
            i <= chars@.len(),
            chars@ == text@,
            text@.len() < usize::MAX,
            spec_actions(text@, 0) == prepend_actions(
                out.deep_view(),
                spec_actions(text@, i as int),
            ),
        ensures
            spec_actions(text@, 0) == Ok::<_, int>(out.deep_view()),
        decreases chars@.len() - i,
    {
        let j = skip_junk_exec(&chars, i);
        if j >= chars.len() {
            proof {
                assert(spec_actions(text@, i as int) == Ok::<_, int>(Seq::<LineActionV>::empty()));
                assert(out.deep_view() + Seq::<LineActionV>::empty() =~= out.deep_view());
            }
            break;
        }
        let (line, col) = line_col_at(&chars, j);
        match parse_action(&chars, j) {
            None => {
                proof {
                    assert(spec_actions(text@, i as int) == Err::<Seq<LineActionV>, int>(j as int));
                }
                return Err(TokErr::ParseErr(line, col));
            },
            Some((a, e)) => {
                let ghost la = LineActionV { line: line as int, col: col as int, action: a@ };
                let ghost pre = out.deep_view();
                out.push(LineClockAction { line, col, action: a });
                proof {
                    assert(out.deep_view() =~= pre + seq![la]);
                    assert(spec_actions(text@, i as int) == prepend_actions(
                        seq![la],
                        spec_actions(text@, e as int),
                    ));
                    match spec_actions(text@, e as int) {
                        Ok(rest) => {
                            assert(pre + (seq![la] + rest) =~= (pre + seq![la]) + rest);
                        },
                        Err(_) => {},
                    }
                }
                i = e;
            },
        }
    }
    Ok(out)
}

} // verus!
