//! The duration parser: turns one cell's text into an optional duration in
//! seconds.
//!
//! The source site reports the same quantity in two incompatible textual
//! encodings: the compact `"26h 21m"` form, and a decimal-hours form such as
//! `"83 Hours"` or `"59\u{00bd} Hours"`. The parser recognizes both and
//! degrades to `None` rather than failing on a malformed cell.
//!
//! Numerals are read exactly, in integer arithmetic: at most
//! `MAX_NUMBER_DIGITS` digits on either side of the decimal point, with a
//! fractional part rounded down to whole seconds. An accumulated compact-form
//! total that exceeds `u64::MAX` saturates there.

use vstd::prelude::*;
use crate::text::{
    all_digits, chars_of, digit_of, digits_val, dec_chars, is_digit_char,
    lemma_dec_chars_digits, lemma_dec_chars_len, lemma_dec_chars_val, lemma_digits_val_bounds,
    lemma_pow10_mono, lemma_pow10_pos, pow10, spec_is_digit,
};
use vstd::arithmetic::div_mod::{lemma_div_nonincreasing, lemma_div_pos_is_pos};

verus! {

/// The most digits the parser reads on either side of a decimal point;
/// longer numerals are unparseable. The cap keeps every intermediate
/// product within `u64`.
pub const MAX_NUMBER_DIGITS: usize = 15;

// ---------------------------------------------------------------------------
// Tokens: maximal runs of non-space characters.
// ---------------------------------------------------------------------------

/// Length of the leading run of non-space characters.
pub open spec fn token_len(s: Seq<char>) -> int
    decreases s.len(),
{
    if s.len() == 0 {
        0
    } else if s[0] == ' ' {
        0
    } else {
        1 + token_len(s.skip(1))
    }
}

/// Length of the leading run of spaces.
pub open spec fn lead_spaces(s: Seq<char>) -> int
    decreases s.len(),
{
    if s.len() == 0 {
        0
    } else if s[0] == ' ' {
        1 + lead_spaces(s.skip(1))
    } else {
        0
    }
}

/// The first space-delimited token, or the empty sequence if there is none.
pub open spec fn first_token(s: Seq<char>) -> Seq<char> {
    let r = s.skip(lead_spaces(s));
    r.take(token_len(r))
}

pub proof fn lemma_token_len_props(s: Seq<char>)
    ensures
        0 <= token_len(s) <= s.len(),
        forall|j: int| 0 <= j < token_len(s) ==> #[trigger] s[j] != ' ',
        token_len(s) < s.len() ==> s[token_len(s)] == ' ',
        s.len() > 0 && s[0] != ' ' ==> token_len(s) >= 1,
    decreases s.len(),
{
    if s.len() == 0 || s[0] == ' ' {
    } else {
        lemma_token_len_props(s.skip(1));
        assert(forall|j: int|
            1 <= j < token_len(s) ==> #[trigger] s[j] == s.skip(1)[j - 1]);
        if token_len(s) < s.len() {
            assert(s[token_len(s)] == s.skip(1)[token_len(s.skip(1))]);
        }
    }
}

/// A scan that stops at the first space pins down `token_len`.
pub proof fn lemma_token_len_scan(s: Seq<char>, k: int)
    requires
        0 <= k <= s.len(),
        forall|j: int| 0 <= j < k ==> #[trigger] s[j] != ' ',
        k == s.len() || s[k] == ' ',
    ensures
        token_len(s) == k,
    decreases s.len(),
{
    if k == 0 {
    } else {
        assert(s[0] != ' ');
        lemma_token_len_scan(s.skip(1), k - 1);
    }
}

pub proof fn lemma_lead_spaces_scan(s: Seq<char>, k: int)
    requires
        0 <= k <= s.len(),
        forall|j: int| 0 <= j < k ==> #[trigger] s[j] == ' ',
        k == s.len() || s[k] != ' ',
    ensures
        lead_spaces(s) == k,
    decreases s.len(),
{
    if k == 0 {
    } else {
        assert(s[0] == ' ');
        lemma_lead_spaces_scan(s.skip(1), k - 1);
    }
}

// ---------------------------------------------------------------------------
// Numerals: digits, optionally a decimal point and more digits.
// ---------------------------------------------------------------------------

/// Index of the first `'.'`, or the length if there is none.
pub open spec fn dot_pos(s: Seq<char>) -> int
    decreases s.len(),
{
    if s.len() == 0 {
        0
    } else if s[0] == '.' {
        0
    } else {
        1 + dot_pos(s.skip(1))
    }
}

pub open spec fn whole_part(s: Seq<char>) -> Seq<char> {
    s.take(dot_pos(s))
}

pub open spec fn frac_part(s: Seq<char>) -> Seq<char> {
    if dot_pos(s) < s.len() {
        s.skip(dot_pos(s) + 1)
    } else {
        Seq::empty()
    }
}

pub proof fn lemma_dot_pos_scan(s: Seq<char>, k: int)
    requires
        0 <= k <= s.len(),
        forall|j: int| 0 <= j < k ==> #[trigger] s[j] != '.',
        k == s.len() || s[k] == '.',
    ensures
        dot_pos(s) == k,
    decreases s.len(),
{
    if k == 0 {
    } else {
        assert(s[0] != '.');
        lemma_dot_pos_scan(s.skip(1), k - 1);
    }
}

pub proof fn lemma_dot_pos_ge(s: Seq<char>, k: int)
    requires
        0 <= k <= s.len(),
        forall|j: int| 0 <= j < k ==> #[trigger] s[j] != '.',
    ensures
        dot_pos(s) >= k,
    decreases s.len(),
{
    if k == 0 {
        lemma_dot_pos_props(s);
    } else {
        assert(s[0] != '.');
        lemma_dot_pos_ge(s.skip(1), k - 1);
    }
}

pub proof fn lemma_dot_pos_props(s: Seq<char>)
    ensures
        0 <= dot_pos(s) <= s.len(),
        forall|j: int| 0 <= j < dot_pos(s) ==> #[trigger] s[j] != '.',
        dot_pos(s) < s.len() ==> s[dot_pos(s)] == '.',
    decreases s.len(),
{
    if s.len() == 0 || s[0] == '.' {
    } else {
        lemma_dot_pos_props(s.skip(1));
        assert(forall|j: int|
            1 <= j < dot_pos(s) ==> #[trigger] s[j] == s.skip(1)[j - 1]);
        if dot_pos(s) < s.len() {
            assert(s[dot_pos(s)] == s.skip(1)[dot_pos(s.skip(1))]);
        }
    }
}

/// Whether `s` is a numeral the parser accepts: digits with at most one
/// decimal point, at least one digit in all, at most `MAX_NUMBER_DIGITS` on
/// each side.
pub open spec fn is_number(s: Seq<char>) -> bool {
    &&& all_digits(whole_part(s))
    &&& all_digits(frac_part(s))
    &&& whole_part(s).len() + frac_part(s).len() >= 1
    &&& whole_part(s).len() <= MAX_NUMBER_DIGITS
    &&& frac_part(s).len() <= MAX_NUMBER_DIGITS
}

/// The value in seconds of numeral `s` counted in units of `mult` seconds
/// each (3600 for hours, 60 for minutes). The fractional part rounds down
/// to whole seconds.
pub open spec fn number_secs(s: Seq<char>, mult: int) -> int {
    digits_val(whole_part(s)) * mult + digits_val(frac_part(s)) * mult / pow10(
        frac_part(s).len() as nat,
    )
}

pub proof fn lemma_pow10_cap()
    ensures
        pow10(15) == 1000000000000000,
{
    assert(pow10(0) == 1);
    assert(pow10(1) == 10 * pow10(0));
    assert(pow10(2) == 10 * pow10(1));
    assert(pow10(3) == 10 * pow10(2));
    assert(pow10(4) == 10 * pow10(3));
    assert(pow10(5) == 10 * pow10(4));
    assert(pow10(6) == 10 * pow10(5));
    assert(pow10(7) == 10 * pow10(6));
    assert(pow10(8) == 10 * pow10(7));
    assert(pow10(9) == 10 * pow10(8));
    assert(pow10(10) == 10 * pow10(9));
    assert(pow10(11) == 10 * pow10(10));
    assert(pow10(12) == 10 * pow10(11));
    assert(pow10(13) == 10 * pow10(12));
    assert(pow10(14) == 10 * pow10(13));
    assert(pow10(15) == 10 * pow10(14));
}

/// Every accepted numeral's value in seconds fits comfortably in `u64`.
pub proof fn lemma_number_secs_bounds(s: Seq<char>, mult: int)
    requires
        is_number(s),
        1 <= mult <= 3600,
    ensures
        0 <= number_secs(s, mult) < 7200000000000000000,
{
    let w = digits_val(whole_part(s));
    let f = digits_val(frac_part(s));
    let d = frac_part(s).len() as nat;
    lemma_digits_val_bounds(whole_part(s));
    lemma_digits_val_bounds(frac_part(s));
    lemma_pow10_mono(whole_part(s).len() as nat, 15);
    lemma_pow10_mono(d, 15);
    lemma_pow10_cap();
    lemma_pow10_pos(d);
    assert(w * mult <= 999999999999999 * 3600) by (nonlinear_arith)
        requires 0 <= w <= 999999999999999 && 1 <= mult <= 3600;
    assert(f * mult <= 999999999999999 * 3600) by (nonlinear_arith)
        requires 0 <= f <= 999999999999999 && 1 <= mult <= 3600;
    assert(w * mult >= 0) by (nonlinear_arith)
        requires w >= 0 && mult >= 1;
    assert(f * mult >= 0) by (nonlinear_arith)
        requires f >= 0 && mult >= 1;
    lemma_div_pos_is_pos(f * mult, pow10(d));
    lemma_div_nonincreasing(f * mult, pow10(d));
}

// ---------------------------------------------------------------------------
// Compact form: tokens suffixed `h` or `m`, summed; others skipped.
// ---------------------------------------------------------------------------

/// What one token contributes: its numeral times 3600 for an `h` suffix,
/// times 60 for an `m` suffix, nothing recognizable otherwise.
pub open spec fn token_secs(t: Seq<char>) -> Option<int> {
    if t.len() >= 1 && t.last() == 'h' && is_number(t.drop_last()) {
        Some(number_secs(t.drop_last(), 3600))
    } else if t.len() >= 1 && t.last() == 'm' && is_number(t.drop_last()) {
        Some(number_secs(t.drop_last(), 60))
    } else {
        None
    }
}

/// Unrecognized tokens are skipped, not fatal: they contribute zero.
pub open spec fn token_secs_or0(t: Seq<char>) -> int {
    match token_secs(t) {
        Some(v) => v,
        None => 0,
    }
}

/// The sum over all tokens of the compact `"<h>h <m>m"` form.
pub open spec fn hm_total(s: Seq<char>) -> int
    decreases s.len(),
    via hm_total_dec
{
    if s.len() == 0 {
        0
    } else if s[0] == ' ' {
        hm_total(s.skip(1))
    } else {
        token_secs_or0(s.take(token_len(s))) + hm_total(s.skip(token_len(s)))
    }
}

#[via_fn]
proof fn hm_total_dec(s: Seq<char>) {
    lemma_token_len_props(s);
}

pub proof fn lemma_token_secs_nonneg(t: Seq<char>)
    ensures
        token_secs_or0(t) >= 0,
        token_secs(t) matches Some(v) ==> 0 <= v < 7200000000000000000,
{
    if t.len() >= 1 && t.last() == 'h' && is_number(t.drop_last()) {
        lemma_number_secs_bounds(t.drop_last(), 3600);
    } else if t.len() >= 1 && t.last() == 'm' && is_number(t.drop_last()) {
        lemma_number_secs_bounds(t.drop_last(), 60);
    }
}

pub proof fn lemma_hm_total_nonneg(s: Seq<char>)
    ensures
        hm_total(s) >= 0,
    decreases s.len(),
{
    if s.len() == 0 {
    } else if s[0] == ' ' {
        lemma_hm_total_nonneg(s.skip(1));
    } else {
        lemma_token_len_props(s);
        lemma_token_secs_nonneg(s.take(token_len(s)));
        lemma_hm_total_nonneg(s.skip(token_len(s)));
    }
}

// ---------------------------------------------------------------------------
// Decimal-hours form: "83 Hours", "59\u{00bd} Hours".
// ---------------------------------------------------------------------------

pub open spec fn hour_word() -> Seq<char> {
    seq!['H', 'o', 'u', 'r']
}

/// Whether the text contains the word "Hour" (which also covers "Hours").
pub open spec fn contains_hour(s: Seq<char>) -> bool {
    exists|i: int| 0 <= i && i + 4 <= s.len() && #[trigger] s.subrange(i, i + 4) == hour_word()
}

/// The decimal expansion of the vulgar fractions the site uses; any other
/// character stands for itself.
pub open spec fn frac_expansion(c: char) -> Seq<char> {
    if c == '\u{00bd}' {
        seq!['.', '5']
    } else if c == '\u{00bc}' {
        seq!['.', '2', '5']
    } else if c == '\u{00be}' {
        seq!['.', '7', '5']
    } else {
        seq![c]
    }
}

/// Direct substitution of the vulgar fractions `\u{00bd}`, `\u{00bc}`,
/// `\u{00be}` by `.5`, `.25`, `.75`.
pub open spec fn subst_fractions(s: Seq<char>) -> Seq<char>
    decreases s.len(),
{
    if s.len() == 0 {
        Seq::empty()
    } else {
        frac_expansion(s[0]) + subst_fractions(s.skip(1))
    }
}

/// The decimal-hours reading: first token, fractions substituted, read as a
/// numeral of 3600-second units. An unparseable first token yields `None`.
pub open spec fn hours_value(s: Seq<char>) -> Option<u64> {
    let t = subst_fractions(first_token(s));
    if is_number(t) {
        Some(number_secs(t, 3600) as u64)
    } else {
        None
    }
}

// ---------------------------------------------------------------------------
// The parser.
// ---------------------------------------------------------------------------

/// The texts that explicitly mean "not reported".
pub open spec fn is_placeholder(s: Seq<char>) -> bool {
    ||| s.len() == 0
    ||| (s.len() == 1 && s[0] == '-')
    ||| (s.len() == 2 && s[0] == '-' && s[1] == '-')
}

pub open spec fn sat_u64(x: int) -> u64 {
    if x > u64::MAX {
        u64::MAX
    } else if x < 0 {
        0
    } else {
        x as u64
    }
}

/// What `parse` returns, as a function of the cell text alone.
///
/// In order: the placeholders `""`, `"-"`, `"--"` are `None`; a text
/// containing the word "Hour" is read as decimal hours from its first token;
/// otherwise the compact form's tokens are summed, and a total of exactly
/// zero is reported as `None` ("no duration data" — this deliberately
/// conflates a genuine zero with "missing", a documented limitation).
pub open spec fn spec_parse(s: Seq<char>) -> Option<u64> {
    if is_placeholder(s) {
        None
    } else if contains_hour(s) {
        hours_value(s)
    } else if hm_total(s) == 0 {
        None
    } else {
        Some(sat_u64(hm_total(s)))
    }
}

// ---------------------------------------------------------------------------
// Laws of the parser.
// ---------------------------------------------------------------------------

/// The explicit "not reported" texts — the empty string, `"-"` and `"--"` —
/// always parse to `None`.
pub proof fn lemma_parse_not_reported(t: Seq<char>)
    requires
        t.len() == 0 || t =~= seq!['-'] || t =~= seq!['-', '-'],
    ensures
        spec_parse(t) is None,
{
}

/// A text that contains no `'H'` is never read as the decimal-hours form.
pub proof fn lemma_no_hour_without_h(s: Seq<char>)
    requires
        forall|j: int| 0 <= j < s.len() ==> #[trigger] s[j] != 'H',
    ensures
        !contains_hour(s),
{
    if contains_hour(s) {
        let i = choose|i: int|
            0 <= i && i + 4 <= s.len() && #[trigger] s.subrange(i, i + 4) == hour_word();
        assert(s.subrange(i, i + 4)[0] == s[i]);
        assert(hour_word()[0] == 'H');
    }
}

/// A token of digits followed by `'h'` or `'m'` contributes its digit value
/// times 3600 or 60 seconds.
pub proof fn lemma_token_value(d: Seq<char>, c: char, mult: int)
    requires
        all_digits(d),
        1 <= d.len() <= MAX_NUMBER_DIGITS,
        (c == 'h' && mult == 3600) || (c == 'm' && mult == 60),
    ensures
        token_secs(d + seq![c]) == Some(digits_val(d) * mult),
{
    let t = d + seq![c];
    assert(t.last() == c);
    assert(t.drop_last() =~= d);
    assert(forall|j: int| 0 <= j < d.len() ==> #[trigger] d[j] != '.');
    lemma_dot_pos_scan(d, d.len() as int);
    assert(whole_part(d) =~= d);
    assert(frac_part(d) =~= Seq::<char>::empty());
    assert(is_number(d));
    assert(digits_val(Seq::<char>::empty()) == 0);
    assert(pow10(0) == 1);
    assert(0 * mult / 1int == 0);
    assert(number_secs(d, mult) == digits_val(d) * mult);
}

/// A whole text that is one single token sums to just that token.
pub proof fn lemma_hm_single_token(t: Seq<char>)
    requires
        t.len() >= 1,
        forall|j: int| 0 <= j < t.len() ==> #[trigger] t[j] != ' ',
    ensures
        hm_total(t) == token_secs_or0(t),
{
    lemma_token_len_scan(t, t.len() as int);
    assert(t.take(t.len() as int) =~= t);
    assert(t.skip(t.len() as int) =~= Seq::<char>::empty());
    assert(hm_total(Seq::<char>::empty()) == 0);
}

/// Two space-separated tokens sum to the sum of their contributions.
pub proof fn lemma_hm_two_tokens(a: Seq<char>, b: Seq<char>)
    requires
        a.len() >= 1,
        b.len() >= 1,
        forall|j: int| 0 <= j < a.len() ==> #[trigger] a[j] != ' ',
        forall|j: int| 0 <= j < b.len() ==> #[trigger] b[j] != ' ',
    ensures
        hm_total(a + seq![' '] + b) == token_secs_or0(a) + token_secs_or0(b),
{
    let s = a + seq![' '] + b;
    assert(forall|j: int| 0 <= j < a.len() ==> #[trigger] s[j] == a[j]);
    assert(s[a.len() as int] == ' ');
    lemma_token_len_scan(s, a.len() as int);
    assert(s[0] != ' ');
    assert(s.take(a.len() as int) =~= a);
    let s2 = s.skip(a.len() as int);
    assert(s2[0] == ' ');
    assert(s2.skip(1) =~= b);
    lemma_hm_single_token(b);
    assert(hm_total(s) == token_secs_or0(a) + hm_total(s2));
}

/// The compact form with both fields: for any h and m in the parser's
/// numeric range, not both zero, `"<h>h <m>m"` parses to exactly
/// `h * 3600 + m * 60` seconds.
pub proof fn lemma_parse_hours_minutes(h: u64, m: u64)
    requires
        h < 1000000000000000,
        m < 1000000000000000,
        h > 0 || m > 0,
    ensures
        spec_parse(dec_chars(h as nat) + seq!['h', ' '] + dec_chars(m as nat) + seq!['m'])
            == Some((3600 * (h as int) + 60 * (m as int)) as u64),
{
    let dh = dec_chars(h as nat);
    let dm = dec_chars(m as nat);
    let a = dh + seq!['h'];
    let b = dm + seq!['m'];
    let s = dh + seq!['h', ' '] + dm + seq!['m'];
    assert(s =~= a + seq![' '] + b);
    lemma_dec_chars_digits(h as nat);
    lemma_dec_chars_digits(m as nat);
    lemma_dec_chars_val(h as nat);
    lemma_dec_chars_val(m as nat);
    lemma_pow10_cap();
    lemma_dec_chars_len(h as nat, 15);
    lemma_dec_chars_len(m as nat, 15);
    // Tokens are space-free and contain no 'H'.
    assert(forall|j: int| 0 <= j < dh.len() ==> spec_is_digit(#[trigger] dh[j]));
    assert(forall|j: int| 0 <= j < a.len() ==> #[trigger] a[j] != ' ') by {
        assert(forall|j: int| 0 <= j < dh.len() ==> #[trigger] a[j] == dh[j]);
        assert(a[a.len() - 1] == 'h');
    }
    assert(forall|j: int| 0 <= j < b.len() ==> #[trigger] b[j] != ' ') by {
        assert(forall|j: int| 0 <= j < dm.len() ==> #[trigger] b[j] == dm[j]);
        assert(b[b.len() - 1] == 'm');
    }
    lemma_token_value(dh, 'h', 3600);
    lemma_token_value(dm, 'm', 60);
    assert(a.drop_last() =~= dh);
    assert(b.drop_last() =~= dm);
    lemma_hm_two_tokens(a, b);
    assert(hm_total(s) == 3600 * (h as int) + 60 * (m as int));
    // Not a placeholder: the first character is a digit.
    assert(s[0] == dh[0]);
    assert(spec_is_digit(s[0]));
    assert(!is_placeholder(s));
    // Not the decimal-hours form: no 'H' anywhere.
    assert forall|j: int| 0 <= j < s.len() implies #[trigger] s[j] != 'H' by {
        if j < a.len() {
            assert(s[j] == a[j]);
            if j < dh.len() {
                assert(spec_is_digit(a[j]));
            } else {
                assert(a[j] == 'h');
            }
        } else if j == a.len() {
            assert(s[j] == ' ');
        } else {
            assert(s[j] == b[j - a.len() - 1]);
            if j - a.len() - 1 < dm.len() {
                assert(spec_is_digit(b[j - a.len() - 1]));
            } else {
                assert(b[j - a.len() - 1] == 'm');
            }
        }
    }
    lemma_no_hour_without_h(s);
    assert(hm_total(s) > 0);
    assert(hm_total(s) <= 3600 * 999999999999999int + 60 * 999999999999999int);
    assert(sat_u64(hm_total(s)) == (3600 * (h as int) + 60 * (m as int)) as u64);
}

/// The compact form with only an hours field: `"<h>h"` parses to
/// `h * 3600` seconds, for positive h in the parser's numeric range.
pub proof fn lemma_parse_hours_field_only(h: u64)
    requires
        0 < h < 1000000000000000,
    ensures
        spec_parse(dec_chars(h as nat) + seq!['h']) == Some((3600 * (h as int)) as u64),
{
    let dh = dec_chars(h as nat);
    let s = dh + seq!['h'];
    lemma_dec_chars_digits(h as nat);
    lemma_dec_chars_val(h as nat);
    lemma_pow10_cap();
    lemma_dec_chars_len(h as nat, 15);
    lemma_digits_val_bounds(dh);
    assert(forall|j: int| 0 <= j < s.len() ==> #[trigger] s[j] != ' ') by {
        assert(forall|j: int| 0 <= j < dh.len() ==> #[trigger] s[j] == dh[j]);
        assert(s[s.len() - 1] == 'h');
    }
    lemma_token_value(dh, 'h', 3600);
    lemma_hm_single_token(s);
    assert(s[0] == dh[0]);
    assert(spec_is_digit(s[0]));
    assert(!is_placeholder(s));
    assert forall|j: int| 0 <= j < s.len() implies #[trigger] s[j] != 'H' by {
        if j < dh.len() {
            assert(spec_is_digit(s[j]));
        } else {
            assert(s[j] == 'h');
        }
    }
    lemma_no_hour_without_h(s);
    assert(hm_total(s) == 3600 * (h as int));
    assert(sat_u64(hm_total(s)) == (3600 * (h as int)) as u64);
}

/// The compact form with only a minutes field: `"<m>m"` parses to
/// `m * 60` seconds, for positive m in the parser's numeric range.
pub proof fn lemma_parse_minutes_field_only(m: u64)
    requires
        0 < m < 1000000000000000,
    ensures
        spec_parse(dec_chars(m as nat) + seq!['m']) == Some((60 * (m as int)) as u64),
{
    let dm = dec_chars(m as nat);
    let s = dm + seq!['m'];
    lemma_dec_chars_digits(m as nat);
    lemma_dec_chars_val(m as nat);
    lemma_pow10_cap();
    lemma_dec_chars_len(m as nat, 15);
    lemma_digits_val_bounds(dm);
    assert(forall|j: int| 0 <= j < s.len() ==> #[trigger] s[j] != ' ') by {
        assert(forall|j: int| 0 <= j < dm.len() ==> #[trigger] s[j] == dm[j]);
        assert(s[s.len() - 1] == 'm');
    }
    lemma_token_value(dm, 'm', 60);
    lemma_hm_single_token(s);
    assert(s[0] == dm[0]);
    assert(spec_is_digit(s[0]));
    assert(!is_placeholder(s));
    assert forall|j: int| 0 <= j < s.len() implies #[trigger] s[j] != 'H' by {
        if j < dm.len() {
            assert(spec_is_digit(s[j]));
        } else {
            assert(s[j] == 'm');
        }
    }
    lemma_no_hour_without_h(s);
    assert(hm_total(s) == 60 * (m as int));
    assert(sat_u64(hm_total(s)) == (60 * (m as int)) as u64);
}

// ---------------------------------------------------------------------------
// Executable parsing.
// ---------------------------------------------------------------------------

fn pow10_u64(e: usize) -> (p: u64)
    requires
        e <= 15,
    ensures
        p as int == pow10(e as nat),
{
    let mut p: u64 = 1;
    let mut k: usize = 0;
    while k < e
        invariant
            0 <= k <= e <= 15,
            p as int == pow10(k as nat),
        decreases e - k,
    {
        proof {
            lemma_pow10_mono(k as nat, 14);
            lemma_pow10_cap();
            assert(pow10(14) * 10 == pow10(15));
        }
        p = p * 10;
        k = k + 1;
    }
    p
}

/// Reads the numeral `v[from..to]` as a count of `mult`-second units.
/// Returns its value in seconds exactly when the numeral is accepted.
fn parse_number_secs(v: &Vec<char>, from: usize, to: usize, mult: u64) -> (r: Option<u64>)
    requires
        from <= to <= v@.len(),
        mult == 3600 || mult == 60,
    ensures
        ({
            let s = v@.subrange(from as int, to as int);
            match r {
                Some(n) => is_number(s) && n as int == number_secs(s, mult as int),
                None => !is_number(s),
            }
        }),
{
    let ghost s = v@.subrange(from as int, to as int);
    let len = to - from;
    let mut i: usize = 0;
    let mut whole: u64 = 0;
    while i < len && is_digit_char(v[from + i])
        invariant
            from <= to <= v@.len(),
            s == v@.subrange(from as int, to as int),
            len == to - from,
            0 <= i <= len,
            i <= MAX_NUMBER_DIGITS,
            forall|j: int| 0 <= j < i ==> spec_is_digit(#[trigger] s[j]),
            whole as int == digits_val(s.take(i as int)),
            (whole as int) < pow10(i as nat),
        decreases len - i,
    {
        if i == MAX_NUMBER_DIGITS {
            proof {
                assert(forall|j: int| 0 <= j < i + 1 ==> #[trigger] s[j] != '.');
                lemma_dot_pos_ge(s, i + 1);
                lemma_dot_pos_props(s);
                assert(whole_part(s).len() > MAX_NUMBER_DIGITS);
            }
            return None;
        }
        let d = digit_of(v[from + i]);
        proof {
            lemma_pow10_mono(i as nat, 14);
            lemma_pow10_cap();
            assert(s.take(i + 1).drop_last() =~= s.take(i as int));
            assert(s.take(i + 1).last() == s[i as int]);
        }
        whole = whole * 10 + d;
        i = i + 1;
    }
    let wd = i;
    if i == len {
        if len == 0 {
            proof {
                assert(dot_pos(s) == 0);
                assert(whole_part(s) =~= Seq::<char>::empty());
                assert(frac_part(s) =~= Seq::<char>::empty());
            }
            return None;
        }
        proof {
            lemma_dot_pos_scan(s, len as int);
            assert(whole_part(s) =~= s);
            assert(frac_part(s) =~= Seq::<char>::empty());
            assert(s.take(len as int) =~= s);
            assert(is_number(s));
            assert(digits_val(Seq::<char>::empty()) == 0);
            assert(pow10(0) == 1);
            lemma_pow10_cap();
            lemma_pow10_mono(i as nat, 15);
            assert(whole as int * mult <= 999999999999999int * 3600) by (nonlinear_arith)
                requires
                    0 <= whole as int <= 999999999999999int,
                    0 < mult <= 3600,
            ;
        }
        return Some(whole * mult);
    }
    // A non-digit stopped the scan.
    if v[from + i] != '.' {
        proof {
            assert(forall|j: int| 0 <= j < i + 1 ==> #[trigger] s[j] != '.');
            lemma_dot_pos_ge(s, i + 1);
            lemma_dot_pos_props(s);
            assert(whole_part(s)[i as int] == s[i as int]);
            assert(!spec_is_digit(whole_part(s)[i as int]));
        }
        return None;
    }
    proof {
        lemma_dot_pos_scan(s, i as int);
        assert(whole_part(s) =~= s.take(i as int));
    }
    let mut j = i + 1;
    let mut frac: u64 = 0;
    while j < len && is_digit_char(v[from + j])
        invariant
            from <= to <= v@.len(),
            s == v@.subrange(from as int, to as int),
            len == to - from,
            wd < len,
            dot_pos(s) == wd,
            s[wd as int] == '.',
            wd + 1 <= j <= len,
            j - wd - 1 <= MAX_NUMBER_DIGITS,
            forall|j2: int| wd + 1 <= j2 < j ==> spec_is_digit(#[trigger] s[j2]),
            frac as int == digits_val(s.subrange(wd + 1, j as int)),
            (frac as int) < pow10((j - wd - 1) as nat),
        decreases len - j,
    {
        if j - wd - 1 == MAX_NUMBER_DIGITS {
            proof {
                assert(frac_part(s).len() > MAX_NUMBER_DIGITS);
            }
            return None;
        }
        let d = digit_of(v[from + j]);
        proof {
            lemma_pow10_mono((j - wd - 1) as nat, 14);
            lemma_pow10_cap();
            assert(s.subrange(wd + 1, j + 1).drop_last() =~= s.subrange(wd + 1, j as int));
            assert(s.subrange(wd + 1, j + 1).last() == s[j as int]);
        }
        frac = frac * 10 + d;
        j = j + 1;
    }
    if j < len {
        proof {
            assert(frac_part(s) =~= s.skip(wd + 1));
            assert(frac_part(s)[j - wd - 1] == s[j as int]);
            assert(!spec_is_digit(frac_part(s)[j - wd - 1]));
        }
        return None;
    }
    if wd == 0 && j == wd + 1 {
        proof {
            assert(whole_part(s) =~= s.take(0));
            assert(frac_part(s) =~= s.skip(1));
            assert(frac_part(s).len() == 0);
        }
        return None;
    }
    let fd = j - wd - 1;
    let p = pow10_u64(fd);
    proof {
        assert(frac_part(s) =~= s.subrange(wd + 1, len as int));
        assert(whole_part(s).len() == wd);
        assert(is_number(s));
        lemma_pow10_cap();
        lemma_pow10_pos(fd as nat);
        lemma_pow10_mono(wd as nat, 15);
        lemma_pow10_mono(fd as nat, 15);
        assert(whole as int * mult <= 999999999999999int * 3600) by (nonlinear_arith)
            requires
                0 <= whole as int <= 999999999999999int,
                0 < mult <= 3600,
        ;
        assert(frac as int * mult <= 999999999999999int * 3600) by (nonlinear_arith)
            requires
                0 <= frac as int <= 999999999999999int,
                0 < mult <= 3600,
        ;
        assert(frac as int * mult >= 0) by (nonlinear_arith)
            requires
                frac as int >= 0,
                mult > 0,
        ;
        lemma_div_pos_is_pos(frac as int * mult, p as int);
        lemma_div_nonincreasing(frac as int * mult, p as int);
    }
    Some(whole * mult + frac * mult / p)
}

/// Reads one space-delimited token of the compact form: a numeral suffixed
/// `h` (hours) or `m` (minutes). Returns its contribution in seconds.
fn parse_token_secs(v: &Vec<char>, from: usize, to: usize) -> (r: Option<u64>)
    requires
        from <= to <= v@.len(),
    ensures
        ({
            let t = v@.subrange(from as int, to as int);
            match r {
                Some(n) => token_secs(t) == Some(n as int),
                None => token_secs(t) is None,
            }
        }),
{
    let ghost t = v@.subrange(from as int, to as int);
    if to == from {
        return None;
    }
    let last = v[to - 1];
    proof {
        assert(t.last() == v@[to - 1]);
        assert(t.drop_last() =~= v@.subrange(from as int, (to - 1) as int));
    }
    if last == 'h' {
        parse_number_secs(v, from, to - 1, 3600)
    } else if last == 'm' {
        parse_number_secs(v, from, to - 1, 60)
    } else {
        None
    }
}

/// Whether the text contains the word "Hour".
fn find_hour(v: &Vec<char>) -> (r: bool)
    ensures
        r == contains_hour(v@),
{
    let ghost s = v@;
    let n = v.len();
    if n < 4 {
        proof {
            if contains_hour(s) {
                let i = choose|i: int|
                    0 <= i && i + 4 <= s.len() && #[trigger] s.subrange(i, i + 4)
                        == hour_word();
            }
        }
        return false;
    }
    let mut i: usize = 0;
    while i <= n - 4
        invariant
            v@ == s,
            n == s.len(),
            4 <= n,
            0 <= i <= n - 3,
            forall|k: int| 0 <= k < i ==> #[trigger] s.subrange(k, k + 4) != hour_word(),
        decreases n - i,
    {
        if v[i] == 'H' && v[i + 1] == 'o' && v[i + 2] == 'u' && v[i + 3] == 'r' {
            proof {
                assert(s.subrange(i as int, i as int + 4) =~= hour_word());
            }
            return true;
        }
        proof {
            assert(s.subrange(i as int, i as int + 4) != hour_word()) by {
                if s.subrange(i as int, i as int + 4) == hour_word() {
                    assert(s.subrange(i as int, i as int + 4)[0] == s[i as int]);
                    assert(s.subrange(i as int, i as int + 4)[1] == s[i + 1]);
                    assert(s.subrange(i as int, i as int + 4)[2] == s[i + 2]);
                    assert(s.subrange(i as int, i as int + 4)[3] == s[i + 3]);
                }
            }
        }
        i = i + 1;
    }
    false
}

/// Converts one cell's (already trimmed) text into an optional duration in
/// seconds, exactly as `spec_parse` describes. The result is a function of
/// the text alone: parsing is deterministic and free of side effects.
pub fn parse(text: &str) -> (r: Option<u64>)
    ensures
        r == spec_parse(text@),
{
    let v = chars_of(text);
    let ghost s = text@;
    let n = v.len();
    // Step 1: explicit "not reported" placeholders.
    if n == 0 {
        return None;
    }
    if n == 1 && v[0] == '-' {
        return None;
    }
    if n == 2 && v[0] == '-' && v[1] == '-' {
        return None;
    }
    assert(!is_placeholder(s));
    // Step 2: the decimal-hours variant.
    if find_hour(&v) {
        // First token.
        let mut i: usize = 0;
        while i < n && v[i] == ' '
            invariant
                n == s.len(),
                v@ == s,
                0 <= i <= n,
                forall|j: int| 0 <= j < i ==> #[trigger] s[j] == ' ',
            decreases n - i,
        {
            i = i + 1;
        }
        proof {
            lemma_lead_spaces_scan(s, i as int);
        }
        let mut j = i;
        while j < n && v[j] != ' '
            invariant
                n == s.len(),
                v@ == s,
                0 <= i <= j <= n,
                forall|k: int| i <= k < j ==> #[trigger] s[k] != ' ',
            decreases n - j,
        {
            j = j + 1;
        }
        let ghost rest = s.skip(i as int);
        proof {
            assert(forall|k: int| 0 <= k < j - i ==> #[trigger] rest[k] == s[k + i]);
            if (j as int) < s.len() {
                assert(rest[j - i] == s[j as int]);
            }
            lemma_token_len_scan(rest, j - i);
            assert(first_token(s) =~= s.subrange(i as int, j as int));
        }
        // Substitute the vulgar fractions in the first token.
        let mut sub: Vec<char> = Vec::new();
        let mut k = i;
        while k < j
            invariant
                n == s.len(),
                v@ == s,
                i <= k <= j <= n,
                subst_fractions(s.subrange(i as int, j as int)) == sub@ + subst_fractions(
                    s.subrange(k as int, j as int),
                ),
            decreases j - k,
        {
            let ghost tail = s.subrange(k as int, j as int);
            let ghost sub0 = sub@;
            proof {
                assert(tail[0] == s[k as int]);
                assert(tail.skip(1) =~= s.subrange(k + 1, j as int));
                assert(subst_fractions(tail) == frac_expansion(s[k as int])
                    + subst_fractions(s.subrange(k + 1, j as int)));
            }
            let c = v[k];
            if c == '\u{00bd}' {
                sub.push('.');
                sub.push('5');
            } else if c == '\u{00bc}' {
                sub.push('.');
                sub.push('2');
                sub.push('5');
            } else if c == '\u{00be}' {
                sub.push('.');
                sub.push('7');
                sub.push('5');
            } else {
                sub.push(c);
            }
            proof {
                assert(sub@ =~= sub0 + frac_expansion(s[k as int]));
            }
            k = k + 1;
        }
        proof {
            assert(s.subrange(j as int, j as int) =~= Seq::<char>::empty());
            assert(subst_fractions(Seq::<char>::empty()) == Seq::<char>::empty());
            assert(sub@ == subst_fractions(first_token(s)));
        }
        let m = sub.len();
        let r = parse_number_secs(&sub, 0, m, 3600);
        proof {
            assert(sub@.subrange(0, m as int) =~= sub@);
        }
        match r {
            Some(secs) => {
                return Some(secs);
            },
            None => {
                return None;
            },
        }
    }
    // Step 3: the compact form; unrecognized tokens are skipped.
    let mut i: usize = 0;
    let mut acc: u64 = 0;
    let ghost mut processed: int = 0;
    proof {
        assert(s.skip(0) =~= s);
    }
    while i < n
        invariant
            n == s.len(),
            v@ == s,
            0 <= i <= n,
            processed >= 0,
            acc == sat_u64(processed),
            hm_total(s) == processed + hm_total(s.skip(i as int)),
        decreases n - i,
    {
        if v[i] == ' ' {
            proof {
                let ss = s.skip(i as int);
                assert(ss[0] == ' ');
                assert(ss.skip(1) =~= s.skip(i + 1));
            }
            i = i + 1;
        } else {
            let mut j = i + 1;
            while j < n && v[j] != ' '
                invariant
                    n == s.len(),
                    v@ == s,
                    0 <= i < j <= n,
                    forall|k: int| i <= k < j ==> #[trigger] s[k] != ' ',
                decreases n - j,
            {
                j = j + 1;
            }
            let ghost ss = s.skip(i as int);
            proof {
                assert(forall|k: int| 0 <= k < j - i ==> #[trigger] ss[k] == s[k + i]);
                if (j as int) < s.len() {
                    assert(ss[j - i] == s[j as int]);
                }
                lemma_token_len_scan(ss, j - i);
                assert(ss[0] == s[i as int]);
                assert(ss.take(j - i) =~= s.subrange(i as int, j as int));
                assert(ss.skip(j - i) =~= s.skip(j as int));
                assert(hm_total(ss) == token_secs_or0(s.subrange(i as int, j as int))
                    + hm_total(s.skip(j as int)));
            }
            let tok = parse_token_secs(&v, i, j);
            match tok {
                Some(t) => {
                    proof {
                        lemma_token_secs_nonneg(s.subrange(i as int, j as int));
                        processed = processed + t as int;
                    }
                    if t > u64::MAX - acc {
                        acc = u64::MAX;
                    } else {
                        acc = acc + t;
                    }
                },
                None => {
                    proof {
                        assert(token_secs_or0(s.subrange(i as int, j as int)) == 0);
                    }
                },
            }
            i = j;
        }
    }
    proof {
        assert(s.skip(n as int) =~= Seq::<char>::empty());
        assert(hm_total(Seq::<char>::empty()) == 0);
        assert(processed == hm_total(s));
        lemma_hm_total_nonneg(s);
    }
    if acc == 0 {
        return None;
    }
    Some(acc)
}

} // verus!
