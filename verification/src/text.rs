//! Character-level utilities shared by the duration parser, the row
//! classifier and the identifier parser: decimal digits, whitespace
//! trimming, and plain string comparison.

use vstd::prelude::*;
use vstd::string::StrSliceExecFns;

verus! {

pub open spec fn spec_is_digit(c: char) -> bool {
    '0' <= c && c <= '9'
}

/// The numeric value of a decimal digit character.
pub open spec fn digit_val(c: char) -> int {
    c as int - '0' as int
}

pub open spec fn all_digits(s: Seq<char>) -> bool {
    forall|i: int| 0 <= i < s.len() ==> spec_is_digit(#[trigger] s[i])
}

/// The value of a string of decimal digits, most significant first.
pub open spec fn digits_val(s: Seq<char>) -> int
    decreases s.len(),
{
    if s.len() == 0 {
        0
    } else {
        digits_val(s.drop_last()) * 10 + digit_val(s.last())
    }
}

pub open spec fn pow10(n: nat) -> int
    decreases n,
{
    if n == 0 {
        1
    } else {
        10 * pow10((n - 1) as nat)
    }
}

pub proof fn lemma_pow10_pos(n: nat)
    ensures
        pow10(n) >= 1,
    decreases n,
{
    if n > 0 {
        lemma_pow10_pos((n - 1) as nat);
    }
}

pub proof fn lemma_pow10_mono(m: nat, n: nat)
    requires
        m <= n,
    ensures
        pow10(m) <= pow10(n),
    decreases n,
{
    if m < n {
        lemma_pow10_mono(m, (n - 1) as nat);
        lemma_pow10_pos((n - 1) as nat);
    }
}

pub proof fn lemma_digits_val_bounds(s: Seq<char>)
    requires
        all_digits(s),
    ensures
        0 <= digits_val(s) < pow10(s.len() as nat),
    decreases s.len(),
{
    if s.len() == 0 {
    } else {
        assert(all_digits(s.drop_last())) by {
            assert(forall|i: int|
                0 <= i < s.len() - 1 ==> s.drop_last()[i] == #[trigger] s[i]);
        }
        lemma_digits_val_bounds(s.drop_last());
        assert(spec_is_digit(s.last()));
    }
}

/// The character for a single decimal digit.
pub open spec fn digit_char(d: int) -> char {
    if d == 0 { '0' }
    else if d == 1 { '1' }
    else if d == 2 { '2' }
    else if d == 3 { '3' }
    else if d == 4 { '4' }
    else if d == 5 { '5' }
    else if d == 6 { '6' }
    else if d == 7 { '7' }
    else if d == 8 { '8' }
    else { '9' }
}

/// The decimal numeral of `n`, most significant digit first, no sign and no
/// leading zero (except for `n == 0` itself).
pub open spec fn dec_chars(n: nat) -> Seq<char>
    decreases n,
{
    if n < 10 {
        seq![digit_char(n as int)]
    } else {
        dec_chars(n / 10) + seq![digit_char((n % 10) as int)]
    }
}

pub proof fn lemma_dec_chars_digits(n: nat)
    ensures
        dec_chars(n).len() >= 1,
        all_digits(dec_chars(n)),
    decreases n,
{
    if n < 10 {
        assert(spec_is_digit(dec_chars(n)[0]));
    } else {
        lemma_dec_chars_digits(n / 10);
        assert(spec_is_digit(digit_char((n % 10) as int)));
        assert(forall|i: int|
            0 <= i < dec_chars(n / 10).len()
                ==> #[trigger] dec_chars(n)[i] == dec_chars(n / 10)[i]);
        assert(dec_chars(n).last() == digit_char((n % 10) as int));
        assert(forall|i: int| 0 <= i < dec_chars(n).len()
            ==> spec_is_digit(#[trigger] dec_chars(n)[i]));
    }
}

/// Reading the decimal numeral of `n` back as digits gives `n`.
pub proof fn lemma_dec_chars_val(n: nat)
    ensures
        digits_val(dec_chars(n)) == n,
    decreases n,
{
    if n < 10 {
        let s = dec_chars(n);
        assert(s.drop_last() =~= Seq::<char>::empty());
        assert(digits_val(Seq::<char>::empty()) == 0);
        assert(s.last() == digit_char(n as int));
        assert(digit_val(digit_char(n as int)) == n);
        assert(digits_val(s) == digit_val(digit_char(n as int)));
    } else {
        lemma_dec_chars_val(n / 10);
        let s = dec_chars(n);
        assert(s.drop_last() =~= dec_chars(n / 10));
        assert(s.last() == digit_char((n % 10) as int));
        assert(digit_val(digit_char((n % 10) as int)) == n % 10);
    }
}

pub proof fn lemma_dec_chars_len(n: nat, k: nat)
    requires
        k >= 1,
        n < pow10(k),
    ensures
        dec_chars(n).len() <= k,
    decreases n,
{
    if n < 10 {
    } else {
        if k < 2 {
            assert(k == 1);
            assert(pow10(0) == 1);
            assert(pow10(1) == 10 * pow10(0));
            assert(false);
        }
        assert(pow10(k) == 10 * pow10((k - 1) as nat));
        lemma_dec_chars_len(n / 10, (k - 1) as nat);
    }
}

pub open spec fn spec_is_ws(c: char) -> bool {
    c == ' ' || c == '\t' || c == '\n' || c == '\r'
}

/// How many whitespace characters the string starts with.
pub open spec fn ws_prefix_len(s: Seq<char>) -> int
    decreases s.len(),
{
    if s.len() == 0 {
        0
    } else if spec_is_ws(s[0]) {
        1 + ws_prefix_len(s.skip(1))
    } else {
        0
    }
}

/// How many whitespace characters the string ends with.
pub open spec fn ws_suffix_len(s: Seq<char>) -> int
    decreases s.len(),
{
    if s.len() == 0 {
        0
    } else if spec_is_ws(s.last()) {
        1 + ws_suffix_len(s.drop_last())
    } else {
        0
    }
}

/// The string with leading and trailing whitespace removed.
pub open spec fn spec_trim(s: Seq<char>) -> Seq<char> {
    if ws_prefix_len(s) == s.len() {
        Seq::empty()
    } else {
        s.subrange(ws_prefix_len(s), s.len() - ws_suffix_len(s))
    }
}

pub proof fn lemma_ws_prefix_props(s: Seq<char>)
    ensures
        0 <= ws_prefix_len(s) <= s.len(),
        forall|j: int| 0 <= j < ws_prefix_len(s) ==> spec_is_ws(#[trigger] s[j]),
        ws_prefix_len(s) < s.len() ==> !spec_is_ws(s[ws_prefix_len(s)]),
    decreases s.len(),
{
    if s.len() == 0 {
    } else if spec_is_ws(s[0]) {
        lemma_ws_prefix_props(s.skip(1));
        assert(forall|j: int|
            1 <= j < ws_prefix_len(s) ==> #[trigger] s[j] == s.skip(1)[j - 1]);
        if ws_prefix_len(s) < s.len() {
            assert(s[ws_prefix_len(s)] == s.skip(1)[ws_prefix_len(s.skip(1))]);
        }
    } else {
    }
}

pub proof fn lemma_ws_suffix_props(s: Seq<char>)
    ensures
        0 <= ws_suffix_len(s) <= s.len(),
        forall|j: int| s.len() - ws_suffix_len(s) <= j < s.len() ==> spec_is_ws(#[trigger] s[j]),
        ws_suffix_len(s) < s.len() ==> !spec_is_ws(s[s.len() - ws_suffix_len(s) - 1]),
    decreases s.len(),
{
    if s.len() == 0 {
    } else if spec_is_ws(s.last()) {
        lemma_ws_suffix_props(s.drop_last());
        assert(forall|j: int|
            0 <= j < s.len() - 1 ==> #[trigger] s[j] == s.drop_last()[j]);
        if ws_suffix_len(s) < s.len() {
            assert(s[s.len() - ws_suffix_len(s) - 1]
                == s.drop_last()[s.len() - 1 - ws_suffix_len(s.drop_last()) - 1]);
        }
    } else {
    }
}

/// Leading and trailing whitespace never overlap unless the whole string is
/// whitespace.
pub proof fn lemma_trim_ranges(s: Seq<char>)
    requires
        ws_prefix_len(s) < s.len(),
    ensures
        ws_prefix_len(s) <= s.len() - ws_suffix_len(s),
        ws_suffix_len(s) < s.len(),
{
    lemma_ws_prefix_props(s);
    lemma_ws_suffix_props(s);
    let p = ws_prefix_len(s);
    let q = ws_suffix_len(s);
    if p > s.len() - q {
        assert(spec_is_ws(s[p]));
        assert(false);
    }
    if q == s.len() {
        assert(spec_is_ws(s[p]));
        assert(false);
    }
}

/// The characters of `s`, in order.
pub fn chars_of(s: &str) -> (v: Vec<char>)
    ensures
        v@ == s@,
{
    let n = s.unicode_len();
    let mut v: Vec<char> = Vec::new();
    let mut i: usize = 0;
    while i < n
        invariant
            n == s@.len(),
            0 <= i <= n,
            v@ == s@.take(i as int),
        decreases n - i,
    {
        let c = s.get_char(i);
        v.push(c);
        proof {
            assert(v@ =~= s@.take(i + 1));
        }
        i += 1;
    }
    proof {
        assert(s@.take(n as int) =~= s@);
    }
    v
}

/// Character-for-character string equality.
pub fn str_eq(a: &str, b: &str) -> (r: bool)
    ensures
        r == (a@ == b@),
{
    let na = a.unicode_len();
    let nb = b.unicode_len();
    if na != nb {
        proof {
            if a@ == b@ {
                assert(a@.len() == b@.len());
            }
        }
        return false;
    }
    let mut i: usize = 0;
    while i < na
        invariant
            na == a@.len(),
            na == b@.len(),
            0 <= i <= na,
            forall|j: int| 0 <= j < i ==> a@[j] == b@[j],
        decreases na - i,
    {
        let ca = a.get_char(i);
        let cb = b.get_char(i);
        if ca != cb {
            proof {
                if a@ == b@ {
                    assert(a@[i as int] == b@[i as int]);
                }
            }
            return false;
        }
        i += 1;
    }
    proof {
        assert(a@ =~= b@);
    }
    true
}

pub fn is_digit_char(c: char) -> (r: bool)
    ensures
        r == spec_is_digit(c),
{
    c >= '0' && c <= '9'
}

/// The numeric value of a digit character.
pub fn digit_of(c: char) -> (d: u64)
    requires
        spec_is_digit(c),
    ensures
        d as int == digit_val(c),
        d <= 9,
{
    (c as u32 - 48) as u64
}

pub fn is_ws_char(c: char) -> (r: bool)
    ensures
        r == spec_is_ws(c),
{
    c == ' ' || c == '\t' || c == '\n' || c == '\r'
}

/// The slice of `s` with surrounding whitespace removed.
pub fn trim(s: &str) -> (r: &str)
    ensures
        r@ == spec_trim(s@),
{
    let n = s.unicode_len();
    let mut p: usize = 0;
    while p < n && is_ws_char(s.get_char(p))
        invariant
            n == s@.len(),
            0 <= p <= n,
            forall|j: int| 0 <= j < p ==> spec_is_ws(#[trigger] s@[j]),
        decreases n - p,
    {
        p += 1;
    }
    proof {
        lemma_ws_prefix_props(s@);
        if ws_prefix_len(s@) < p {
            assert(spec_is_ws(s@[ws_prefix_len(s@)]));
        }
        if p < ws_prefix_len(s@) {
            assert(spec_is_ws(s@[p as int]));
        }
        assert(ws_prefix_len(s@) == p);
    }
    if p == n {
        let r = s.substring_char(n, n);
        proof {
            assert(r@ =~= spec_trim(s@));
        }
        return r;
    }
    let mut q: usize = 0;
    while q < n && is_ws_char(s.get_char(n - 1 - q))
        invariant
            n == s@.len(),
            0 <= q <= n,
            forall|j: int| n - q <= j < n ==> spec_is_ws(#[trigger] s@[j]),
        decreases n - q,
    {
        q += 1;
    }
    proof {
        lemma_ws_suffix_props(s@);
        if ws_suffix_len(s@) < q {
            assert(spec_is_ws(s@[s@.len() - ws_suffix_len(s@) - 1]));
        }
        if q < ws_suffix_len(s@) {
            assert(spec_is_ws(s@[s@.len() - q - 1]));
        }
        assert(ws_suffix_len(s@) == q);
        lemma_trim_ranges(s@);
    }
    s.substring_char(p, n - q)
}

} // verus!
