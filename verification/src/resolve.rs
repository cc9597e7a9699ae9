//! The title resolver: builds the search URL for a name and extracts the
//! first search result's identifier from the rendered search page.

use vstd::prelude::*;
use vstd::string::StrSliceExecFns;
use vstd::string::StringExecFns;
use crate::dom::{first_attr_in, select_first_attr};
use crate::record::LookupError;
use crate::text::{
    all_digits, chars_of, dec_chars, digit_char, digit_of, digits_val, is_digit_char,
    spec_is_digit,
};

verus! {

/// A name for what `urlencoding::encode` returns: a pure function of the
/// text.
pub uninterp spec fn url_encoded(s: Seq<char>) -> Seq<char>;

/// Relies on `urlencoding::encode`: percent-encodes every byte outside
/// alphanumerics and `- _ . ~`; the result depends on the text alone.
#[verifier::external_body]
fn encode_component(s: &str) -> (r: String)
    ensures
        r@ == url_encoded(s@),
{
    urlencoding::encode(s).into_owned()
}

/// The root of every URL this library builds.
pub open spec fn base_url() -> Seq<char> {
    "https://howlongtobeat.com/"@
}

/// CSS path of the first search result's link element on the search page.
pub open spec fn search_result_selector() -> Seq<char> {
    "#search-results-header > ul > li:nth-child(1) > div > div[class*='GameCard_search_list_image'] > a"@
}

/// The search URL for a name: the site root, `?q=`, and the URL-encoded
/// name.
pub fn search_url(name: &str) -> (r: String)
    ensures
        r@ == base_url() + "?q="@ + url_encoded(name@),
{
    let mut u = String::from_str("https://howlongtobeat.com/");
    u.append("?q=");
    let e = encode_component(name);
    u.append(e.as_str());
    u
}

/// Appends the decimal numeral of `n`.
fn push_decimal(u: &mut String, n: u32)
    ensures
        final(u)@ == old(u)@ + dec_chars(n as nat),
    decreases n,
{
    if n >= 10 {
        push_decimal(u, n / 10);
    }
    let ghost mid = u@;
    let d = n % 10;
    if d == 0 {
        u.append("0");
        proof {
            reveal_strlit("0");
            assert(u@ =~= mid + seq![digit_char(d as int)]);
        }
    } else if d == 1 {
        u.append("1");
        proof {
            reveal_strlit("1");
            assert(u@ =~= mid + seq![digit_char(d as int)]);
        }
    } else if d == 2 {
        u.append("2");
        proof {
            reveal_strlit("2");
            assert(u@ =~= mid + seq![digit_char(d as int)]);
        }
    } else if d == 3 {
        u.append("3");
        proof {
            reveal_strlit("3");
            assert(u@ =~= mid + seq![digit_char(d as int)]);
        }
    } else if d == 4 {
        u.append("4");
        proof {
            reveal_strlit("4");
            assert(u@ =~= mid + seq![digit_char(d as int)]);
        }
    } else if d == 5 {
        u.append("5");
        proof {
            reveal_strlit("5");
            assert(u@ =~= mid + seq![digit_char(d as int)]);
        }
    } else if d == 6 {
        u.append("6");
        proof {
            reveal_strlit("6");
            assert(u@ =~= mid + seq![digit_char(d as int)]);
        }
    } else if d == 7 {
        u.append("7");
        proof {
            reveal_strlit("7");
            assert(u@ =~= mid + seq![digit_char(d as int)]);
        }
    } else if d == 8 {
        u.append("8");
        proof {
            reveal_strlit("8");
            assert(u@ =~= mid + seq![digit_char(d as int)]);
        }
    } else {
        u.append("9");
        proof {
            reveal_strlit("9");
            assert(u@ =~= mid + seq![digit_char(d as int)]);
        }
    }
    proof {
        if n < 10 {
            assert(dec_chars(n as nat) == seq![digit_char(n as int)]);
            assert(u@ =~= old(u)@ + dec_chars(n as nat));
        } else {
            assert(dec_chars(n as nat) == dec_chars((n as nat) / 10) + seq![
                digit_char(((n as nat) % 10) as int),
            ]);
            assert(u@ =~= old(u)@ + dec_chars(n as nat));
        }
    }
}

/// The detail-page URL for an identifier: the site root, `game/`, and the
/// identifier's decimal numeral.
pub fn detail_url(id: u32) -> (r: String)
    ensures
        r@ == base_url() + "game/"@ + dec_chars(id as nat),
{
    let mut u = String::from_str("https://howlongtobeat.com/");
    u.append("game/");
    push_decimal(&mut u, id);
    u
}

/// The final `/`-separated segment of a link target.
pub open spec fn last_segment(s: Seq<char>) -> Seq<char>
    decreases s.len(),
{
    if s.len() == 0 {
        Seq::empty()
    } else if s.last() == '/' {
        Seq::empty()
    } else {
        last_segment(s.drop_last()).push(s.last())
    }
}

/// Whether `seg` is a valid identifier numeral: decimal digits whose value
/// is positive and fits in `u32`.
pub open spec fn is_identifier(seg: Seq<char>) -> bool {
    seg.len() >= 1 && all_digits(seg) && 1 <= digits_val(seg) <= u32::MAX
}

/// The identifier in a search-result link target: its final path segment,
/// when that segment is a valid identifier numeral.
pub open spec fn spec_id_from_href(href: Seq<char>) -> Option<u32> {
    if is_identifier(last_segment(href)) {
        Some(digits_val(last_segment(href)) as u32)
    } else {
        None
    }
}

proof fn lemma_last_segment_scan(s: Seq<char>, st: int)
    requires
        0 <= st <= s.len(),
        forall|j: int| st <= j < s.len() ==> #[trigger] s[j] != '/',
        st == 0 || s[st - 1] == '/',
    ensures
        last_segment(s) == s.subrange(st, s.len() as int),
    decreases s.len(),
{
    if st == s.len() {
        if s.len() > 0 {
            assert(s.last() == '/');
        }
        assert(last_segment(s) =~= s.subrange(st, s.len() as int));
    } else {
        assert(s.last() != '/');
        assert(forall|j: int|
            st <= j < s.len() - 1 ==> #[trigger] s.drop_last()[j] == s[j]);
        if st > 0 {
            assert(s.drop_last()[st - 1] == '/');
        }
        lemma_last_segment_scan(s.drop_last(), st);
        assert(last_segment(s) =~= s.subrange(st, s.len() as int));
    }
}

/// Parses the identifier out of a link target, exactly as
/// `spec_id_from_href` describes.
pub fn id_from_href(href: &str) -> (r: Option<u32>)
    ensures
        r == spec_id_from_href(href@),
{
    let v = chars_of(href);
    let ghost s = href@;
    let n = v.len();
    let mut st = n;
    while st > 0 && v[st - 1] != '/'
        invariant
            v@ == s,
            n == s.len(),
            0 <= st <= n,
            forall|j: int| st <= j < n ==> #[trigger] s[j] != '/',
        decreases st,
    {
        st = st - 1;
    }
    let ghost seg = last_segment(s);
    proof {
        lemma_last_segment_scan(s, st as int);
        assert(seg == s.subrange(st as int, n as int));
    }
    if st == n {
        proof {
            assert(seg.len() == 0);
        }
        return None;
    }
    let mut acc: u64 = 0;
    let mut i = st;
    while i < n
        invariant
            v@ == s,
            n == s.len(),
            s == href@,
            seg == last_segment(s),
            seg == s.subrange(st as int, n as int),
            st <= i <= n,
            forall|j: int| 0 <= j < i - st ==> spec_is_digit(#[trigger] seg[j]),
            acc <= 4294967296,
            digits_val(seg.take(i - st)) <= 4294967295 ==> acc as int == digits_val(
                seg.take(i - st),
            ),
            digits_val(seg.take(i - st)) > 4294967295 ==> acc == 4294967296,
            digits_val(seg.take(i - st)) >= 0,
        decreases n - i,
    {
        let c = v[i];
        proof {
            assert(seg[i - st] == s[i as int]);
        }
        if !is_digit_char(c) {
            proof {
                assert(!spec_is_digit(seg[i - st]));
            }
            return None;
        }
        let d = digit_of(c);
        proof {
            assert(seg.take(i - st + 1).drop_last() =~= seg.take(i - st));
            assert(seg.take(i - st + 1).last() == seg[i - st]);
        }
        let mut next = acc * 10 + d;
        if next > 4294967296 {
            next = 4294967296;
        }
        acc = next;
        i = i + 1;
    }
    proof {
        assert(seg.take(n - st) =~= seg);
        assert(all_digits(seg));
    }
    if acc == 0 || acc > 4294967295 {
        return None;
    }
    Some(acc as u32)
}

/// Resolves a rendered search page to the first result's identifier.
///
/// No matching link element is "not found"; a link whose final path segment
/// is not a valid identifier numeral is a malformed response. A resolved
/// identifier is always positive.
pub fn resolve_id(html: &str) -> (r: Result<u32, LookupError>)
    ensures
        ({
            match first_attr_in(html@, search_result_selector(), "href"@) {
                None => r == Err::<u32, LookupError>(LookupError::NotFound),
                Some(href) => match spec_id_from_href(href) {
                    Some(id) => r == Ok::<u32, LookupError>(id),
                    None => r == Err::<u32, LookupError>(LookupError::MalformedResponse),
                },
            }
        }),
        r matches Ok(id) ==> id >= 1,
{
    let href = select_first_attr(
        html,
        "#search-results-header > ul > li:nth-child(1) > div > div[class*='GameCard_search_list_image'] > a",
        "href",
    );
    match href {
        None => Err(LookupError::NotFound),
        Some(h) => match id_from_href(h.as_str()) {
            Some(id) => Ok(id),
            None => Err(LookupError::MalformedResponse),
        },
    }
}

} // verus!
