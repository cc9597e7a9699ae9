//! The detail extractor: locates the title and the statistics table in a
//! rendered detail page and assembles the `GameRecord`.

use vstd::prelude::*;
use vstd::string::StrSliceExecFns;
use vstd::string::StringExecFns;
use crate::dom::{
    first_inner_html_in, select_first_inner_html, select_table_cells, table_cells_in,
};
use crate::record::{GameRecord, LookupError};
use crate::rows::{collect_rows, spec_collect_rows};
use crate::text::{spec_trim, trim};

verus! {

/// CSS path of the title element on a detail page.
pub open spec fn title_selector() -> Seq<char> {
    "#__next > div > main > div:nth-child(1) > div > div > div > div.GameHeader_profile_header__q_PID.shadow_text"@
}

/// CSS path of the statistics table on a detail page.
pub open spec fn table_selector() -> Seq<char> {
    "#__next > div > main > div:nth-child(2) > div > div[class*='content_75_static'] > div.in.scrollable.scroll_blue.shadow_box.back_primary > table[class*='GameTimeTable_game_main_table']"@
}

/// CSS path of the table's body rows, relative to the table.
pub open spec fn row_selector() -> Seq<char> {
    "tbody > tr"@
}

/// CSS path of a row's cells, relative to the row.
pub open spec fn cell_selector() -> Seq<char> {
    "td"@
}

/// The literal placeholder a client-side rendering framework leaves behind
/// for an empty interpolation.
pub open spec fn render_marker() -> Seq<char> {
    seq!['<', '!', '-', '-', ' ', '-', '-', '>']
}

/// `s` with every occurrence of the render marker removed, scanning left
/// to right.
pub open spec fn strip_markers(s: Seq<char>) -> Seq<char>
    decreases s.len(),
{
    if s.len() < 8 {
        s
    } else if s.take(8) == render_marker() {
        strip_markers(s.skip(8))
    } else {
        seq![s[0]] + strip_markers(s.skip(1))
    }
}

/// The normalized title: surrounding whitespace trimmed, then render
/// markers removed.
pub open spec fn spec_title(raw: Seq<char>) -> Seq<char> {
    strip_markers(spec_trim(raw))
}

/// Normalizes the title element's rendered text, exactly as `spec_title`
/// describes.
pub fn normalize_title(s: &str) -> (r: String)
    ensures
        r@ == spec_title(s@),
{
    let t = trim(s);
    let ghost ts = t@;
    let n = t.unicode_len();
    let mut out = String::new();
    let mut i: usize = 0;
    proof {
        assert(ts.skip(0) =~= ts);
        assert(out@ + strip_markers(ts) =~= strip_markers(ts));
    }
    while i < n
        invariant
            ts == t@,
            n == ts.len(),
            0 <= i <= n,
            strip_markers(ts) == out@ + strip_markers(ts.skip(i as int)),
        decreases n - i,
    {
        let ghost rest = ts.skip(i as int);
        if n - i >= 8 && t.get_char(i) == '<' && t.get_char(i + 1) == '!' && t.get_char(i + 2)
            == '-' && t.get_char(i + 3) == '-' && t.get_char(i + 4) == ' ' && t.get_char(i + 5)
            == '-' && t.get_char(i + 6) == '-' && t.get_char(i + 7) == '>' {
            proof {
                assert(rest.take(8) =~= render_marker());
                assert(rest.skip(8) =~= ts.skip(i + 8));
            }
            i = i + 8;
        } else {
            let piece = t.substring_char(i, i + 1);
            let ghost out0 = out@;
            out.append(piece);
            proof {
                if rest.len() >= 8 && rest.take(8) == render_marker() {
                    assert(rest.take(8)[0] == ts[i as int]);
                    assert(rest.take(8)[1] == ts[i + 1]);
                    assert(rest.take(8)[2] == ts[i + 2]);
                    assert(rest.take(8)[3] == ts[i + 3]);
                    assert(rest.take(8)[4] == ts[i + 4]);
                    assert(rest.take(8)[5] == ts[i + 5]);
                    assert(rest.take(8)[6] == ts[i + 6]);
                    assert(rest.take(8)[7] == ts[i + 7]);
                    assert(false);
                }
                assert(rest[0] == ts[i as int]);
                assert(rest.skip(1) =~= ts.skip(i + 1));
                assert(piece@ =~= seq![ts[i as int]]);
                assert(out@ + strip_markers(ts.skip(i + 1)) =~= out0 + strip_markers(rest));
            }
            i = i + 1;
        }
    }
    proof {
        assert(ts.skip(n as int) =~= Seq::<char>::empty());
        assert(strip_markers(Seq::<char>::empty()) =~= Seq::<char>::empty());
        assert(out@ =~= strip_markers(ts));
    }
    out
}

/// Extracts a `GameRecord` from the rendered detail page of `id`.
///
/// The title element and the statistics table must both be present, the
/// identifier must be positive and the normalized title non-empty —
/// otherwise the extraction fails with `MalformedResponse`; there is no
/// record without a title. The table's rows then fill whichever category
/// slots the page reports, later rows overwriting earlier ones.
pub fn extract_details(id: u32, html: &str) -> (r: Result<GameRecord, LookupError>)
    ensures
        ({
            let title_raw = first_inner_html_in(html@, title_selector());
            let cells = table_cells_in(html@, table_selector(), row_selector(), cell_selector());
            match (title_raw, cells) {
                (Some(tr), Some(cs)) => {
                    if id == 0 || spec_title(tr).len() == 0 {
                        r == Err::<GameRecord, LookupError>(LookupError::MalformedResponse)
                    } else {
                        match spec_collect_rows(cs) {
                            Err(e) => r == Err::<GameRecord, LookupError>(e),
                            Ok(slots) => r matches Ok(rec) && rec.id == id && rec.title@
                                == spec_title(tr) && rec.main_story == slots.main_story
                                && rec.main_extra == slots.main_extra && rec.completionist
                                == slots.completionist && rec.all_styles == slots.all_styles
                                && rec.co_op == slots.co_op && rec.versus == slots.versus,
                        }
                    }
                },
                _ => r == Err::<GameRecord, LookupError>(LookupError::MalformedResponse),
            }
        }),
        r matches Ok(rec) ==> rec.wf(),
{
    let title_raw = select_first_inner_html(
        html,
        "#__next > div > main > div:nth-child(1) > div > div > div > div.GameHeader_profile_header__q_PID.shadow_text",
    );
    let tr = match title_raw {
        Some(t) => t,
        None => {
            return Err(LookupError::MalformedResponse);
        },
    };
    let cells = select_table_cells(
        html,
        "#__next > div > main > div:nth-child(2) > div > div[class*='content_75_static'] > div.in.scrollable.scroll_blue.shadow_box.back_primary > table[class*='GameTimeTable_game_main_table']",
        "tbody > tr",
        "td",
    );
    let cs = match cells {
        Some(c) => c,
        None => {
            return Err(LookupError::MalformedResponse);
        },
    };
    if id == 0 {
        return Err(LookupError::MalformedResponse);
    }
    let title = normalize_title(tr.as_str());
    if title.as_str().unicode_len() == 0 {
        return Err(LookupError::MalformedResponse);
    }
    let slots = match collect_rows(&cs) {
        Ok(s) => s,
        Err(e) => {
            return Err(e);
        },
    };
    Ok(
        GameRecord {
            id: id,
            title: title,
            main_story: slots.main_story,
            main_extra: slots.main_extra,
            completionist: slots.completionist,
            all_styles: slots.all_styles,
            co_op: slots.co_op,
            versus: slots.versus,
        },
    )
}

} // verus!
