//! The row classifier and parser: decides which statistic category a table
//! row reports and parses its four duration cells.

use vstd::prelude::*;
use crate::duration::{parse, spec_parse};
use crate::record::{LookupError, StatisticSet};
use crate::text::{spec_trim, str_eq, trim};

verus! {

/// The six play-style categories the site reports.
#[derive(Clone, Copy, Debug, PartialEq, Eq)]
pub enum Category {
    MainStory,
    MainExtra,
    Completionist,
    AllStyles,
    CoOp,
    Versus,
}

/// Cells that stand before the four statistic cells in a row: the label
/// cell and one intervening non-statistical column. A layout change on the
/// source site is a one-line fix here.
pub const LABEL_SKIP_CELLS: usize = 2;

/// The fewest cells a classified row may have: the skipped cells plus the
/// four statistic cells.
pub const ROW_CELLS_MIN: usize = 6;

/// The fixed, case-sensitive mapping from label text to category, with the
/// synonyms the site uses across versions.
pub open spec fn spec_classify(l: Seq<char>) -> Option<Category> {
    if l == "Main Story"@ {
        Some(Category::MainStory)
    } else if l == "Main + Extra"@ || l == "Main + Extras"@ {
        Some(Category::MainExtra)
    } else if l == "Completionist"@ || l == "Completionists"@ {
        Some(Category::Completionist)
    } else if l == "All PlayStyles"@ {
        Some(Category::AllStyles)
    } else if l == "Co-Op"@ {
        Some(Category::CoOp)
    } else if l == "Competitive"@ {
        Some(Category::Versus)
    } else {
        None
    }
}

/// The category a row reports: its first cell's trimmed text, classified.
/// A row with no cells reports nothing.
pub open spec fn spec_row_label(cells: Seq<Seq<char>>) -> Option<Category> {
    if cells.len() == 0 {
        None
    } else {
        spec_classify(spec_trim(cells[0]))
    }
}

/// The four statistic cells of a classified row, parsed in fixed order:
/// average, median, rushed, leisure.
pub open spec fn spec_row_stats(cells: Seq<Seq<char>>) -> StatisticSet
    recommends
        cells.len() >= ROW_CELLS_MIN as int,
{
    StatisticSet {
        average: spec_parse(spec_trim(cells[LABEL_SKIP_CELLS as int])),
        median: spec_parse(spec_trim(cells[LABEL_SKIP_CELLS as int + 1])),
        rushed: spec_parse(spec_trim(cells[LABEL_SKIP_CELLS as int + 2])),
        leisure: spec_parse(spec_trim(cells[LABEL_SKIP_CELLS as int + 3])),
    }
}

/// Classifies a label text. The mapping is a fixed table: case-sensitive,
/// synonym-aware, and total — an unrecognized label yields `None` rather
/// than an error.
pub fn classify(label: &str) -> (r: Option<Category>)
    ensures
        r == spec_classify(label@),
{
    if str_eq(label, "Main Story") {
        Some(Category::MainStory)
    } else if str_eq(label, "Main + Extra") || str_eq(label, "Main + Extras") {
        Some(Category::MainExtra)
    } else if str_eq(label, "Completionist") || str_eq(label, "Completionists") {
        Some(Category::Completionist)
    } else if str_eq(label, "All PlayStyles") {
        Some(Category::AllStyles)
    } else if str_eq(label, "Co-Op") {
        Some(Category::CoOp)
    } else if str_eq(label, "Competitive") {
        Some(Category::Versus)
    } else {
        None
    }
}

/// Exactly the seven accepted labels classify; "Main + Extra" and
/// "Main + Extras" name the same category, and so do "Completionist" and
/// "Completionists". Classification is case-sensitive: the lower-case
/// variant of an accepted label is not accepted.
pub proof fn lemma_classify_labels(l: Seq<char>)
    ensures
        spec_classify("Main + Extra"@) == Some(Category::MainExtra),
        spec_classify("Main + Extras"@) == Some(Category::MainExtra),
        spec_classify("Completionist"@) == Some(Category::Completionist),
        spec_classify("Completionists"@) == Some(Category::Completionist),
        spec_classify(l) is Some <==> (l == "Main Story"@ || l == "Main + Extra"@
            || l == "Main + Extras"@ || l == "Completionist"@ || l == "Completionists"@
            || l == "All PlayStyles"@ || l == "Co-Op"@ || l == "Competitive"@),
        spec_classify("main story"@) is None,
{
    reveal_strlit("Main Story");
    reveal_strlit("Main + Extra");
    reveal_strlit("Main + Extras");
    reveal_strlit("Completionist");
    reveal_strlit("Completionists");
    reveal_strlit("All PlayStyles");
    reveal_strlit("Co-Op");
    reveal_strlit("Competitive");
    reveal_strlit("main story");
    assert("Main Story"@.len() == 10);
    assert("Main + Extra"@.len() == 12);
    assert("Main + Extras"@.len() == 13);
    assert("Completionist"@.len() == 13);
    assert("Completionists"@.len() == 14);
    assert("All PlayStyles"@.len() == 14);
    assert("Co-Op"@.len() == 5);
    assert("Competitive"@.len() == 11);
    assert("main story"@.len() == 10);
    assert("Main + Extras"@[0] == 'M');
    assert("Completionist"@[0] == 'C');
    assert("Completionists"@[0] == 'C');
    assert("All PlayStyles"@[0] == 'A');
    assert("main story"@[0] == 'm');
    assert("Main Story"@[0] == 'M');
}

/// The slots a statistics table fills: at most one `StatisticSet` per
/// category.
#[derive(Clone, Copy, Debug, PartialEq, Eq)]
pub struct Slots {
    pub main_story: Option<StatisticSet>,
    pub main_extra: Option<StatisticSet>,
    pub completionist: Option<StatisticSet>,
    pub all_styles: Option<StatisticSet>,
    pub co_op: Option<StatisticSet>,
    pub versus: Option<StatisticSet>,
}

impl Slots {
    pub open spec fn spec_empty() -> Slots {
        Slots {
            main_story: None,
            main_extra: None,
            completionist: None,
            all_styles: None,
            co_op: None,
            versus: None,
        }
    }

    /// The slots with one category replaced.
    pub open spec fn spec_with(self, cat: Category, st: StatisticSet) -> Slots {
        match cat {
            Category::MainStory => Slots { main_story: Some(st), ..self },
            Category::MainExtra => Slots { main_extra: Some(st), ..self },
            Category::Completionist => Slots { completionist: Some(st), ..self },
            Category::AllStyles => Slots { all_styles: Some(st), ..self },
            Category::CoOp => Slots { co_op: Some(st), ..self },
            Category::Versus => Slots { versus: Some(st), ..self },
        }
    }
}

/// The outcome of walking the table's rows in order: recognized rows fill
/// their slot, the later of two rows for one category winning; unrecognized
/// rows are skipped; a recognized row with too few cells is a malformed-row
/// error.
pub open spec fn spec_collect_rows(rows: Seq<Seq<Seq<char>>>) -> Result<Slots, LookupError>
    decreases rows.len(),
{
    if rows.len() == 0 {
        Ok(Slots::spec_empty())
    } else {
        match spec_collect_rows(rows.drop_last()) {
            Err(e) => Err(e),
            Ok(s) => {
                let row = rows.last();
                match spec_row_label(row) {
                    None => Ok(s),
                    Some(cat) => {
                        if (row.len() as int) < ROW_CELLS_MIN as int {
                            Err(LookupError::MalformedResponse)
                        } else {
                            Ok(s.spec_with(cat, spec_row_stats(row)))
                        }
                    },
                }
            },
        }
    }
}

/// Classifies one table row and, when it is recognized, parses its four
/// duration cells. An unrecognized first cell skips the row (`Ok(None)`);
/// a recognized row with fewer than `ROW_CELLS_MIN` cells is a
/// malformed-row error.
pub fn classify_and_parse(cells: &Vec<String>) -> (r: Result<
    Option<(Category, StatisticSet)>,
    LookupError,
>)
    ensures
        ({
            let cs = cells.deep_view();
            match spec_row_label(cs) {
                None => r == Ok::<Option<(Category, StatisticSet)>, LookupError>(None),
                Some(cat) => {
                    if cs.len() < ROW_CELLS_MIN as int {
                        r == Err::<Option<(Category, StatisticSet)>, LookupError>(
                            LookupError::MalformedResponse,
                        )
                    } else {
                        r == Ok::<Option<(Category, StatisticSet)>, LookupError>(
                            Some((cat, spec_row_stats(cs))),
                        )
                    }
                },
            }
        }),
{
    let ghost cs = cells.deep_view();
    proof {
        assert(cs.len() == cells@.len());
        assert(forall|i: int|
            0 <= i < cells@.len() ==> #[trigger] cs[i] == cells@[i]@);
    }
    if cells.len() == 0 {
        return Ok(None);
    }
    let label = trim(cells[0].as_str());
    match classify(label) {
        None => Ok(None),
        Some(cat) => {
            if cells.len() < ROW_CELLS_MIN {
                Err(LookupError::MalformedResponse)
            } else {
                let st = StatisticSet {
                    average: parse(trim(cells[LABEL_SKIP_CELLS].as_str())),
                    median: parse(trim(cells[LABEL_SKIP_CELLS + 1].as_str())),
                    rushed: parse(trim(cells[LABEL_SKIP_CELLS + 2].as_str())),
                    leisure: parse(trim(cells[LABEL_SKIP_CELLS + 3].as_str())),
                };
                Ok(Some((cat, st)))
            }
        },
    }
}

/// If some prefix of the rows already failed, the whole table fails the
/// same way.
proof fn lemma_collect_rows_err_persists(rows: Seq<Seq<Seq<char>>>, i: int, j: int)
    requires
        0 <= i <= j <= rows.len(),
        spec_collect_rows(rows.take(i)) is Err,
    ensures
        spec_collect_rows(rows.take(j)) == spec_collect_rows(rows.take(i)),
    decreases j - i,
{
    if j > i {
        lemma_collect_rows_err_persists(rows, i, j - 1);
        assert(rows.take(j).drop_last() =~= rows.take(j - 1));
    }
}

/// Walks all rows of the statistics table in order and fills the slots,
/// last write winning, exactly as `spec_collect_rows` describes.
pub fn collect_rows(rows: &Vec<Vec<String>>) -> (r: Result<Slots, LookupError>)
    ensures
        r == spec_collect_rows(rows.deep_view()),
{
    let ghost rs = rows.deep_view();
    proof {
        assert(rs.len() == rows@.len());
        assert(forall|i: int|
            0 <= i < rows@.len() ==> #[trigger] rs[i] == rows@[i].deep_view());
        assert(rs.take(0) =~= Seq::<Seq<Seq<char>>>::empty());
    }
    let mut slots = Slots {
        main_story: None,
        main_extra: None,
        completionist: None,
        all_styles: None,
        co_op: None,
        versus: None,
    };
    let mut i: usize = 0;
    while i < rows.len()
        invariant
            rs == rows.deep_view(),
            rs.len() == rows@.len(),
            0 <= i <= rows@.len(),
            spec_collect_rows(rs.take(i as int)) == Ok::<Slots, LookupError>(slots),
        decreases rows@.len() - i,
    {
        proof {
            assert(rs.take(i + 1).drop_last() =~= rs.take(i as int));
            assert(rs.take(i + 1).last() == rs[i as int]);
            assert(rs[i as int] == rows@[i as int].deep_view());
        }
        match classify_and_parse(&rows[i]) {
            Err(e) => {
                proof {
                    lemma_collect_rows_err_persists(rs, i + 1, rs.len() as int);
                    assert(rs.take(rs.len() as int) =~= rs);
                }
                return Err(e);
            },
            Ok(Some((cat, st))) => {
                slots = match cat {
                    Category::MainStory => Slots { main_story: Some(st), ..slots },
                    Category::MainExtra => Slots { main_extra: Some(st), ..slots },
                    Category::Completionist => Slots { completionist: Some(st), ..slots },
                    Category::AllStyles => Slots { all_styles: Some(st), ..slots },
                    Category::CoOp => Slots { co_op: Some(st), ..slots },
                    Category::Versus => Slots { versus: Some(st), ..slots },
                };
            },
            Ok(None) => {},
        }
        i = i + 1;
    }
    proof {
        assert(rs.take(rows@.len() as int) =~= rs);
    }
    Ok(slots)
}

} // verus!
