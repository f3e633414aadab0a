//! The generic table-extraction engine. It works on a plain model of a parsed
//! document — tables, rows, header and data cells, hyperlinks and spans with
//! their text — locates tables whose header row matches an expected column
//! count, and extracts cell values through a pluggable per-column strategy.

use vstd::prelude::*;
use vstd::string::*;
use vstd::pervasive::VecAdditionalExecFns;
use crate::sorted::{merge_names, merge_names_into, strictly_sorted};
use crate::text::{ends_with, str_ends_with, trim_end_of, trim_end_str};

verus! {

/// A hyperlink inside a cell: its title attribute, and its text items.
pub struct LinkNode {
    pub title: Option<String>,
    pub text: Vec<String>,
}

/// One table cell: the hyperlinks and spans among its descendants, in
/// document order, and all its text items.
pub struct CellNode {
    pub links: Vec<LinkNode>,
    pub spans: Vec<Vec<String>>,
    pub text: Vec<String>,
}

/// One table row: its header cells and its data cells.
pub struct RowNode {
    pub header_cells: Vec<CellNode>,
    pub data_cells: Vec<CellNode>,
}

/// One table element.
pub struct TableNode {
    pub rows: Vec<RowNode>,
}

/// A parsed document, reduced to its table elements in document order.
pub struct Document {
    pub tables: Vec<TableNode>,
}

/// A validated, extracted table: per column the resolved header (`None` for a
/// discarded column), and per data row, per column, the cell's values
/// (`None` where the column is discarded or the extractor yields no value).
pub struct Table {
    pub headers: Vec<Option<String>>,
    pub rows: Vec<Vec<Option<Vec<String>>>>,
}

#[verifier::ext_equal]
pub struct TableV {
    pub headers: Seq<Option<Seq<char>>>,
    pub rows: Seq<Seq<Option<Seq<Seq<char>>>>>,
}

impl View for Table {
    type V = TableV;

    open spec fn view(&self) -> TableV {
        TableV { headers: self.headers.deep_view(), rows: self.rows.deep_view() }
    }
}

impl DeepView for Table {
    type V = TableV;

    open spec fn deep_view(&self) -> TableV {
        self.view()
    }
}

/// How a source's extraction can fail: a document without tables, a document
/// where the expected table is missing or ambiguous, or a mandatory cell
/// without a usable value.
#[derive(Debug, Clone, Copy, PartialEq, Eq, Structural)]
pub enum ScrapeError {
    NoTables,
    TableCount,
    MissingCell { col: usize },
}

/// The per-column cell-value strategies the sources use.
#[derive(Debug, Clone, Copy)]
pub enum CellExtractor {
    Common,
    EndonymLang,
}

/// A language name the language column leaves out: a writing-system link.
pub open spec fn excluded_language(x: Seq<char>) -> bool {
    ||| ends_with(x, "script"@)
    ||| ends_with(x, "alphabet"@)
    ||| ends_with(x, "characters"@)
}

/// The single text items of the first `n` spans that hold exactly one.
pub open spec fn span_items(spans: Seq<Vec<String>>, n: int) -> Seq<Seq<char>>
    decreases n,
{
    if n <= 0 {
        Seq::empty()
    } else {
        let prev = span_items(spans, n - 1);
        if spans[n - 1]@.len() == 1 {
            prev.push(spans[n - 1]@[0]@)
        } else {
            prev
        }
    }
}

/// The first text item of each of the first `n` links, writing-system links
/// left out.
pub open spec fn lang_items(links: Seq<LinkNode>, n: int) -> Seq<Seq<char>>
    decreases n,
{
    if n <= 0 {
        Seq::empty()
    } else {
        let prev = lang_items(links, n - 1);
        let l = links[n - 1];
        if l.text@.len() > 0 && !excluded_language(l.text@[0]@) {
            prev.push(l.text@[0]@)
        } else {
            prev
        }
    }
}

/// Sorted and deduplicated, in `chars_lt` order.
pub open spec fn sort_dedup(items: Seq<Seq<char>>) -> Seq<Seq<char>> {
    merge_names(Seq::empty(), items, None)
}

/// The common strategy: the first link's title for the leading column, else
/// the link's text, else the cell's own text.
pub open spec fn spec_extract_common(c: CellNode, i: int) -> Option<Seq<Seq<char>>> {
    if c.links@.len() > 0 {
        if i == 0 {
            match c.links@[0].title {
                Some(t) => Some(seq![t@]),
                None => None,
            }
        } else {
            Some(c.links@[0].text.deep_view())
        }
    } else {
        Some(c.text.deep_view())
    }
}

/// The native-names strategy: name columns as in the common strategy, the
/// endonym column from single-item spans, the language column from links;
/// every result sorted and deduplicated.
pub open spec fn spec_extract_endolang(c: CellNode, i: int) -> Option<Seq<Seq<char>>> {
    if i == 0 || i == 1 {
        let raw = if c.links@.len() > 0 {
            match c.links@[0].title {
                Some(t) => seq![t@],
                None => c.links@[0].text.deep_view(),
            }
        } else {
            c.text.deep_view()
        };
        Some(sort_dedup(raw))
    } else if i == 2 {
        Some(sort_dedup(span_items(c.spans@, c.spans@.len() as int)))
    } else if i == 4 {
        Some(sort_dedup(lang_items(c.links@, c.links@.len() as int)))
    } else {
        Some(sort_dedup(Seq::empty()))
    }
}

impl CellExtractor {
    pub open spec fn spec_extract(self, c: CellNode, i: int) -> Option<Seq<Seq<char>>> {
        match self {
            CellExtractor::Common => spec_extract_common(c, i),
            CellExtractor::EndonymLang => spec_extract_endolang(c, i),
        }
    }

    /// Applies the strategy to one cell.
    pub fn extract(&self, c: &CellNode, i: usize) -> (r: Option<Vec<String>>)
        ensures
            r.deep_view() == self.spec_extract(*c, i as int),
    {
        match self {
            CellExtractor::Common => extract_common(c, i),
            CellExtractor::EndonymLang => extract_endolang(c, i),
        }
    }
}

#[verifier::loop_isolation(false)]
fn clone_string_vec(v: &Vec<String>) -> (r: Vec<String>)
    ensures
        r.deep_view() == v.deep_view(),
{
    crate::sorted::clone_strings(v)
}

#[verifier::loop_isolation(false)]
fn extract_common(c: &CellNode, i: usize) -> (r: Option<Vec<String>>)
    ensures
        r.deep_view() == spec_extract_common(*c, i as int),
{
    if c.links.len() > 0 {
        if i == 0 {
            match &c.links[0].title {
                Some(t) => {
                    let mut one: Vec<String> = Vec::new();
                    one.push(t.clone());
                    proof {
                        assert(one.deep_view() =~= seq![t@]);
                    }
                    Some(one)
                },
                None => None,
            }
        } else {
            Some(clone_string_vec(&c.links[0].text))
        }
    } else {
        Some(clone_string_vec(&c.text))
    }
}

#[verifier::loop_isolation(false)]
fn sort_dedup_exec(items: Vec<String>) -> (r: Vec<String>)
    ensures
        r.deep_view() == sort_dedup(items.deep_view()),
{
    let mut acc: Vec<String> = Vec::new();
    proof {
        assert(acc.deep_view() =~= Seq::<Seq<char>>::empty());
        assert(strictly_sorted(acc.deep_view()));
    }
    merge_names_into(&mut acc, &items, None);
    acc
}

#[verifier::loop_isolation(false)]
fn extract_endolang(c: &CellNode, i: usize) -> (r: Option<Vec<String>>)
    ensures
        r.deep_view() == spec_extract_endolang(*c, i as int),
{
    let mut raw: Vec<String> = Vec::new();
    if i == 0 || i == 1 {
        if c.links.len() > 0 {
            match &c.links[0].title {
                Some(t) => {
                    raw.push(t.clone());
                    proof {
                        assert(raw.deep_view() =~= seq![t@]);
                    }
                },
                None => {
                    raw = clone_string_vec(&c.links[0].text);
                },
            }
        } else {
            raw = clone_string_vec(&c.text);
        }
    } else if i == 2 {
        let mut k: usize = 0;
        proof {
            assert(raw.deep_view() =~= span_items(c.spans@, 0));
        }
        loop
            invariant
                k <= c.spans@.len(),
                raw.deep_view() == span_items(c.spans@, k as int),
            decreases c.spans@.len() - k,
        {
            if k == c.spans.len() {
                break;
            }
            let ghost before = raw.deep_view();
            if c.spans[k].len() == 1 {
                raw.push(c.spans[k][0].clone());
                proof {
                    assert(raw.deep_view() =~= before.push(c.spans@[k as int]@[0]@));
                }
            }
            k = k + 1;
        }
    } else if i == 4 {
        let mut k: usize = 0;
        proof {
            assert(raw.deep_view() =~= lang_items(c.links@, 0));
        }
        loop
            invariant
                k <= c.links@.len(),
                raw.deep_view() == lang_items(c.links@, k as int),
            decreases c.links@.len() - k,
        {
            if k == c.links.len() {
                break;
            }
            let l = &c.links[k];
            let ghost before = raw.deep_view();
            if l.text.len() > 0 {
                let first = &l.text[0];
                let keep = !str_ends_with(first.as_str(), "script") && !str_ends_with(
                    first.as_str(),
                    "alphabet",
                ) && !str_ends_with(first.as_str(), "characters");
                if keep {
                    raw.push(first.clone());
                    proof {
                        assert(raw.deep_view() =~= before.push(
                            c.links@[k as int].text@[0]@,
                        ));
                    }
                }
            }
            k = k + 1;
        }
    } else {
        proof {
            assert(raw.deep_view() =~= Seq::<Seq<char>>::empty());
        }
    }
    Some(sort_dedup_exec(raw))
}

/// How one header cell resolves: an embedded link's title is preferred, else
/// that link's own first text item, else the cell's first text item, each
/// with trailing whitespace removed.
pub open spec fn resolve_header(c: CellNode) -> Option<Seq<char>> {
    if c.links@.len() > 0 && c.links@[0].title is Some {
        match c.links@[0].title {
            Some(t) => Some(trim_end_of(t@)),
            None => None,
        }
    } else if c.links@.len() > 0 && c.links@[0].text@.len() > 0 {
        Some(trim_end_of(c.links@[0].text@[0]@))
    } else if c.text@.len() > 0 {
        Some(trim_end_of(c.text@[0]@))
    } else {
        None
    }
}

#[verifier::loop_isolation(false)]
fn resolve_header_cell(c: &CellNode) -> (r: Option<String>)
    ensures
        r.deep_view() == resolve_header(*c),
{
    if c.links.len() > 0 {
        let l = &c.links[0];
        match &l.title {
            Some(t) => {
                return Some(trim_end_str(t.as_str()).to_owned());
            },
            None => {
                if l.text.len() > 0 {
                    return Some(trim_end_str(l.text[0].as_str()).to_owned());
                }
            },
        }
    }
    if c.text.len() > 0 {
        return Some(trim_end_str(c.text[0].as_str()).to_owned());
    }
    None
}

/// One qualifying header row folded into the header map: a resolving,
/// non-discarded cell overwrites its column's entry.
pub open spec fn apply_header_row(
    acc: Seq<Option<Seq<char>>>,
    cells: Seq<CellNode>,
    discard: Seq<usize>,
) -> Seq<Option<Seq<char>>> {
    Seq::new(
        acc.len(),
        |i: int|
            if discard.contains(i as usize) {
                acc[i]
            } else {
                match resolve_header(cells[i]) {
                    Some(h) => Some(h),
                    None => acc[i],
                }
            },
    )
}

/// The header map after the first `n` rows: rows whose header-cell count is
/// exactly the expected column count are folded in, the rest are passed over.
pub open spec fn headers_fold(
    rows: Seq<RowNode>,
    n: int,
    columns: int,
    discard: Seq<usize>,
) -> Seq<Option<Seq<char>>>
    decreases n,
{
    if n <= 0 {
        Seq::new(columns as nat, |i: int| None)
    } else {
        let prev = headers_fold(rows, n - 1, columns, discard);
        if rows[n - 1].header_cells@.len() == columns {
            apply_header_row(prev, rows[n - 1].header_cells@, discard)
        } else {
            prev
        }
    }
}

pub open spec fn count_some(s: Seq<Option<Seq<char>>>) -> int
    decreases s.len(),
{
    if s.len() == 0 {
        0
    } else {
        count_some(s.drop_last()) + if s.last() is Some {
            1int
        } else {
            0int
        }
    }
}

pub open spec fn spec_table_headers(t: TableNode, columns: int, discard: Seq<usize>) -> Seq<
    Option<Seq<char>>,
> {
    headers_fold(t.rows@, t.rows@.len() as int, columns, discard)
}

/// A table is kept only when its resolved headers cover exactly the
/// non-discarded columns.
pub open spec fn table_validates(t: TableNode, columns: int, discard: Seq<usize>) -> bool {
    count_some(spec_table_headers(t, columns, discard)) == columns - discard.len()
}

/// One data cell's values: extracted, trimmed, empty strings filtered.
pub open spec fn clean_items(items: Seq<Seq<char>>, n: int) -> Seq<Seq<char>>
    decreases n,
{
    if n <= 0 {
        Seq::empty()
    } else {
        let prev = clean_items(items, n - 1);
        let t = trim_end_of(items[n - 1]);
        if t.len() == 0 {
            prev
        } else {
            prev.push(t)
        }
    }
}

/// One qualifying data row: per column, the cleaned extractor result, `None`
/// for columns without a header or where the extractor yields no value.
pub open spec fn row_cells(
    cells: Seq<CellNode>,
    headers: Seq<Option<Seq<char>>>,
    ex: CellExtractor,
) -> Seq<Option<Seq<Seq<char>>>> {
    Seq::new(
        cells.len(),
        |i: int|
            if headers[i] is Some {
                match ex.spec_extract(cells[i], i) {
                    Some(items) => Some(clean_items(items, items.len() as int)),
                    None => None,
                }
            } else {
                None
            },
    )
}

/// The data rows among the first `n` rows: those whose data-cell count is
/// exactly the expected column count.
pub open spec fn rows_fold(
    rows: Seq<RowNode>,
    n: int,
    columns: int,
    headers: Seq<Option<Seq<char>>>,
    ex: CellExtractor,
) -> Seq<Seq<Option<Seq<Seq<char>>>>>
    decreases n,
{
    if n <= 0 {
        Seq::empty()
    } else {
        let prev = rows_fold(rows, n - 1, columns, headers, ex);
        if rows[n - 1].data_cells@.len() == columns {
            prev.push(row_cells(rows[n - 1].data_cells@, headers, ex))
        } else {
            prev
        }
    }
}

pub open spec fn spec_table(t: TableNode, columns: int, discard: Seq<usize>, ex: CellExtractor) -> TableV {
    let hs = spec_table_headers(t, columns, discard);
    TableV { headers: hs, rows: rows_fold(t.rows@, t.rows@.len() as int, columns, hs, ex) }
}

pub open spec fn in_range(g: int, range: Option<(usize, usize)>) -> bool {
    match range {
        Some(r) => r.0 <= g && g < r.1,
        None => true,
    }
}

/// The tables among the first `n` table elements that are in range and
/// validate, extracted, in document order.
pub open spec fn tables_fold(
    ts: Seq<TableNode>,
    n: int,
    columns: int,
    discard: Seq<usize>,
    range: Option<(usize, usize)>,
    ex: CellExtractor,
) -> Seq<TableV>
    decreases n,
{
    if n <= 0 {
        Seq::empty()
    } else {
        let prev = tables_fold(ts, n - 1, columns, discard, range, ex);
        if in_range(n - 1, range) && table_validates(ts[n - 1], columns, discard) {
            prev.push(spec_table(ts[n - 1], columns, discard, ex))
        } else {
            prev
        }
    }
}

/// What the engine yields on a whole document: a document-shape failure when
/// it has no table elements at all, else every validated in-range table.
pub open spec fn spec_table_scraper(
    doc: Document,
    columns: int,
    discard: Seq<usize>,
    range: Option<(usize, usize)>,
    ex: CellExtractor,
) -> Result<Seq<TableV>, ScrapeError> {
    if doc.tables@.len() == 0 {
        Err(ScrapeError::NoTables)
    } else {
        Ok(tables_fold(doc.tables@, doc.tables@.len() as int, columns, discard, range, ex))
    }
}

fn contains_usize(v: &Vec<usize>, x: usize) -> (r: bool)
    ensures
        r == v@.contains(x),
{
    let mut k: usize = 0;
    loop
        invariant
            k <= v@.len(),
            forall|j: int| 0 <= j < k ==> v@[j] != x,
        decreases v@.len() - k,
    {
        if k == v.len() {
            return false;
        }
        if v[k] == x {
            return true;
        }
        k = k + 1;
    }
}

/// The table-extraction engine: locates the table elements whose header row
/// resolves to exactly the expected columns (less the discarded ones) and
/// extracts their data rows through the given strategy. A document without
/// any table element is a document-shape failure; a table that merely does
/// not match is passed over.
#[verifier::loop_isolation(false)]
pub fn table_scraper(
    doc: &Document,
    columns: usize,
    discard: &Vec<usize>,
    range: Option<(usize, usize)>,
    ex: CellExtractor,
) -> (r: Result<Vec<Table>, ScrapeError>)
    ensures
        r is Err <==> doc.tables@.len() == 0,
        r matches Err(e) ==> e == ScrapeError::NoTables,
        r matches Ok(ts) ==> ts.deep_view() == tables_fold(
            doc.tables@,
            doc.tables@.len() as int,
            columns as int,
            discard@,
            range,
            ex,
        ),
{
    if doc.tables.len() == 0 {
        return Err(ScrapeError::NoTables);
    }
    let ghost all = doc.tables@;
    let mut out: Vec<Table> = Vec::new();
    let mut g: usize = 0;
    proof {
        assert(out.deep_view() =~= tables_fold(all, 0, columns as int, discard@, range, ex));
    }
    loop
        invariant
            g <= all.len(),
            out.deep_view() == tables_fold(all, g as int, columns as int, discard@, range, ex),
        decreases all.len() - g,
    {
        if g == doc.tables.len() {
            break;
        }
        let inr = match range {
            Some(rg) => rg.0 <= g && g < rg.1,
            None => true,
        };
        if !inr {
            g = g + 1;
            continue;
        }
        let t = &doc.tables[g];
        let ghost tv = all[g as int];

        // First pass: resolve the header map over all qualifying rows.
        let mut headers: Vec<Option<String>> = Vec::new();
        let mut i0: usize = 0;
        loop
            invariant
                i0 <= columns,
                headers@.len() == i0,
                forall|k: int| 0 <= k < i0 ==> headers@[k] is None,
            decreases columns - i0,
        {
            if i0 == columns {
                break;
            }
            headers.push(None);
            i0 = i0 + 1;
        }
        proof {
            assert forall|k: int| 0 <= k < columns implies headers.deep_view()[k]
                is None by {
                assert(headers@[k] is None);
            }
            assert(headers.deep_view() =~= headers_fold(tv.rows@, 0, columns as int, discard@));
        }
        let mut r_i: usize = 0;
        loop
            invariant
                r_i <= tv.rows@.len(),
                headers@.len() == columns,
                headers.deep_view() == headers_fold(
                    tv.rows@,
                    r_i as int,
                    columns as int,
                    discard@,
                ),
            decreases tv.rows@.len() - r_i,
        {
            if r_i == t.rows.len() {
                break;
            }
            let row = &t.rows[r_i];
            if row.header_cells.len() == columns {
                let ghost prev = headers.deep_view();
                let ghost cells = tv.rows@[r_i as int].header_cells@;
                let mut i: usize = 0;
                loop
                    invariant
                        i <= columns,
                        headers@.len() == columns,
                        forall|k: int|
                            0 <= k < i ==> #[trigger] headers.deep_view()[k] == apply_header_row(
                                prev,
                                cells,
                                discard@,
                            )[k],
                        forall|k: int|
                            i <= k < columns ==> #[trigger] headers.deep_view()[k] == prev[k],
                    decreases columns - i,
                {
                    if i == columns {
                        break;
                    }
                    let dsc = contains_usize(discard, i);
                    let ghost beforedeep = headers.deep_view();
                    if !dsc {
                        match resolve_header_cell(&row.header_cells[i]) {
                            Some(h) => {
                                let ghost hv = h@;
                                let ghost before = headers@;
                                headers.set(i, Some(h));
                                proof {
                                    assert forall|k: int|
                                        0 <= k < columns && k != i implies #[trigger] headers.deep_view()[k]
                                        == beforedeep[k] by {
                                        assert(headers@[k] == before[k]);
                                    }
                                    assert(headers.deep_view()[i as int] == Some(hv));
                                }
                            },
                            None => {},
                        }
                    }
                    proof {
                        assert(headers.deep_view()[i as int] == apply_header_row(
                            prev,
                            cells,
                            discard@,
                        )[i as int]);
                    }
                    i = i + 1;
                }
                proof {
                    assert(headers.deep_view() =~= apply_header_row(prev, cells, discard@));
                }
            }
            r_i = r_i + 1;
        }
        proof {
            assert(headers.deep_view() == spec_table_headers(tv, columns as int, discard@));
        }

        // Validate: the resolved headers must cover exactly the kept columns.
        let mut cnt: usize = 0;
        let mut i1: usize = 0;
        proof {
            assert(headers.deep_view().take(0) =~= Seq::<Option<Seq<char>>>::empty());
        }
        loop
            invariant
                i1 <= columns,
                cnt <= i1,
                headers@.len() == columns,
                cnt as int == count_some(headers.deep_view().take(i1 as int)),
            decreases columns - i1,
        {
            if i1 == columns {
                break;
            }
            proof {
                assert(headers.deep_view().take(i1 + 1).drop_last() =~= headers.deep_view().take(
                    i1 as int,
                ));
                assert(headers.deep_view().take(i1 + 1).last() == headers.deep_view()[i1 as int]);
            }
            if headers[i1].is_some() {
                cnt = cnt + 1;
            }
            i1 = i1 + 1;
        }
        proof {
            assert(headers.deep_view().take(columns as int) =~= headers.deep_view());
        }
        let valid = match columns.checked_sub(discard.len()) {
            Some(expect) => cnt == expect,
            None => false,
        };
        if !valid {
            proof {
                assert(!table_validates(tv, columns as int, discard@));
            }
            g = g + 1;
            continue;
        }

        // Second pass: extract the data rows.
        let ghost hs = headers.deep_view();
        let mut rows_out: Vec<Vec<Option<Vec<String>>>> = Vec::new();
        let mut r_j: usize = 0;
        proof {
            assert(rows_out.deep_view() =~= rows_fold(tv.rows@, 0, columns as int, hs, ex));
        }
        loop
            invariant
                r_j <= tv.rows@.len(),
                headers@.len() == columns,
                headers.deep_view() == hs,
                rows_out.deep_view() == rows_fold(tv.rows@, r_j as int, columns as int, hs, ex),
            decreases tv.rows@.len() - r_j,
        {
            if r_j == t.rows.len() {
                break;
            }
            let row = &t.rows[r_j];
            let ghost dcells = tv.rows@[r_j as int].data_cells@;
            if row.data_cells.len() == columns {
                let mut cells: Vec<Option<Vec<String>>> = Vec::new();
                let mut i: usize = 0;
                loop
                    invariant
                        i <= columns,
                        cells@.len() == i,
                        forall|k: int|
                            0 <= k < i ==> #[trigger] cells.deep_view()[k] == row_cells(
                                dcells,
                                hs,
                                ex,
                            )[k],
                    decreases columns - i,
                {
                    if i == columns {
                        break;
                    }
                    let ghost before = cells.deep_view();
                    if headers[i].is_some() {
                        match ex.extract(&row.data_cells[i], i) {
                            Some(items) => {
                                let cleaned = clean_cell_items(&items);
                                let ghost cv = cleaned.deep_view();
                                cells.push(Some(cleaned));
                                proof {
                                    assert(cells.deep_view() =~= before.push(Some(cv)));
                                }
                            },
                            None => {
                                cells.push(None);
                                proof {
                                    assert(cells.deep_view() =~= before.push(
                                        None::<Seq<Seq<char>>>,
                                    ));
                                }
                            },
                        }
                    } else {
                        cells.push(None);
                        proof {
                            assert(cells.deep_view() =~= before.push(None::<Seq<Seq<char>>>));
                        }
                    }
                    proof {
                        assert(cells.deep_view()[i as int] == row_cells(dcells, hs, ex)[
                            i as int
                        ]);
                    }
                    i = i + 1;
                }
                let ghost before = rows_out.deep_view();
                proof {
                    assert(cells.deep_view() =~= row_cells(dcells, hs, ex));
                }
                rows_out.push(cells);
                proof {
                    assert(rows_out.deep_view() =~= before.push(row_cells(dcells, hs, ex)));
                }
            }
            r_j = r_j + 1;
        }

        let ghost before_out = out.deep_view();
        out.push(Table { headers, rows: rows_out });
        proof {
            assert(out.deep_view() =~= before_out.push(
                spec_table(tv, columns as int, discard@, ex),
            ));
        }
        g = g + 1;
    }
    Ok(out)
}

#[verifier::loop_isolation(false)]
fn clean_cell_items(items: &Vec<String>) -> (r: Vec<String>)
    ensures
        r.deep_view() == clean_items(items.deep_view(), items.deep_view().len() as int),
{
    let mut r: Vec<String> = Vec::new();
    let mut k: usize = 0;
    proof {
        assert(r.deep_view() =~= clean_items(items.deep_view(), 0));
    }
    loop
        invariant
            k <= items@.len(),
            r.deep_view() == clean_items(items.deep_view(), k as int),
        decreases items@.len() - k,
    {
        if k == items.len() {
            break;
        }
        let ghost before = r.deep_view();
        let trimmed = trim_end_str(items[k].as_str());
        if !trimmed.is_empty() {
            r.push(trimmed.to_owned());
            proof {
                assert(r.deep_view() =~= before.push(trim_end_of(items.deep_view()[k as int])));
            }
        }
        k = k + 1;
    }
    r
}

/// A table whose rows never carry exactly the expected number of header cells
/// resolves no headers at all, so it does not validate.
pub proof fn lemma_header_mismatch_invalidates(t: TableNode, columns: int, discard: Seq<usize>)
    requires
        forall|r: int|
            0 <= r < t.rows@.len() ==> (#[trigger] t.rows@[r]).header_cells@.len() != columns,
        discard.len() < columns,
    ensures
        !table_validates(t, columns, discard),
{
    lemma_headers_fold_unchanged(t.rows@, t.rows@.len() as int, columns, discard);
    lemma_count_some_all_none(Seq::new(columns as nat, |i: int| None));
}

proof fn lemma_headers_fold_unchanged(rows: Seq<RowNode>, n: int, columns: int, discard: Seq<usize>)
    requires
        n <= rows.len(),
        forall|r: int| 0 <= r < rows.len() ==> (#[trigger] rows[r]).header_cells@.len() != columns,
    ensures
        headers_fold(rows, n, columns, discard) == Seq::new(columns as nat, |i: int| None::<Seq<char>>),
    decreases n,
{
    if n > 0 {
        lemma_headers_fold_unchanged(rows, n - 1, columns, discard);
    }
}

proof fn lemma_count_some_all_none(s: Seq<Option<Seq<char>>>)
    requires
        forall|i: int| 0 <= i < s.len() ==> s[i] is None,
    ensures
        count_some(s) == 0,
    decreases s.len(),
{
    if s.len() > 0 {
        lemma_count_some_all_none(s.drop_last());
    }
}

pub proof fn lemma_headers_fold_len(rows: Seq<RowNode>, n: int, columns: int, discard: Seq<usize>)
    ensures
        headers_fold(rows, n, columns, discard).len() == columns as nat,
    decreases n,
{
    if n > 0 {
        lemma_headers_fold_len(rows, n - 1, columns, discard);
    }
}

/// Every row the engine emits holds one entry slot per column.
pub proof fn lemma_rows_fold_len(
    rows: Seq<RowNode>,
    n: int,
    columns: int,
    headers: Seq<Option<Seq<char>>>,
    ex: CellExtractor,
)
    ensures
        forall|r: int|
            0 <= r < rows_fold(rows, n, columns, headers, ex).len() ==> (#[trigger] rows_fold(
                rows,
                n,
                columns,
                headers,
                ex,
            )[r]).len() == columns,
    decreases n,
{
    if n > 0 {
        lemma_rows_fold_len(rows, n - 1, columns, headers, ex);
        let prev = rows_fold(rows, n - 1, columns, headers, ex);
        let cur = rows_fold(rows, n, columns, headers, ex);
        assert forall|r: int| 0 <= r < cur.len() implies (#[trigger] cur[r]).len() == columns by {
            if r < prev.len() {
                assert(cur[r] == prev[r]);
                assert(prev[r].len() == columns);
            } else {
                assert(rows[n - 1].data_cells@.len() == columns);
            }
        }
    }
}

/// Every table the engine emits has one header slot per column, and rows of
/// that same width.
pub proof fn lemma_tables_fold_wf(
    ts: Seq<TableNode>,
    n: int,
    columns: int,
    discard: Seq<usize>,
    range: Option<(usize, usize)>,
    ex: CellExtractor,
)
    ensures
        forall|t: int|
            0 <= t < tables_fold(ts, n, columns, discard, range, ex).len() ==> (
            #[trigger] tables_fold(ts, n, columns, discard, range, ex)[t]).headers.len()
                == columns as nat,
        forall|t: int, r: int|
            0 <= t < tables_fold(ts, n, columns, discard, range, ex).len() && 0 <= r
                < tables_fold(ts, n, columns, discard, range, ex)[t].rows.len() ==> (
            #[trigger] tables_fold(ts, n, columns, discard, range, ex)[t].rows[r]).len()
                == columns,
    decreases n,
{
    if n > 0 {
        lemma_tables_fold_wf(ts, n - 1, columns, discard, range, ex);
        let prev = tables_fold(ts, n - 1, columns, discard, range, ex);
        let cur = tables_fold(ts, n, columns, discard, range, ex);
        if in_range(n - 1, range) && table_validates(ts[n - 1], columns, discard) {
            lemma_headers_fold_len(ts[n - 1].rows@, ts[n - 1].rows@.len() as int, columns, discard);
            let hs = spec_table_headers(ts[n - 1], columns, discard);
            lemma_rows_fold_len(ts[n - 1].rows@, ts[n - 1].rows@.len() as int, columns, hs, ex);
        }
        assert forall|t: int| 0 <= t < cur.len() implies (#[trigger] cur[t]).headers.len()
            == columns as nat by {
            if t < prev.len() {
                assert(cur[t] == prev[t]);
                assert(prev[t].headers.len() == columns as nat);
            }
        }
        assert forall|t: int, r: int|
            0 <= t < cur.len() && 0 <= r < cur[t].rows.len() implies (#[trigger] cur[t].rows[r]).len()
            == columns by {
            if t < prev.len() {
                assert(cur[t] == prev[t]);
                assert(prev[t].rows[r].len() == columns);
            }
        }
    }
}

/// How many of the first `n` tables are in range and validate.
pub open spec fn count_valid(
    ts: Seq<TableNode>,
    n: int,
    columns: int,
    discard: Seq<usize>,
    range: Option<(usize, usize)>,
) -> int
    decreases n,
{
    if n <= 0 {
        0
    } else {
        count_valid(ts, n - 1, columns, discard, range) + if in_range(n - 1, range)
            && table_validates(ts[n - 1], columns, discard) {
            1int
        } else {
            0int
        }
    }
}

/// The engine's output holds one entry per in-range, validating table — a
/// non-matching table contributes nothing — and every validating in-range
/// table's extraction is among them.
pub proof fn lemma_tables_fold_members(
    ts: Seq<TableNode>,
    n: int,
    columns: int,
    discard: Seq<usize>,
    range: Option<(usize, usize)>,
    ex: CellExtractor,
)
    ensures
        tables_fold(ts, n, columns, discard, range, ex).len() == count_valid(
            ts,
            n,
            columns,
            discard,
            range,
        ),
        forall|h: int|
            0 <= h < n && in_range(h, range) && table_validates(ts[h], columns, discard)
                ==> tables_fold(ts, n, columns, discard, range, ex).contains(
                #[trigger] spec_table(ts[h], columns, discard, ex),
            ),
    decreases n,
{
    if n > 0 {
        lemma_tables_fold_members(ts, n - 1, columns, discard, range, ex);
        let prev = tables_fold(ts, n - 1, columns, discard, range, ex);
        let cur = tables_fold(ts, n, columns, discard, range, ex);
        if in_range(n - 1, range) && table_validates(ts[n - 1], columns, discard) {
            assert(cur[cur.len() - 1] == spec_table(ts[n - 1], columns, discard, ex));
            assert forall|h: int|
                0 <= h < n && in_range(h, range) && table_validates(ts[h], columns, discard)
                    implies cur.contains(
                #[trigger] spec_table(ts[h], columns, discard, ex),
            ) by {
                if h < n - 1 {
                    let i = choose|i: int|
                        0 <= i < prev.len() && prev[i] == spec_table(ts[h], columns, discard, ex);
                    assert(cur[i] == spec_table(ts[h], columns, discard, ex));
                } else {
                    assert(cur[cur.len() - 1] == spec_table(ts[h], columns, discard, ex));
                }
            }
        } else {
            assert forall|h: int|
                0 <= h < n && in_range(h, range) && table_validates(ts[h], columns, discard)
                    implies cur.contains(
                #[trigger] spec_table(ts[h], columns, discard, ex),
            ) by {
                assert(h < n - 1);
            }
        }
    }
}

/// A table whose rows never carry exactly the expected number of header
/// cells contributes no table to the engine's output, while every other
/// in-range, validating table of the same document still contributes its
/// extraction.
pub proof fn lemma_mismatched_table_contributes_nothing(
    ts: Seq<TableNode>,
    columns: int,
    discard: Seq<usize>,
    range: Option<(usize, usize)>,
    ex: CellExtractor,
    g: int,
)
    requires
        0 <= g < ts.len(),
        discard.len() < columns,
        forall|r: int|
            0 <= r < ts[g].rows@.len() ==> (#[trigger] ts[g].rows@[r]).header_cells@.len()
                != columns,
    ensures
        !table_validates(ts[g], columns, discard),
        tables_fold(ts, ts.len() as int, columns, discard, range, ex).len() == count_valid(
            ts,
            ts.len() as int,
            columns,
            discard,
            range,
        ),
        forall|h: int|
            0 <= h < ts.len() && in_range(h, range) && table_validates(ts[h], columns, discard)
                ==> tables_fold(ts, ts.len() as int, columns, discard, range, ex).contains(
                #[trigger] spec_table(ts[h], columns, discard, ex),
            ),
{
    lemma_header_mismatch_invalidates(ts[g], columns, discard);
    lemma_tables_fold_members(ts, ts.len() as int, columns, discard, range, ex);
}

} // verus!
