//! Typed records decoded from the five table sources, and their decoders.
//! Each decoder runs the extraction engine over a parsed document with its
//! source's column layout, then turns each qualifying row into one record,
//! applying that source's per-column disambiguation rules.

use vstd::prelude::*;
use vstd::string::*;
use vstd::utf8::encode_utf8;
use crate::extract::{
    table_scraper, spec_table_scraper, tables_fold, CellExtractor, Document, ScrapeError, Table,
    TableV,
};
use crate::text::{
    contains_sub, joined, join_all, lower_of, lowercase, parse_i32, spec_parse_i32, starts_with,
    str_contains, str_starts_with,
};

verus! {

/// One row of the ISO 3166-1 country-code table.
#[derive(Debug, Clone)]
pub struct WikipediaScrapedCountry {
    pub exonym: String,
    pub name: String,
    pub iso_3166_1_a2: String,
    pub iso_3166_1_a3: String,
    pub tld: String,
}

#[verifier::ext_equal]
pub struct WikipediaScrapedCountryV {
    pub exonym: Seq<char>,
    pub name: Seq<char>,
    pub iso_3166_1_a2: Seq<char>,
    pub iso_3166_1_a3: Seq<char>,
    pub tld: Seq<char>,
}

impl View for WikipediaScrapedCountry {
    type V = WikipediaScrapedCountryV;

    open spec fn view(&self) -> WikipediaScrapedCountryV {
        WikipediaScrapedCountryV {
            exonym: self.exonym@,
            name: self.name@,
            iso_3166_1_a2: self.iso_3166_1_a2@,
            iso_3166_1_a3: self.iso_3166_1_a3@,
            tld: self.tld@,
        }
    }
}

/// One row of the circulating-currencies table.
#[derive(Debug, Clone)]
pub struct WikipediaScrapedCurrency {
    pub exonym: String,
    pub name: String,
    pub iso_4217: Option<String>,
    pub symbol: Option<String>,
    pub fraction: Option<String>,
    pub fractions_in_unit: Option<i32>,
}

#[verifier::ext_equal]
pub struct WikipediaScrapedCurrencyV {
    pub exonym: Seq<char>,
    pub name: Seq<char>,
    pub iso_4217: Option<Seq<char>>,
    pub symbol: Option<Seq<char>>,
    pub fraction: Option<Seq<char>>,
    pub fractions_in_unit: Option<i32>,
}

impl View for WikipediaScrapedCurrency {
    type V = WikipediaScrapedCurrencyV;

    open spec fn view(&self) -> WikipediaScrapedCurrencyV {
        WikipediaScrapedCurrencyV {
            exonym: self.exonym@,
            name: self.name@,
            iso_4217: self.iso_4217.deep_view(),
            symbol: self.symbol.deep_view(),
            fraction: self.fraction.deep_view(),
            fractions_in_unit: self.fractions_in_unit,
        }
    }
}

/// One row of the regional-indicator table: a flag and its country code.
#[derive(Debug, Clone)]
pub struct WikipediaScrapedFlag {
    pub iso_3166_1_a2: String,
    pub flag: String,
}

#[verifier::ext_equal]
pub struct WikipediaScrapedFlagV {
    pub iso_3166_1_a2: Seq<char>,
    pub flag: Seq<char>,
}

impl View for WikipediaScrapedFlag {
    type V = WikipediaScrapedFlagV;

    open spec fn view(&self) -> WikipediaScrapedFlagV {
        WikipediaScrapedFlagV { iso_3166_1_a2: self.iso_3166_1_a2@, flag: self.flag@ }
    }
}

/// One row of the calling-code tables: a country name, its code, a time zone
/// and an optional daylight-saving note.
#[derive(Debug, Clone)]
pub struct WikipediaScrapedCcTz {
    pub exonym: String,
    pub code: String,
    pub tz: String,
    pub dst: Option<String>,
}

#[verifier::ext_equal]
pub struct WikipediaScrapedCcTzV {
    pub exonym: Seq<char>,
    pub code: Seq<char>,
    pub tz: Seq<char>,
    pub dst: Option<Seq<char>>,
}

impl View for WikipediaScrapedCcTz {
    type V = WikipediaScrapedCcTzV;

    open spec fn view(&self) -> WikipediaScrapedCcTzV {
        WikipediaScrapedCcTzV {
            exonym: self.exonym@,
            code: self.code@,
            tz: self.tz@,
            dst: self.dst.deep_view(),
        }
    }
}

/// One row of the native-names tables: exonyms for a country and its capital,
/// the local names, and the languages they are written in.
#[derive(Debug, Clone)]
pub struct WikipediaScrapedEndonyms {
    pub exonym: String,
    pub capital: String,
    pub endonyms: Vec<String>,
    pub languages: Vec<String>,
}

#[verifier::ext_equal]
pub struct WikipediaScrapedEndonymsV {
    pub exonym: Seq<char>,
    pub capital: Seq<char>,
    pub endonyms: Seq<Seq<char>>,
    pub languages: Seq<Seq<char>>,
}

impl View for WikipediaScrapedEndonyms {
    type V = WikipediaScrapedEndonymsV;

    open spec fn view(&self) -> WikipediaScrapedEndonymsV {
        WikipediaScrapedEndonymsV {
            exonym: self.exonym@,
            capital: self.capital@,
            endonyms: self.endonyms.deep_view(),
            languages: self.languages.deep_view(),
        }
    }
}

impl DeepView for WikipediaScrapedCountry {
    type V = WikipediaScrapedCountryV;

    open spec fn deep_view(&self) -> WikipediaScrapedCountryV {
        self.view()
    }
}

impl DeepView for WikipediaScrapedCurrency {
    type V = WikipediaScrapedCurrencyV;

    open spec fn deep_view(&self) -> WikipediaScrapedCurrencyV {
        self.view()
    }
}

impl DeepView for WikipediaScrapedFlag {
    type V = WikipediaScrapedFlagV;

    open spec fn deep_view(&self) -> WikipediaScrapedFlagV {
        self.view()
    }
}

impl DeepView for WikipediaScrapedCcTz {
    type V = WikipediaScrapedCcTzV;

    open spec fn deep_view(&self) -> WikipediaScrapedCcTzV {
        self.view()
    }
}

impl DeepView for WikipediaScrapedEndonyms {
    type V = WikipediaScrapedEndonymsV;

    open spec fn deep_view(&self) -> WikipediaScrapedEndonymsV {
        self.view()
    }
}

impl WikipediaScrapedCountry {
    /// A field-for-field copy.
    pub fn clone_record(&self) -> (r: Self)
        ensures
            r@ == self@,
    {
        WikipediaScrapedCountry {
            exonym: self.exonym.clone(),
            name: self.name.clone(),
            iso_3166_1_a2: self.iso_3166_1_a2.clone(),
            iso_3166_1_a3: self.iso_3166_1_a3.clone(),
            tld: self.tld.clone(),
        }
    }
}

impl WikipediaScrapedCurrency {
    /// A field-for-field copy.
    pub fn clone_record(&self) -> (r: Self)
        ensures
            r@ == self@,
    {
        WikipediaScrapedCurrency {
            exonym: self.exonym.clone(),
            name: self.name.clone(),
            iso_4217: match &self.iso_4217 {
                Some(s) => Some(s.clone()),
                None => None,
            },
            symbol: match &self.symbol {
                Some(s) => Some(s.clone()),
                None => None,
            },
            fraction: match &self.fraction {
                Some(s) => Some(s.clone()),
                None => None,
            },
            fractions_in_unit: self.fractions_in_unit,
        }
    }
}

impl WikipediaScrapedFlag {
    /// A field-for-field copy.
    pub fn clone_record(&self) -> (r: Self)
        ensures
            r@ == self@,
    {
        WikipediaScrapedFlag {
            iso_3166_1_a2: self.iso_3166_1_a2.clone(),
            flag: self.flag.clone(),
        }
    }
}

// ---- per-column value picks ----

/// The cell's first value, if it has any.
pub open spec fn first_of(vals: Seq<Seq<char>>) -> Option<Seq<char>> {
    if vals.len() > 0 {
        Some(vals[0])
    } else {
        None
    }
}

/// The cell's last value — where a name link may be preceded by a
/// flag-icon caption.
pub open spec fn last_of(vals: Seq<Seq<char>>) -> Option<Seq<char>> {
    if vals.len() > 0 {
        Some(vals.last())
    } else {
        None
    }
}

/// The length in bytes of a string's UTF-8 form, as `str::len` reports it.
pub open spec fn byte_len(s: Seq<char>) -> usize {
    encode_utf8(s).len() as usize
}

/// The first value of byte length `want`, from position `k` on.
pub open spec fn find_bytelen_from(vals: Seq<Seq<char>>, want: int, k: int) -> Option<Seq<char>>
    decreases vals.len() - k,
{
    if k < 0 || k >= vals.len() {
        None
    } else if byte_len(vals[k]) == want {
        Some(vals[k])
    } else {
        find_bytelen_from(vals, want, k + 1)
    }
}

/// A code column's pick: a single value as it stands, else the first value of
/// the wanted byte length.
pub open spec fn pick_bytelen(vals: Seq<Seq<char>>, want: int) -> Option<Seq<char>> {
    if vals.len() == 1 {
        Some(vals[0])
    } else {
        find_bytelen_from(vals, want, 0)
    }
}

/// The first value that starts with a dot, from position `k` on.
pub open spec fn find_dot_from(vals: Seq<Seq<char>>, k: int) -> Option<Seq<char>>
    decreases vals.len() - k,
{
    if k < 0 || k >= vals.len() {
        None
    } else if starts_with(vals[k], "."@) {
        Some(vals[k])
    } else {
        find_dot_from(vals, k + 1)
    }
}

/// The domain column's pick: a single value as it stands, else the first
/// value that starts with a dot.
pub open spec fn pick_dot(vals: Seq<Seq<char>>) -> Option<Seq<char>> {
    if vals.len() == 1 {
        Some(vals[0])
    } else {
        find_dot_from(vals, 0)
    }
}

/// The ISO 4217 column's pick: a single value as it stands; a cell whose many
/// values join to a "(none)" note yields nothing; else the first three-byte
/// value.
pub open spec fn pick_currency_code(vals: Seq<Seq<char>>) -> Option<Seq<char>> {
    if vals.len() == 1 {
        Some(vals[0])
    } else {
        let noneish = vals.len() >= 3 && starts_with(joined(vals), "(none)"@);
        if noneish {
            None
        } else {
            find_bytelen_from(vals, 3, 0)
        }
    }
}

#[verifier::loop_isolation(false)]
fn pick_first(vals: &Vec<String>) -> (r: Option<String>)
    ensures
        r.deep_view() == first_of(vals.deep_view()),
{
    if vals.len() > 0 {
        Some(vals[0].clone())
    } else {
        None
    }
}

#[verifier::loop_isolation(false)]
fn pick_last(vals: &Vec<String>) -> (r: Option<String>)
    ensures
        r.deep_view() == last_of(vals.deep_view()),
{
    if vals.len() > 0 {
        Some(vals[vals.len() - 1].clone())
    } else {
        None
    }
}

#[verifier::loop_isolation(false)]
fn find_bytelen(vals: &Vec<String>, want: usize) -> (r: Option<String>)
    ensures
        r.deep_view() == find_bytelen_from(vals.deep_view(), want as int, 0),
{
    let mut k: usize = 0;
    loop
        invariant
            k <= vals@.len(),
            find_bytelen_from(vals.deep_view(), want as int, 0) == find_bytelen_from(
                vals.deep_view(),
                want as int,
                k as int,
            ),
        decreases vals@.len() - k,
    {
        if k == vals.len() {
            return None;
        }
        proof {
            assert(vals.deep_view()[k as int] == vals@[k as int]@);
        }
        if vals[k].as_str().len() == want {
            return Some(vals[k].clone());
        }
        k = k + 1;
    }
}

#[verifier::loop_isolation(false)]
fn pick_bytelen_exec(vals: &Vec<String>, want: usize) -> (r: Option<String>)
    ensures
        r.deep_view() == pick_bytelen(vals.deep_view(), want as int),
{
    if vals.len() == 1 {
        Some(vals[0].clone())
    } else {
        find_bytelen(vals, want)
    }
}

#[verifier::loop_isolation(false)]
fn pick_dot_exec(vals: &Vec<String>) -> (r: Option<String>)
    ensures
        r.deep_view() == pick_dot(vals.deep_view()),
{
    if vals.len() == 1 {
        return Some(vals[0].clone());
    }
    let mut k: usize = 0;
    loop
        invariant
            k <= vals@.len(),
            find_dot_from(vals.deep_view(), 0) == find_dot_from(vals.deep_view(), k as int),
        decreases vals@.len() - k,
    {
        if k == vals.len() {
            return None;
        }
        if str_starts_with(vals[k].as_str(), ".") {
            return Some(vals[k].clone());
        }
        k = k + 1;
    }
}

#[verifier::loop_isolation(false)]
fn pick_currency_code_exec(vals: &Vec<String>) -> (r: Option<String>)
    ensures
        r.deep_view() == pick_currency_code(vals.deep_view()),
{
    if vals.len() == 1 {
        return Some(vals[0].clone());
    }
    if vals.len() >= 3 {
        let all = join_all(vals);
        if str_starts_with(all.as_str(), "(none)") {
            return None;
        }
    }
    find_bytelen(vals, 3)
}

// ---- the ISO 3166-1 country table ----

pub open spec fn ok_of(r: Result<Seq<char>, usize>) -> Seq<char> {
    match r {
        Ok(s) => s,
        Err(_) => Seq::empty(),
    }
}

/// A mandatory column read with `first_of`: an absent entry leaves the field
/// empty, a present entry without a usable value fails the row.
pub open spec fn col_first(row: Seq<Option<Seq<Seq<char>>>>, i: usize) -> Result<Seq<char>, usize> {
    match row[i as int] {
        Some(vals) => match first_of(vals) {
            Some(s) => Ok(s),
            None => Err(i),
        },
        None => Ok(Seq::empty()),
    }
}

pub open spec fn col_last(row: Seq<Option<Seq<Seq<char>>>>, i: usize) -> Result<Seq<char>, usize> {
    match row[i as int] {
        Some(vals) => match last_of(vals) {
            Some(s) => Ok(s),
            None => Err(i),
        },
        None => Ok(Seq::empty()),
    }
}

pub open spec fn col_bytelen(row: Seq<Option<Seq<Seq<char>>>>, i: usize, want: int) -> Result<
    Seq<char>,
    usize,
> {
    match row[i as int] {
        Some(vals) => match pick_bytelen(vals, want) {
            Some(s) => Ok(s),
            None => Err(i),
        },
        None => Ok(Seq::empty()),
    }
}

pub open spec fn col_findlen(row: Seq<Option<Seq<Seq<char>>>>, i: usize, want: int) -> Result<
    Seq<char>,
    usize,
> {
    match row[i as int] {
        Some(vals) => match find_bytelen_from(vals, want, 0) {
            Some(s) => Ok(s),
            None => Err(i),
        },
        None => Ok(Seq::empty()),
    }
}

pub open spec fn col_dot(row: Seq<Option<Seq<Seq<char>>>>, i: usize) -> Result<Seq<char>, usize> {
    match row[i as int] {
        Some(vals) => match pick_dot(vals) {
            Some(s) => Ok(s),
            None => Err(i),
        },
        None => Ok(Seq::empty()),
    }
}

/// One country row: names from the leading columns, the two ISO codes by
/// their byte lengths, the domain by its leading dot; every mandatory value
/// that cannot be resolved fails the whole decode.
pub open spec fn spec_decode_country_row(row: Seq<Option<Seq<Seq<char>>>>) -> Result<
    WikipediaScrapedCountryV,
    usize,
> {
    if col_first(row, 0) is Err {
        Err(0usize)
    } else if col_first(row, 1) is Err {
        Err(1usize)
    } else if col_bytelen(row, 3, 2) is Err {
        Err(3usize)
    } else if col_bytelen(row, 4, 3) is Err {
        Err(4usize)
    } else if col_dot(row, 7) is Err {
        Err(7usize)
    } else {
        Ok(
            WikipediaScrapedCountryV {
                exonym: ok_of(col_first(row, 0)),
                name: ok_of(col_first(row, 1)),
                iso_3166_1_a2: ok_of(col_bytelen(row, 3, 2)),
                iso_3166_1_a3: ok_of(col_bytelen(row, 4, 3)),
                tld: ok_of(col_dot(row, 7)),
            },
        )
    }
}

pub open spec fn decode_country_rows(rows: Seq<Seq<Option<Seq<Seq<char>>>>>, n: int) -> Result<
    Seq<WikipediaScrapedCountryV>,
    usize,
>
    decreases n,
{
    if n <= 0 {
        Ok(Seq::empty())
    } else {
        match decode_country_rows(rows, n - 1) {
            Err(e) => Err(e),
            Ok(prev) => match spec_decode_country_row(rows[n - 1]) {
                Err(e) => Err(e),
                Ok(rec) => Ok(prev.push(rec)),
            },
        }
    }
}

proof fn lemma_decode_country_rows_err(rows: Seq<Seq<Option<Seq<Seq<char>>>>>, m: int, n: int)
    requires
        0 <= m <= n,
        decode_country_rows(rows, m) is Err,
    ensures
        decode_country_rows(rows, n) == decode_country_rows(rows, m),
    decreases n - m,
{
    if n > m {
        lemma_decode_country_rows_err(rows, m, n - 1);
    }
}

/// What the country source yields on a document: exactly one table of eight
/// columns must validate, and every row must decode.
pub open spec fn spec_scrape_countries(doc: Document) -> Result<
    Seq<WikipediaScrapedCountryV>,
    ScrapeError,
> {
    match spec_table_scraper(doc, 8, seq![2usize, 5usize, 6usize], None, CellExtractor::Common) {
        Err(e) => Err(e),
        Ok(ts) => if ts.len() != 1 {
            Err(ScrapeError::TableCount)
        } else {
            match decode_country_rows(ts[0].rows, ts[0].rows.len() as int) {
                Err(c) => Err(ScrapeError::MissingCell { col: c }),
                Ok(recs) => Ok(recs),
            }
        },
    }
}

#[verifier::loop_isolation(false)]
fn decode_country_row(row: &Vec<Option<Vec<String>>>) -> (r: Result<WikipediaScrapedCountry, usize>)
    requires
        row@.len() == 8,
    ensures
        match (r, spec_decode_country_row(row.deep_view())) {
            (Ok(rec), Ok(srec)) => rec@ == srec,
            (Err(c), Err(sc)) => c == sc,
            _ => false,
        },
{
    let exonym: String = match &row[0] {
        Some(vals) => match pick_first(vals) {
            Some(s) => s,
            None => {
                return Err(0);
            },
        },
        None => String::new(),
    };
    let name: String = match &row[1] {
        Some(vals) => match pick_first(vals) {
            Some(s) => s,
            None => {
                return Err(1);
            },
        },
        None => String::new(),
    };
    let a2: String = match &row[3] {
        Some(vals) => match pick_bytelen_exec(vals, 2) {
            Some(s) => s,
            None => {
                return Err(3);
            },
        },
        None => String::new(),
    };
    let a3: String = match &row[4] {
        Some(vals) => match pick_bytelen_exec(vals, 3) {
            Some(s) => s,
            None => {
                return Err(4);
            },
        },
        None => String::new(),
    };
    let tld: String = match &row[7] {
        Some(vals) => match pick_dot_exec(vals) {
            Some(s) => s,
            None => {
                return Err(7);
            },
        },
        None => String::new(),
    };
    Ok(WikipediaScrapedCountry { exonym, name, iso_3166_1_a2: a2, iso_3166_1_a3: a3, tld })
}

impl WikipediaScrapedCountry {
    /// Decodes the ISO 3166-1 country table of a parsed document.
    #[verifier::loop_isolation(false)]
    pub fn scrape(doc: &Document) -> (r: Result<Vec<Self>, ScrapeError>)
        ensures
            match (r, spec_scrape_countries(*doc)) {
                (Ok(v), Ok(sv)) => v.deep_view() == sv,
                (Err(e), Err(se)) => e == se,
                _ => false,
            },
    {
        let mut discard: Vec<usize> = Vec::new();
        discard.push(2);
        discard.push(5);
        discard.push(6);
        proof {
            assert(discard@ =~= seq![2usize, 5usize, 6usize]);
        }
        let tables = match table_scraper(doc, 8, &discard, None, CellExtractor::Common) {
            Ok(ts) => ts,
            Err(e) => {
                return Err(e);
            },
        };
        let ghost sts = tables_fold(
            doc.tables@,
            doc.tables@.len() as int,
            8,
            discard@,
            None,
            CellExtractor::Common,
        );
        if tables.len() != 1 {
            return Err(ScrapeError::TableCount);
        }
        proof {
            crate::extract::lemma_tables_fold_wf(
                doc.tables@,
                doc.tables@.len() as int,
                8,
                discard@,
                None,
                CellExtractor::Common,
            );
        }
        let t = &tables[0];
        let ghost tv = sts[0];
        proof {
            assert(t@ == tv);
        }
        let mut out: Vec<WikipediaScrapedCountry> = Vec::new();
        let mut k: usize = 0;
        proof {
            assert(out.deep_view() =~= Seq::<WikipediaScrapedCountryV>::empty());
        }
        loop
            invariant
                k <= t.rows@.len(),
                t.rows@.len() == tv.rows.len(),
                decode_country_rows(tv.rows, k as int) == Ok::<
                    Seq<WikipediaScrapedCountryV>,
                    usize,
                >(out.deep_view()),
            decreases t.rows@.len() - k,
        {
            if k == t.rows.len() {
                break;
            }
            proof {
                assert(t.rows@[k as int].deep_view() == tv.rows[k as int]);
                assert(tv.rows[k as int].len() == 8);
            }
            let ghost before = out.deep_view();
            match decode_country_row(&t.rows[k]) {
                Ok(rec) => {
                    out.push(rec);
                    proof {
                        assert(out.deep_view() =~= before.push(rec@));
                    }
                },
                Err(c) => {
                    proof {
                        lemma_decode_country_rows_err(tv.rows, k + 1, tv.rows.len() as int);
                    }
                    return Err(ScrapeError::MissingCell { col: c });
                },
            }
            k = k + 1;
        }
        Ok(out)
    }
}

// ---- the circulating-currencies table ----

/// An optional column read with `first_of`: absence, or no value, leaves the
/// field unset.
pub open spec fn opt_col_first(row: Seq<Option<Seq<Seq<char>>>>, i: usize) -> Option<Seq<char>> {
    match row[i as int] {
        Some(vals) => first_of(vals),
        None => None,
    }
}

pub open spec fn opt_col_currency_code(row: Seq<Option<Seq<Seq<char>>>>, i: usize) -> Option<
    Seq<char>,
> {
    match row[i as int] {
        Some(vals) => pick_currency_code(vals),
        None => None,
    }
}

/// One currency row: country and currency names are mandatory; symbol, code,
/// fraction and its count are optional, the count read as a decimal integer.
pub open spec fn spec_decode_currency_row(row: Seq<Option<Seq<Seq<char>>>>) -> Result<
    WikipediaScrapedCurrencyV,
    usize,
> {
    if col_first(row, 0) is Err {
        Err(0usize)
    } else if col_first(row, 1) is Err {
        Err(1usize)
    } else {
        Ok(
            WikipediaScrapedCurrencyV {
                exonym: ok_of(col_first(row, 0)),
                name: ok_of(col_first(row, 1)),
                symbol: opt_col_first(row, 2),
                iso_4217: opt_col_currency_code(row, 3),
                fraction: opt_col_first(row, 4),
                fractions_in_unit: match opt_col_first(row, 5) {
                    Some(s) => spec_parse_i32(s),
                    None => None,
                },
            },
        )
    }
}

pub open spec fn decode_currency_rows(rows: Seq<Seq<Option<Seq<Seq<char>>>>>, n: int) -> Result<
    Seq<WikipediaScrapedCurrencyV>,
    usize,
>
    decreases n,
{
    if n <= 0 {
        Ok(Seq::empty())
    } else {
        match decode_currency_rows(rows, n - 1) {
            Err(e) => Err(e),
            Ok(prev) => match spec_decode_currency_row(rows[n - 1]) {
                Err(e) => Err(e),
                Ok(rec) => Ok(prev.push(rec)),
            },
        }
    }
}

proof fn lemma_decode_currency_rows_err(rows: Seq<Seq<Option<Seq<Seq<char>>>>>, m: int, n: int)
    requires
        0 <= m <= n,
        decode_currency_rows(rows, m) is Err,
    ensures
        decode_currency_rows(rows, n) == decode_currency_rows(rows, m),
    decreases n - m,
{
    if n > m {
        lemma_decode_currency_rows_err(rows, m, n - 1);
    }
}

/// What the currency source yields: exactly one six-column table, every row
/// decoded.
pub open spec fn spec_scrape_currencies(doc: Document) -> Result<
    Seq<WikipediaScrapedCurrencyV>,
    ScrapeError,
> {
    match spec_table_scraper(doc, 6, Seq::empty(), None, CellExtractor::Common) {
        Err(e) => Err(e),
        Ok(ts) => if ts.len() != 1 {
            Err(ScrapeError::TableCount)
        } else {
            match decode_currency_rows(ts[0].rows, ts[0].rows.len() as int) {
                Err(c) => Err(ScrapeError::MissingCell { col: c }),
                Ok(recs) => Ok(recs),
            }
        },
    }
}

#[verifier::loop_isolation(false)]
fn decode_currency_row(row: &Vec<Option<Vec<String>>>) -> (r: Result<
    WikipediaScrapedCurrency,
    usize,
>)
    requires
        row@.len() == 6,
    ensures
        match (r, spec_decode_currency_row(row.deep_view())) {
            (Ok(rec), Ok(srec)) => rec@ == srec,
            (Err(c), Err(sc)) => c == sc,
            _ => false,
        },
{
    let exonym: String = match &row[0] {
        Some(vals) => match pick_first(vals) {
            Some(s) => s,
            None => {
                return Err(0);
            },
        },
        None => String::new(),
    };
    let name: String = match &row[1] {
        Some(vals) => match pick_first(vals) {
            Some(s) => s,
            None => {
                return Err(1);
            },
        },
        None => String::new(),
    };
    let symbol: Option<String> = match &row[2] {
        Some(vals) => pick_first(vals),
        None => None,
    };
    let iso_4217: Option<String> = match &row[3] {
        Some(vals) => pick_currency_code_exec(vals),
        None => None,
    };
    let fraction: Option<String> = match &row[4] {
        Some(vals) => pick_first(vals),
        None => None,
    };
    let fractions_in_unit: Option<i32> = match &row[5] {
        Some(vals) => match pick_first(vals) {
            Some(s) => parse_i32(s.as_str()),
            None => None,
        },
        None => None,
    };
    Ok(WikipediaScrapedCurrency { exonym, name, iso_4217, symbol, fraction, fractions_in_unit })
}

impl WikipediaScrapedCurrency {
    /// Decodes the circulating-currencies table of a parsed document.
    #[verifier::loop_isolation(false)]
    pub fn scrape(doc: &Document) -> (r: Result<Vec<Self>, ScrapeError>)
        ensures
            match (r, spec_scrape_currencies(*doc)) {
                (Ok(v), Ok(sv)) => v.deep_view() == sv,
                (Err(e), Err(se)) => e == se,
                _ => false,
            },
    {
        let discard: Vec<usize> = Vec::new();
        proof {
            assert(discard@ =~= Seq::<usize>::empty());
        }
        let tables = match table_scraper(doc, 6, &discard, None, CellExtractor::Common) {
            Ok(ts) => ts,
            Err(e) => {
                return Err(e);
            },
        };
        let ghost sts = tables_fold(
            doc.tables@,
            doc.tables@.len() as int,
            6,
            discard@,
            None,
            CellExtractor::Common,
        );
        if tables.len() != 1 {
            return Err(ScrapeError::TableCount);
        }
        proof {
            crate::extract::lemma_tables_fold_wf(
                doc.tables@,
                doc.tables@.len() as int,
                6,
                discard@,
                None,
                CellExtractor::Common,
            );
        }
        let t = &tables[0];
        let ghost tv = sts[0];
        proof {
            assert(t@ == tv);
        }
        let mut out: Vec<WikipediaScrapedCurrency> = Vec::new();
        let mut k: usize = 0;
        proof {
            assert(out.deep_view() =~= Seq::<WikipediaScrapedCurrencyV>::empty());
        }
        loop
            invariant
                k <= t.rows@.len(),
                t.rows@.len() == tv.rows.len(),
                decode_currency_rows(tv.rows, k as int) == Ok::<
                    Seq<WikipediaScrapedCurrencyV>,
                    usize,
                >(out.deep_view()),
            decreases t.rows@.len() - k,
        {
            if k == t.rows.len() {
                break;
            }
            proof {
                assert(t.rows@[k as int].deep_view() == tv.rows[k as int]);
                assert(tv.rows[k as int].len() == 6);
            }
            let ghost before = out.deep_view();
            match decode_currency_row(&t.rows[k]) {
                Ok(rec) => {
                    out.push(rec);
                    proof {
                        assert(out.deep_view() =~= before.push(rec@));
                    }
                },
                Err(c) => {
                    proof {
                        lemma_decode_currency_rows_err(tv.rows, k + 1, tv.rows.len() as int);
                    }
                    return Err(ScrapeError::MissingCell { col: c });
                },
            }
            k = k + 1;
        }
        Ok(out)
    }
}

// ---- the flag table ----

/// One flag row: the flag itself and a two-byte country code, both mandatory.
pub open spec fn spec_decode_flag_row(row: Seq<Option<Seq<Seq<char>>>>) -> Result<
    WikipediaScrapedFlagV,
    usize,
> {
    if col_first(row, 0) is Err {
        Err(0usize)
    } else if col_findlen(row, 1, 2) is Err {
        Err(1usize)
    } else {
        Ok(
            WikipediaScrapedFlagV {
                flag: ok_of(col_first(row, 0)),
                iso_3166_1_a2: ok_of(col_findlen(row, 1, 2)),
            },
        )
    }
}

pub open spec fn decode_flag_rows(rows: Seq<Seq<Option<Seq<Seq<char>>>>>, n: int) -> Result<
    Seq<WikipediaScrapedFlagV>,
    usize,
>
    decreases n,
{
    if n <= 0 {
        Ok(Seq::empty())
    } else {
        match decode_flag_rows(rows, n - 1) {
            Err(e) => Err(e),
            Ok(prev) => match spec_decode_flag_row(rows[n - 1]) {
                Err(e) => Err(e),
                Ok(rec) => Ok(prev.push(rec)),
            },
        }
    }
}

proof fn lemma_decode_flag_rows_err(rows: Seq<Seq<Option<Seq<Seq<char>>>>>, m: int, n: int)
    requires
        0 <= m <= n,
        decode_flag_rows(rows, m) is Err,
    ensures
        decode_flag_rows(rows, n) == decode_flag_rows(rows, m),
    decreases n - m,
{
    if n > m {
        lemma_decode_flag_rows_err(rows, m, n - 1);
    }
}

/// What the flag source yields: exactly one four-column table with its two
/// trailing columns discarded, every row decoded.
pub open spec fn spec_scrape_flags(doc: Document) -> Result<
    Seq<WikipediaScrapedFlagV>,
    ScrapeError,
> {
    match spec_table_scraper(doc, 4, seq![2usize, 3usize], None, CellExtractor::Common) {
        Err(e) => Err(e),
        Ok(ts) => if ts.len() != 1 {
            Err(ScrapeError::TableCount)
        } else {
            match decode_flag_rows(ts[0].rows, ts[0].rows.len() as int) {
                Err(c) => Err(ScrapeError::MissingCell { col: c }),
                Ok(recs) => Ok(recs),
            }
        },
    }
}

#[verifier::loop_isolation(false)]
fn decode_flag_row(row: &Vec<Option<Vec<String>>>) -> (r: Result<WikipediaScrapedFlag, usize>)
    requires
        row@.len() == 4,
    ensures
        match (r, spec_decode_flag_row(row.deep_view())) {
            (Ok(rec), Ok(srec)) => rec@ == srec,
            (Err(c), Err(sc)) => c == sc,
            _ => false,
        },
{
    let flag: String = match &row[0] {
        Some(vals) => match pick_first(vals) {
            Some(s) => s,
            None => {
                return Err(0);
            },
        },
        None => String::new(),
    };
    let a2: String = match &row[1] {
        Some(vals) => match find_bytelen(vals, 2) {
            Some(s) => s,
            None => {
                return Err(1);
            },
        },
        None => String::new(),
    };
    Ok(WikipediaScrapedFlag { iso_3166_1_a2: a2, flag })
}

impl WikipediaScrapedFlag {
    /// Decodes the regional-indicator flag table of a parsed document.
    #[verifier::loop_isolation(false)]
    pub fn scrape(doc: &Document) -> (r: Result<Vec<Self>, ScrapeError>)
        ensures
            match (r, spec_scrape_flags(*doc)) {
                (Ok(v), Ok(sv)) => v.deep_view() == sv,
                (Err(e), Err(se)) => e == se,
                _ => false,
            },
    {
        let mut discard: Vec<usize> = Vec::new();
        discard.push(2);
        discard.push(3);
        proof {
            assert(discard@ =~= seq![2usize, 3usize]);
        }
        let tables = match table_scraper(doc, 4, &discard, None, CellExtractor::Common) {
            Ok(ts) => ts,
            Err(e) => {
                return Err(e);
            },
        };
        let ghost sts = tables_fold(
            doc.tables@,
            doc.tables@.len() as int,
            4,
            discard@,
            None,
            CellExtractor::Common,
        );
        if tables.len() != 1 {
            return Err(ScrapeError::TableCount);
        }
        proof {
            crate::extract::lemma_tables_fold_wf(
                doc.tables@,
                doc.tables@.len() as int,
                4,
                discard@,
                None,
                CellExtractor::Common,
            );
        }
        let t = &tables[0];
        let ghost tv = sts[0];
        proof {
            assert(t@ == tv);
        }
        let mut out: Vec<WikipediaScrapedFlag> = Vec::new();
        let mut k: usize = 0;
        proof {
            assert(out.deep_view() =~= Seq::<WikipediaScrapedFlagV>::empty());
        }
        loop
            invariant
                k <= t.rows@.len(),
                t.rows@.len() == tv.rows.len(),
                decode_flag_rows(tv.rows, k as int) == Ok::<Seq<WikipediaScrapedFlagV>, usize>(
                    out.deep_view(),
                ),
            decreases t.rows@.len() - k,
        {
            if k == t.rows.len() {
                break;
            }
            proof {
                assert(t.rows@[k as int].deep_view() == tv.rows[k as int]);
                assert(tv.rows[k as int].len() == 4);
            }
            let ghost before = out.deep_view();
            match decode_flag_row(&t.rows[k]) {
                Ok(rec) => {
                    out.push(rec);
                    proof {
                        assert(out.deep_view() =~= before.push(rec@));
                    }
                },
                Err(c) => {
                    proof {
                        lemma_decode_flag_rows_err(tv.rows, k + 1, tv.rows.len() as int);
                    }
                    return Err(ScrapeError::MissingCell { col: c });
                },
            }
            k = k + 1;
        }
        Ok(out)
    }
}

// ---- the calling-code/time-zone tables ----

/// A table takes part only when its first three headers speak of a country, a
/// code and a zone, case-insensitively.
pub open spec fn cctz_header_match(hs: Seq<Option<Seq<char>>>) -> bool {
    &&& match hs[0] {
        Some(h) => contains_sub(lower_of(h), "country"@),
        None => false,
    }
    &&& match hs[1] {
        Some(h) => contains_sub(lower_of(h), "code"@),
        None => false,
    }
    &&& match hs[2] {
        Some(h) => contains_sub(lower_of(h), "zone"@),
        None => false,
    }
}

pub open spec fn cctz_dst_of(row: Seq<Option<Seq<Seq<char>>>>) -> Option<Seq<char>> {
    match row[3] {
        Some(vals) => match first_of(vals) {
            Some(s) => if s.len() == 0 {
                None
            } else {
                Some(s)
            },
            None => None,
        },
        None => None,
    }
}

/// One calling-code row: the country name takes the cell's last value, the
/// code its first; a row without a time zone is a dependency without its own
/// code and is dropped whole.
pub open spec fn spec_decode_cctz_row(row: Seq<Option<Seq<Seq<char>>>>) -> Result<
    Option<WikipediaScrapedCcTzV>,
    usize,
> {
    if col_last(row, 0) is Err {
        Err(0usize)
    } else if col_first(row, 1) is Err {
        Err(1usize)
    } else {
        let exonym = ok_of(col_last(row, 0));
        let code = ok_of(col_first(row, 1));
        match row[2] {
            Some(vals) => match first_of(vals) {
                None => Ok(None),
                Some(tz) => if tz.len() == 0 {
                    Ok(None)
                } else {
                    Ok(
                        Some(
                            WikipediaScrapedCcTzV { exonym, code, tz, dst: cctz_dst_of(row) },
                        ),
                    )
                },
            },
            None => Ok(
                Some(
                    WikipediaScrapedCcTzV {
                        exonym,
                        code,
                        tz: Seq::empty(),
                        dst: cctz_dst_of(row),
                    },
                ),
            ),
        }
    }
}

pub open spec fn decode_cctz_rows(rows: Seq<Seq<Option<Seq<Seq<char>>>>>, n: int) -> Result<
    Seq<WikipediaScrapedCcTzV>,
    usize,
>
    decreases n,
{
    if n <= 0 {
        Ok(Seq::empty())
    } else {
        match decode_cctz_rows(rows, n - 1) {
            Err(e) => Err(e),
            Ok(prev) => match spec_decode_cctz_row(rows[n - 1]) {
                Err(e) => Err(e),
                Ok(None) => Ok(prev),
                Ok(Some(rec)) => Ok(prev.push(rec)),
            },
        }
    }
}

pub open spec fn decode_cctz_tables(ts: Seq<TableV>, n: int) -> Result<
    Seq<WikipediaScrapedCcTzV>,
    usize,
>
    decreases n,
{
    if n <= 0 {
        Ok(Seq::empty())
    } else {
        match decode_cctz_tables(ts, n - 1) {
            Err(e) => Err(e),
            Ok(prev) => if cctz_header_match(ts[n - 1].headers) {
                match decode_cctz_rows(ts[n - 1].rows, ts[n - 1].rows.len() as int) {
                    Err(e) => Err(e),
                    Ok(rs) => Ok(prev + rs),
                }
            } else {
                Ok(prev)
            },
        }
    }
}

/// What the calling-code source yields: every four-column table whose headers
/// match, their kept rows in document order.
pub open spec fn spec_scrape_cctz(doc: Document) -> Result<
    Seq<WikipediaScrapedCcTzV>,
    ScrapeError,
> {
    match spec_table_scraper(doc, 4, Seq::empty(), None, CellExtractor::Common) {
        Err(e) => Err(e),
        Ok(ts) => match decode_cctz_tables(ts, ts.len() as int) {
            Err(c) => Err(ScrapeError::MissingCell { col: c }),
            Ok(recs) => Ok(recs),
        },
    }
}

#[verifier::loop_isolation(false)]
fn decode_cctz_row(row: &Vec<Option<Vec<String>>>) -> (r: Result<
    Option<WikipediaScrapedCcTz>,
    usize,
>)
    requires
        row@.len() == 4,
    ensures
        match (r, spec_decode_cctz_row(row.deep_view())) {
            (Ok(Some(rec)), Ok(Some(srec))) => rec@ == srec,
            (Ok(None), Ok(None)) => true,
            (Err(c), Err(sc)) => c == sc,
            _ => false,
        },
{
    let exonym: String = match &row[0] {
        Some(vals) => match pick_last(vals) {
            Some(s) => s,
            None => {
                return Err(0);
            },
        },
        None => String::new(),
    };
    let code: String = match &row[1] {
        Some(vals) => match pick_first(vals) {
            Some(s) => s,
            None => {
                return Err(1);
            },
        },
        None => String::new(),
    };
    let dst: Option<String> = match &row[3] {
        Some(vals) => match pick_first(vals) {
            Some(s) => {
                if s.as_str().is_empty() {
                    None
                } else {
                    Some(s)
                }
            },
            None => None,
        },
        None => None,
    };
    let tz: String = match &row[2] {
        Some(vals) => match pick_first(vals) {
            Some(s) => {
                if s.as_str().is_empty() {
                    return Ok(None);
                } else {
                    s
                }
            },
            None => {
                return Ok(None);
            },
        },
        None => String::new(),
    };
    Ok(Some(WikipediaScrapedCcTz { exonym, code, tz, dst }))
}

#[verifier::loop_isolation(false)]
fn cctz_table_matches(t: &Table) -> (r: bool)
    requires
        t@.headers.len() >= 3,
        t.headers@.len() == t@.headers.len(),
    ensures
        r == cctz_header_match(t@.headers),
{
    let country = match &t.headers[0] {
        Some(h) => str_contains(lowercase(h.as_str()).as_str(), "country"),
        None => false,
    };
    let code = match &t.headers[1] {
        Some(h) => str_contains(lowercase(h.as_str()).as_str(), "code"),
        None => false,
    };
    let zone = match &t.headers[2] {
        Some(h) => str_contains(lowercase(h.as_str()).as_str(), "zone"),
        None => false,
    };
    country && code && zone
}

impl WikipediaScrapedCcTz {
    /// Decodes the calling-code and time-zone tables of a parsed document.
    #[verifier::loop_isolation(false)]
    pub fn scrape(doc: &Document) -> (r: Result<Vec<Self>, ScrapeError>)
        ensures
            match (r, spec_scrape_cctz(*doc)) {
                (Ok(v), Ok(sv)) => v.deep_view() == sv,
                (Err(e), Err(se)) => e == se,
                _ => false,
            },
    {
        let discard: Vec<usize> = Vec::new();
        proof {
            assert(discard@ =~= Seq::<usize>::empty());
        }
        let tables = match table_scraper(doc, 4, &discard, None, CellExtractor::Common) {
            Ok(ts) => ts,
            Err(e) => {
                return Err(e);
            },
        };
        let ghost sts = tables_fold(
            doc.tables@,
            doc.tables@.len() as int,
            4,
            discard@,
            None,
            CellExtractor::Common,
        );
        proof {
            crate::extract::lemma_tables_fold_wf(
                doc.tables@,
                doc.tables@.len() as int,
                4,
                discard@,
                None,
                CellExtractor::Common,
            );
        }
        let mut out: Vec<WikipediaScrapedCcTz> = Vec::new();
        let mut g: usize = 0;
        proof {
            assert(out.deep_view() =~= Seq::<WikipediaScrapedCcTzV>::empty());
        }
        loop
            invariant
                g <= tables@.len(),
                tables.deep_view() == sts,
                decode_cctz_tables(sts, g as int) == Ok::<Seq<WikipediaScrapedCcTzV>, usize>(
                    out.deep_view(),
                ),
            decreases tables@.len() - g,
        {
            if g == tables.len() {
                break;
            }
            let t = &tables[g];
            let ghost tv = sts[g as int];
            proof {
                assert(t@ == tv);
            }
            if cctz_table_matches(t) {
                let mut k: usize = 0;
                let ghost prefix = out.deep_view();
                let mut sub: Vec<WikipediaScrapedCcTz> = Vec::new();
                proof {
                    assert(sub.deep_view() =~= Seq::<WikipediaScrapedCcTzV>::empty());
                }
                loop
                    invariant
                        k <= t.rows@.len(),
                        t.rows@.len() == tv.rows.len(),
                        decode_cctz_rows(tv.rows, k as int) == Ok::<
                            Seq<WikipediaScrapedCcTzV>,
                            usize,
                        >(sub.deep_view()),
                    decreases t.rows@.len() - k,
                {
                    if k == t.rows.len() {
                        break;
                    }
                    proof {
                        assert(t.rows@[k as int].deep_view() == tv.rows[k as int]);
                        assert(tv.rows[k as int].len() == 4);
                    }
                    let ghost before = sub.deep_view();
                    match decode_cctz_row(&t.rows[k]) {
                        Ok(Some(rec)) => {
                            sub.push(rec);
                            proof {
                                assert(sub.deep_view() =~= before.push(rec@));
                            }
                        },
                        Ok(None) => {},
                        Err(c) => {
                            proof {
                                lemma_decode_cctz_rows_err(tv.rows, k + 1, tv.rows.len() as int);
                                lemma_decode_cctz_tables_err(sts, g + 1, sts.len() as int);
                            }
                            return Err(ScrapeError::MissingCell { col: c });
                        },
                    }
                    k = k + 1;
                }
                let mut j: usize = 0;
                loop
                    invariant
                        j <= sub@.len(),
                        out.deep_view() == prefix + sub.deep_view().take(j as int),
                        sub@.len() == sub.deep_view().len(),
                    decreases sub@.len() - j,
                {
                    if j == sub.len() {
                        break;
                    }
                    let ghost before = out.deep_view();
                    let rec = sub[j].clone_record();
                    proof {
                        assert(sub.deep_view().take(j + 1) =~= sub.deep_view().take(j as int).push(
                            sub.deep_view()[j as int],
                        ));
                    }
                    out.push(rec);
                    proof {
                        assert(out.deep_view() =~= before.push(sub.deep_view()[j as int]));
                        assert(out.deep_view() =~= prefix + sub.deep_view().take(j + 1));
                    }
                    j = j + 1;
                }
                proof {
                    assert(sub.deep_view().take(sub@.len() as int) =~= sub.deep_view());
                }
            }
            g = g + 1;
        }
        Ok(out)
    }
}

proof fn lemma_decode_cctz_rows_err(rows: Seq<Seq<Option<Seq<Seq<char>>>>>, m: int, n: int)
    requires
        0 <= m <= n,
        decode_cctz_rows(rows, m) is Err,
    ensures
        decode_cctz_rows(rows, n) == decode_cctz_rows(rows, m),
    decreases n - m,
{
    if n > m {
        lemma_decode_cctz_rows_err(rows, m, n - 1);
    }
}

proof fn lemma_decode_cctz_tables_err(ts: Seq<TableV>, m: int, n: int)
    requires
        0 <= m <= n,
        decode_cctz_tables(ts, m) is Err,
    ensures
        decode_cctz_tables(ts, n) == decode_cctz_tables(ts, m),
    decreases n - m,
{
    if n > m {
        lemma_decode_cctz_tables_err(ts, m, n - 1);
    }
}

impl WikipediaScrapedCcTz {
    /// A field-for-field copy.
    pub fn clone_record(&self) -> (r: Self)
        ensures
            r@ == self@,
    {
        WikipediaScrapedCcTz {
            exonym: self.exonym.clone(),
            code: self.code.clone(),
            tz: self.tz.clone(),
            dst: match &self.dst {
                Some(s) => Some(s.clone()),
                None => None,
            },
        }
    }
}

// ---- the native-names tables ----

/// A table takes part only when its headers speak of exonyms, endonyms and
/// languages in the expected columns, case-insensitively.
pub open spec fn endo_header_match(hs: Seq<Option<Seq<char>>>) -> bool {
    &&& match hs[0] {
        Some(h) => contains_sub(lower_of(h), "exonym"@),
        None => false,
    }
    &&& match hs[1] {
        Some(h) => contains_sub(lower_of(h), "exonym"@),
        None => false,
    }
    &&& match hs[2] {
        Some(h) => contains_sub(lower_of(h), "endonym"@),
        None => false,
    }
    &&& match hs[4] {
        Some(h) => contains_sub(lower_of(h), "language"@),
        None => false,
    }
}

/// One native-names row: a row whose country or capital cell is present but
/// empty is dropped; the set columns take the whole cell.
pub open spec fn spec_decode_endo_row(row: Seq<Option<Seq<Seq<char>>>>) -> Option<
    WikipediaScrapedEndonymsV,
> {
    let skip0 = match row[0] {
        Some(vals) => vals.len() == 0,
        None => false,
    };
    let skip1 = match row[1] {
        Some(vals) => vals.len() == 0,
        None => false,
    };
    if skip0 || skip1 {
        None
    } else {
        Some(
            WikipediaScrapedEndonymsV {
                exonym: match row[0] {
                    Some(vals) => vals[0],
                    None => Seq::empty(),
                },
                capital: match row[1] {
                    Some(vals) => vals[0],
                    None => Seq::empty(),
                },
                endonyms: match row[2] {
                    Some(vals) => vals,
                    None => Seq::empty(),
                },
                languages: match row[4] {
                    Some(vals) => vals,
                    None => Seq::empty(),
                },
            },
        )
    }
}

pub open spec fn decode_endo_rows(rows: Seq<Seq<Option<Seq<Seq<char>>>>>, n: int) -> Seq<
    WikipediaScrapedEndonymsV,
>
    decreases n,
{
    if n <= 0 {
        Seq::empty()
    } else {
        let prev = decode_endo_rows(rows, n - 1);
        match spec_decode_endo_row(rows[n - 1]) {
            Some(rec) => prev.push(rec),
            None => prev,
        }
    }
}

pub open spec fn decode_endo_tables(ts: Seq<TableV>, n: int) -> Seq<WikipediaScrapedEndonymsV>
    decreases n,
{
    if n <= 0 {
        Seq::empty()
    } else {
        let prev = decode_endo_tables(ts, n - 1);
        if endo_header_match(ts[n - 1].headers) {
            prev + decode_endo_rows(ts[n - 1].rows, ts[n - 1].rows.len() as int)
        } else {
            prev
        }
    }
}

/// What the native-names source yields: one table per alphabet letter, each
/// filtered by its headers, their kept rows in document order.
pub open spec fn spec_scrape_endonyms(doc: Document) -> Result<
    Seq<WikipediaScrapedEndonymsV>,
    ScrapeError,
> {
    match spec_table_scraper(doc, 5, seq![3usize], None, CellExtractor::EndonymLang) {
        Err(e) => Err(e),
        Ok(ts) => Ok(decode_endo_tables(ts, ts.len() as int)),
    }
}

#[verifier::loop_isolation(false)]
fn decode_endo_row(row: &Vec<Option<Vec<String>>>) -> (r: Option<WikipediaScrapedEndonyms>)
    requires
        row@.len() == 5,
    ensures
        match (r, spec_decode_endo_row(row.deep_view())) {
            (Some(rec), Some(srec)) => rec@ == srec,
            (None, None) => true,
            _ => false,
        },
{
    let exonym: String = match &row[0] {
        Some(vals) => {
            if vals.len() == 0 {
                return None;
            }
            vals[0].clone()
        },
        None => String::new(),
    };
    let capital: String = match &row[1] {
        Some(vals) => {
            if vals.len() == 0 {
                return None;
            }
            vals[0].clone()
        },
        None => String::new(),
    };
    let endonyms: Vec<String> = match &row[2] {
        Some(vals) => crate::sorted::clone_strings(vals),
        None => Vec::new(),
    };
    let languages: Vec<String> = match &row[4] {
        Some(vals) => crate::sorted::clone_strings(vals),
        None => Vec::new(),
    };
    proof {
        if row.deep_view()[2] is None {
            assert(endonyms.deep_view() =~= Seq::<Seq<char>>::empty());
        }
        if row.deep_view()[4] is None {
            assert(languages.deep_view() =~= Seq::<Seq<char>>::empty());
        }
    }
    Some(WikipediaScrapedEndonyms { exonym, capital, endonyms, languages })
}

#[verifier::loop_isolation(false)]
fn endo_table_matches(t: &Table) -> (r: bool)
    requires
        t@.headers.len() == 5,
        t.headers@.len() == t@.headers.len(),
    ensures
        r == endo_header_match(t@.headers),
{
    let country = match &t.headers[0] {
        Some(h) => str_contains(lowercase(h.as_str()).as_str(), "exonym"),
        None => false,
    };
    let capital = match &t.headers[1] {
        Some(h) => str_contains(lowercase(h.as_str()).as_str(), "exonym"),
        None => false,
    };
    let endonym = match &t.headers[2] {
        Some(h) => str_contains(lowercase(h.as_str()).as_str(), "endonym"),
        None => false,
    };
    let lang = match &t.headers[4] {
        Some(h) => str_contains(lowercase(h.as_str()).as_str(), "language"),
        None => false,
    };
    country && capital && endonym && lang
}

impl WikipediaScrapedEndonyms {
    /// A field-for-field copy.
    pub fn clone_record(&self) -> (r: Self)
        ensures
            r@ == self@,
    {
        WikipediaScrapedEndonyms {
            exonym: self.exonym.clone(),
            capital: self.capital.clone(),
            endonyms: crate::sorted::clone_strings(&self.endonyms),
            languages: crate::sorted::clone_strings(&self.languages),
        }
    }

    /// Decodes the native-names tables of a parsed document.
    #[verifier::loop_isolation(false)]
    pub fn scrape(doc: &Document) -> (r: Result<Vec<Self>, ScrapeError>)
        ensures
            match (r, spec_scrape_endonyms(*doc)) {
                (Ok(v), Ok(sv)) => v.deep_view() == sv,
                (Err(e), Err(se)) => e == se,
                _ => false,
            },
    {
        let mut discard: Vec<usize> = Vec::new();
        discard.push(3);
        proof {
            assert(discard@ =~= seq![3usize]);
        }
        let tables = match table_scraper(doc, 5, &discard, None, CellExtractor::EndonymLang) {
            Ok(ts) => ts,
            Err(e) => {
                return Err(e);
            },
        };
        let ghost sts = tables_fold(
            doc.tables@,
            doc.tables@.len() as int,
            5,
            discard@,
            None,
            CellExtractor::EndonymLang,
        );
        proof {
            crate::extract::lemma_tables_fold_wf(
                doc.tables@,
                doc.tables@.len() as int,
                5,
                discard@,
                None,
                CellExtractor::EndonymLang,
            );
        }
        let mut out: Vec<WikipediaScrapedEndonyms> = Vec::new();
        let mut g: usize = 0;
        proof {
            assert(out.deep_view() =~= Seq::<WikipediaScrapedEndonymsV>::empty());
        }
        loop
            invariant
                g <= tables@.len(),
                tables.deep_view() == sts,
                out.deep_view() == decode_endo_tables(sts, g as int),
            decreases tables@.len() - g,
        {
            if g == tables.len() {
                break;
            }
            let t = &tables[g];
            let ghost tv = sts[g as int];
            proof {
                assert(t@ == tv);
            }
            if endo_table_matches(t) {
                let mut k: usize = 0;
                let ghost prefix = out.deep_view();
                loop
                    invariant
                        k <= t.rows@.len(),
                        t.rows@.len() == tv.rows.len(),
                        out.deep_view() == prefix + decode_endo_rows(tv.rows, k as int),
                    decreases t.rows@.len() - k,
                {
                    if k == t.rows.len() {
                        break;
                    }
                    proof {
                        assert(t.rows@[k as int].deep_view() == tv.rows[k as int]);
                        assert(tv.rows[k as int].len() == 5);
                    }
                    let ghost before = out.deep_view();
                    match decode_endo_row(&t.rows[k]) {
                        Some(rec) => {
                            out.push(rec);
                            proof {
                                assert(out.deep_view() =~= before.push(rec@));
                                assert(out.deep_view() =~= prefix + decode_endo_rows(
                                    tv.rows,
                                    k + 1,
                                ));
                            }
                        },
                        None => {},
                    }
                    k = k + 1;
                }
            }
            g = g + 1;
        }
        proof {
            assert(out.deep_view() =~= decode_endo_tables(sts, sts.len() as int));
        }
        Ok(out)
    }
}

} // verus!
