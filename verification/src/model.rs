//! The canonical `Country` record and its field-level merge rules: scalar
//! fields fill at most once, the exonym may be replaced with its old value
//! demoted to the endonyms, and the set fields merge as sorted,
//! duplicate-free unions that never hold the current exonym.

use vstd::prelude::*;
use vstd::string::*;
use crate::datahub::{DatahubCountry, DatahubCurrency, DatahubCurrencyV};
use crate::sorted::{
    lemma_merge_names_facts, lemma_merge_names_idempotent, lemma_remove_val_facts,
    lemma_sorted_insert_facts, lemma_sorted_insert_sorted, merge_names, merge_names_into,
    remove_matching, remove_val, sorted_insert, str_eq, strictly_sorted, insert_sorted,
};
use crate::text::starts_with;
use crate::text::str_starts_with;
use crate::wikipedia::{
    WikipediaScrapedCcTz, WikipediaScrapedCcTzV, WikipediaScrapedCountry,
    WikipediaScrapedCountryV, WikipediaScrapedCurrency, WikipediaScrapedCurrencyV,
    WikipediaScrapedEndonyms, WikipediaScrapedEndonymsV,
};

verus! {

/// A country's currency; fields beyond the name are filled as sources supply
/// them, each at most once.
#[derive(Debug, Clone)]
pub struct Currency {
    pub name: String,
    pub iso_4217: Option<String>,
    pub symbol: Option<String>,
    pub fraction: Option<String>,
    pub fractions_in_unit: Option<i32>,
}

#[verifier::ext_equal]
pub struct CurrencyV {
    pub name: Seq<char>,
    pub iso_4217: Option<Seq<char>>,
    pub symbol: Option<Seq<char>>,
    pub fraction: Option<Seq<char>>,
    pub fractions_in_unit: Option<i32>,
}

impl View for Currency {
    type V = CurrencyV;

    open spec fn view(&self) -> CurrencyV {
        CurrencyV {
            name: self.name@,
            iso_4217: self.iso_4217.deep_view(),
            symbol: self.symbol.deep_view(),
            fraction: self.fraction.deep_view(),
            fractions_in_unit: self.fractions_in_unit,
        }
    }
}

/// A country's single time zone and its daylight-saving note.
#[derive(Debug, Clone)]
pub struct Time {
    pub zone: String,
    pub dst: Option<String>,
}

#[verifier::ext_equal]
pub struct TimeV {
    pub zone: Seq<char>,
    pub dst: Option<Seq<char>>,
}

impl View for Time {
    type V = TimeV;

    open spec fn view(&self) -> TimeV {
        TimeV { zone: self.zone@, dst: self.dst.deep_view() }
    }
}

/// The canonical per-country record.
#[derive(Debug, Clone)]
pub struct Country {
    pub exonym: String,
    pub name: String,
    pub capital: Option<String>,
    pub iso_3166_1_a3: Option<String>,
    pub tld: Option<String>,
    pub flag: Option<String>,
    pub currency: Option<Currency>,
    pub time: Option<Time>,
    pub calling_code: Option<String>,
    pub endonyms: Option<Vec<String>>,
    pub languages: Option<Vec<String>>,
}

#[verifier::ext_equal]
pub struct CountryV {
    pub exonym: Seq<char>,
    pub name: Seq<char>,
    pub capital: Option<Seq<char>>,
    pub iso_3166_1_a3: Option<Seq<char>>,
    pub tld: Option<Seq<char>>,
    pub flag: Option<Seq<char>>,
    pub currency: Option<CurrencyV>,
    pub time: Option<TimeV>,
    pub calling_code: Option<Seq<char>>,
    pub endonyms: Option<Seq<Seq<char>>>,
    pub languages: Option<Seq<Seq<char>>>,
}

impl View for Country {
    type V = CountryV;

    open spec fn view(&self) -> CountryV {
        CountryV {
            exonym: self.exonym@,
            name: self.name@,
            capital: self.capital.deep_view(),
            iso_3166_1_a3: self.iso_3166_1_a3.deep_view(),
            tld: self.tld.deep_view(),
            flag: self.flag.deep_view(),
            currency: match self.currency {
                Some(c) => Some(c@),
                None => None,
            },
            time: match self.time {
                Some(t) => Some(t@),
                None => None,
            },
            calling_code: self.calling_code.deep_view(),
            endonyms: match self.endonyms {
                Some(e) => Some(e.deep_view()),
                None => None,
            },
            languages: match self.languages {
                Some(l) => Some(l.deep_view()),
                None => None,
            },
        }
    }
}

/// Both set fields are strictly sorted and never empty when present, and the
/// endonyms never hold the current exonym.
pub open spec fn country_wf(c: CountryV) -> bool {
    &&& match c.endonyms {
        Some(e) => strictly_sorted(e) && e.len() > 0 && !e.contains(c.exonym),
        None => true,
    }
    &&& match c.languages {
        Some(l) => strictly_sorted(l) && l.len() > 0,
        None => true,
    }
}

/// A fresh entity from an identity-table row: the top-level domain is kept
/// only when it looks like one.
pub open spec fn spec_from_wikipedia(item: WikipediaScrapedCountryV) -> CountryV {
    CountryV {
        exonym: item.exonym,
        name: item.name,
        capital: None,
        iso_3166_1_a3: Some(item.iso_3166_1_a3),
        tld: if starts_with(item.tld, "."@) {
            Some(item.tld)
        } else {
            None
        },
        flag: None,
        currency: None,
        time: None,
        calling_code: None,
        endonyms: None,
        languages: None,
    }
}

/// A fallback entity from a country-list record: its name serves as both
/// exonym and official name.
pub open spec fn spec_from_country_list(item: crate::datahub::DatahubCountryV) -> CountryV {
    CountryV {
        exonym: item.name,
        name: item.name,
        capital: None,
        iso_3166_1_a3: None,
        tld: None,
        flag: None,
        currency: None,
        time: None,
        calling_code: None,
        endonyms: None,
        languages: None,
    }
}

/// The currency merge: created whole on first encounter, afterwards each
/// still-unset field fills from the incoming record.
pub open spec fn spec_add_wikipedia_currency(
    c: CountryV,
    item: WikipediaScrapedCurrencyV,
) -> CountryV {
    let base = match c.currency {
        Some(cur) => cur,
        None => CurrencyV {
            name: item.name,
            iso_4217: item.iso_4217,
            symbol: item.symbol,
            fraction: item.fraction,
            fractions_in_unit: item.fractions_in_unit,
        },
    };
    let merged = CurrencyV {
        name: base.name,
        iso_4217: if base.iso_4217 is None {
            item.iso_4217
        } else {
            base.iso_4217
        },
        symbol: if base.symbol is None {
            item.symbol
        } else {
            base.symbol
        },
        fraction: if base.fraction is None {
            item.fraction
        } else {
            base.fraction
        },
        fractions_in_unit: if base.fractions_in_unit is None {
            item.fractions_in_unit
        } else {
            base.fractions_in_unit
        },
    };
    CountryV { currency: Some(merged), ..c }
}

/// The currency-list merge: a record lacking both a name and an ISO 4217
/// code identifies nothing and is discarded; any identifying field present
/// creates the currency, and afterwards only a missing code fills.
pub open spec fn spec_add_currency_from_list(c: CountryV, item: DatahubCurrencyV) -> CountryV {
    match c.currency {
        Some(cur) => {
            let merged = CurrencyV {
                iso_4217: if cur.iso_4217 is None && item.iso_4217 is Some {
                    item.iso_4217
                } else {
                    cur.iso_4217
                },
                ..cur
            };
            CountryV { currency: Some(merged), ..c }
        },
        None => {
            if item.iso_4217 is None && item.name is None {
                c
            } else {
                CountryV {
                    currency: Some(
                        CurrencyV {
                            name: match item.name {
                                Some(nm) => nm,
                                None => Seq::empty(),
                            },
                            iso_4217: item.iso_4217,
                            symbol: None,
                            fraction: None,
                            fractions_in_unit: None,
                        },
                    ),
                    ..c
                }
            }
        },
    }
}

/// The calling-code/time-zone merge: both are replaced wholesale.
pub open spec fn spec_add_cc_tz(c: CountryV, item: WikipediaScrapedCcTzV) -> CountryV {
    CountryV {
        time: Some(TimeV { zone: item.tz, dst: item.dst }),
        calling_code: Some(item.code),
        ..c
    }
}

/// The native-names merge: the capital fills if absent; endonyms and
/// languages join their sorted unions, an incoming endonym equal to the
/// exonym left out.
pub open spec fn spec_add_endonyms_langs(c: CountryV, item: WikipediaScrapedEndonymsV) -> CountryV {
    let base_e = match c.endonyms {
        Some(e) => e,
        None => Seq::empty(),
    };
    let merged_e = merge_names(base_e, item.endonyms, Some(c.exonym));
    let base_l = match c.languages {
        Some(l) => l,
        None => Seq::empty(),
    };
    let merged_l = merge_names(base_l, item.languages, None);
    CountryV {
        capital: if c.capital is None {
            Some(item.capital)
        } else {
            c.capital
        },
        endonyms: if merged_e.len() == 0 {
            None
        } else {
            Some(merged_e)
        },
        languages: if merged_l.len() == 0 {
            None
        } else {
            Some(merged_l)
        },
        ..c
    }
}

/// The identity-listing name merge: a differing incoming name becomes the
/// exonym; a non-empty old exonym is demoted into the endonyms, from which
/// the new exonym is removed; the official name fills if empty.
pub open spec fn spec_adopt_listed_name(c: CountryV, name: Seq<char>) -> CountryV {
    let c1 = if c.exonym == name {
        c
    } else {
        let base = match c.endonyms {
            Some(e) => e,
            None => Seq::empty(),
        };
        let cleaned = remove_val(base, name);
        let demoted = if c.exonym.len() > 0 {
            sorted_insert(cleaned, c.exonym)
        } else {
            cleaned
        };
        CountryV {
            exonym: name,
            endonyms: if demoted.len() == 0 {
                None
            } else {
                Some(demoted)
            },
            ..c
        }
    };
    if c1.name.len() == 0 {
        CountryV { name: name, ..c1 }
    } else {
        c1
    }
}

impl Country {
    pub fn from_wikipedia(item: WikipediaScrapedCountry) -> (r: Self)
        ensures
            r@ == spec_from_wikipedia(item@),
            country_wf(r@),
    {
        let keeps_tld = str_starts_with(item.tld.as_str(), ".");
        Self {
            exonym: item.exonym,
            name: item.name,
            capital: None,
            iso_3166_1_a3: Some(item.iso_3166_1_a3),
            tld: if keeps_tld {
                Some(item.tld)
            } else {
                None
            },
            flag: None,
            currency: None,
            time: None,
            calling_code: None,
            endonyms: None,
            languages: None,
        }
    }

    pub fn from_country_list(item: DatahubCountry) -> (r: Self)
        ensures
            r@ == spec_from_country_list(item@),
            country_wf(r@),
    {
        let name = item.name;
        let exonym = name.clone();
        Self {
            exonym,
            name,
            capital: None,
            iso_3166_1_a3: None,
            tld: None,
            flag: None,
            currency: None,
            time: None,
            calling_code: None,
            endonyms: None,
            languages: None,
        }
    }

    pub fn add_wikipedia_currency(&mut self, item: WikipediaScrapedCurrency)
        requires
            country_wf(old(self)@),
        ensures
            final(self)@ == spec_add_wikipedia_currency(old(self)@, item@),
            country_wf(final(self)@),
    {
        let existing = self.currency.take();
        match existing {
            Some(mut cur) => {
                if cur.iso_4217.is_none() {
                    cur.iso_4217 = item.iso_4217;
                }
                if cur.symbol.is_none() {
                    cur.symbol = item.symbol;
                }
                if cur.fraction.is_none() {
                    cur.fraction = item.fraction;
                }
                if cur.fractions_in_unit.is_none() {
                    cur.fractions_in_unit = item.fractions_in_unit;
                }
                self.currency = Some(cur);
            },
            None => {
                self.currency = Some(
                    Currency {
                        name: item.name,
                        iso_4217: item.iso_4217,
                        symbol: item.symbol,
                        fraction: item.fraction,
                        fractions_in_unit: item.fractions_in_unit,
                    },
                );
            },
        }
    }

    pub fn add_currency_from_list(&mut self, item: DatahubCurrency)
        requires
            country_wf(old(self)@),
        ensures
            final(self)@ == spec_add_currency_from_list(old(self)@, item@),
            country_wf(final(self)@),
    {
        let existing = self.currency.take();
        match existing {
            Some(mut cur) => {
                if cur.iso_4217.is_none() && item.iso_4217.is_some() {
                    cur.iso_4217 = item.iso_4217;
                }
                self.currency = Some(cur);
            },
            None => {
                if item.iso_4217.is_some() || item.name.is_some() {
                    self.currency = Some(
                        Currency {
                            name: match item.name {
                                Some(nm) => nm,
                                None => String::new(),
                            },
                            iso_4217: item.iso_4217,
                            symbol: None,
                            fraction: None,
                            fractions_in_unit: None,
                        },
                    );
                }
            },
        }
    }

    pub fn add_wikipedia_cc_tz(&mut self, item: WikipediaScrapedCcTz)
        requires
            country_wf(old(self)@),
        ensures
            final(self)@ == spec_add_cc_tz(old(self)@, item@),
            country_wf(final(self)@),
    {
        self.time = Some(Time { zone: item.tz, dst: item.dst });
        self.calling_code = Some(item.code);
    }

    pub fn add_wikipedia_endonyms_langs(&mut self, item: WikipediaScrapedEndonyms)
        requires
            country_wf(old(self)@),
        ensures
            final(self)@ == spec_add_endonyms_langs(old(self)@, item@),
            country_wf(final(self)@),
    {
        if self.capital.is_none() {
            self.capital = Some(item.capital);
        }
        let ghost c0 = old(self)@;
        let mut endo: Vec<String> = match self.endonyms.take() {
            Some(v) => v,
            None => Vec::new(),
        };
        proof {
            assert(endo.deep_view() == match c0.endonyms {
                Some(e) => e,
                None => Seq::<Seq<char>>::empty(),
            }) by {
                if c0.endonyms is None {
                    assert(endo.deep_view() =~= Seq::<Seq<char>>::empty());
                }
            }
            lemma_merge_names_facts(endo.deep_view(), item.endonyms.deep_view(), Some(c0.exonym));
        }
        merge_names_into(&mut endo, &item.endonyms, Some(self.exonym.as_str()));
        if endo.len() > 0 {
            self.endonyms = Some(endo);
        }
        let mut langs: Vec<String> = match self.languages.take() {
            Some(v) => v,
            None => Vec::new(),
        };
        proof {
            assert(langs.deep_view() == match c0.languages {
                Some(l) => l,
                None => Seq::<Seq<char>>::empty(),
            }) by {
                if c0.languages is None {
                    assert(langs.deep_view() =~= Seq::<Seq<char>>::empty());
                }
            }
            lemma_merge_names_facts(langs.deep_view(), item.languages.deep_view(), None);
        }
        merge_names_into(&mut langs, &item.languages, None);
        if langs.len() > 0 {
            self.languages = Some(langs);
        }
        proof {
            assert(final(self)@ =~~= spec_add_endonyms_langs(c0, item@));
        }
    }

    /// Adopts the name a country-list record carries: overwrites a differing
    /// exonym, demoting the old one into the endonyms, and fills an empty
    /// official name.
    pub fn adopt_listed_name(&mut self, name: &str)
        requires
            country_wf(old(self)@),
        ensures
            final(self)@ == spec_adopt_listed_name(old(self)@, name@),
            country_wf(final(self)@),
    {
        let ghost c0 = old(self)@;
        if !str_eq(self.exonym.as_str(), name) {
            let old_endo: Vec<String> = match self.endonyms.take() {
                Some(v) => v,
                None => Vec::new(),
            };
            proof {
                assert(old_endo.deep_view() == match c0.endonyms {
                    Some(e) => e,
                    None => Seq::<Seq<char>>::empty(),
                }) by {
                    if c0.endonyms is None {
                        assert(old_endo.deep_view() =~= Seq::<Seq<char>>::empty());
                    }
                }
                lemma_remove_val_facts(old_endo.deep_view(), name@);
            }
            let mut endo = remove_matching(&old_endo, name);
            let mut prev: String = name.to_owned();
            core::mem::swap(&mut self.exonym, &mut prev);
            if !prev.as_str().is_empty() {
                proof {
                    lemma_sorted_insert_sorted(endo.deep_view(), prev@);
                    lemma_sorted_insert_facts(endo.deep_view(), prev@);
                }
                insert_sorted(&mut endo, prev);
            }
            if endo.len() > 0 {
                self.endonyms = Some(endo);
            }
        }
        if self.name.as_str().is_empty() {
            self.name = name.to_owned();
        }
        proof {
            assert(final(self)@ =~~= spec_adopt_listed_name(c0, name@));
        }
    }
}

/// Merged set fields are sorted, duplicate-free, and the merged endonyms
/// exclude the entity's exonym.
pub proof fn lemma_merged_set_fields_wf(c: CountryV, item: WikipediaScrapedEndonymsV)
    requires
        country_wf(c),
    ensures
        match spec_add_endonyms_langs(c, item).endonyms {
            Some(e) => strictly_sorted(e) && !e.contains(spec_add_endonyms_langs(c, item).exonym),
            None => true,
        },
        match spec_add_endonyms_langs(c, item).languages {
            Some(l) => strictly_sorted(l),
            None => true,
        },
        country_wf(spec_add_endonyms_langs(c, item)),
{
    let base_e = match c.endonyms {
        Some(e) => e,
        None => Seq::<Seq<char>>::empty(),
    };
    let base_l = match c.languages {
        Some(l) => l,
        None => Seq::<Seq<char>>::empty(),
    };
    lemma_merge_names_facts(base_e, item.endonyms, Some(c.exonym));
    lemma_merge_names_facts(base_l, item.languages, None);
}

/// Merging the same native-names record twice leaves what one merge built.
pub proof fn lemma_add_endonyms_langs_idempotent(c: CountryV, item: WikipediaScrapedEndonymsV)
    requires
        country_wf(c),
    ensures
        spec_add_endonyms_langs(spec_add_endonyms_langs(c, item), item) == spec_add_endonyms_langs(
            c,
            item,
        ),
{
    let base_e = match c.endonyms {
        Some(e) => e,
        None => Seq::<Seq<char>>::empty(),
    };
    let base_l = match c.languages {
        Some(l) => l,
        None => Seq::<Seq<char>>::empty(),
    };
    let c1 = spec_add_endonyms_langs(c, item);
    lemma_merge_names_facts(base_e, item.endonyms, Some(c.exonym));
    lemma_merge_names_facts(base_l, item.languages, None);
    let merged_e = merge_names(base_e, item.endonyms, Some(c.exonym));
    let merged_l = merge_names(base_l, item.languages, None);
    if merged_e.len() == 0 {
        if base_e.len() > 0 {
            assert(base_e.contains(base_e[0]));
            assert(merged_e.contains(base_e[0]));
            let i = choose|i: int| 0 <= i < merged_e.len() && merged_e[i] == base_e[0];
        }
        assert(base_e =~= Seq::<Seq<char>>::empty());
    } else {
        lemma_merge_names_idempotent(base_e, item.endonyms, Some(c.exonym));
    }
    if merged_l.len() == 0 {
        if base_l.len() > 0 {
            assert(base_l.contains(base_l[0]));
            assert(merged_l.contains(base_l[0]));
            let i = choose|i: int| 0 <= i < merged_l.len() && merged_l[i] == base_l[0];
        }
        assert(base_l =~= Seq::<Seq<char>>::empty());
    } else {
        lemma_merge_names_idempotent(base_l, item.languages, None);
    }
    assert(spec_add_endonyms_langs(c1, item) =~~= c1);
}

/// Merging the same currency row twice leaves what one merge built.
pub proof fn lemma_add_wikipedia_currency_idempotent(c: CountryV, item: WikipediaScrapedCurrencyV)
    ensures
        spec_add_wikipedia_currency(spec_add_wikipedia_currency(c, item), item)
            == spec_add_wikipedia_currency(c, item),
{
    let c1 = spec_add_wikipedia_currency(c, item);
    assert(spec_add_wikipedia_currency(c1, item) =~~= c1);
}

/// Merging the same currency-list record twice leaves what one merge built.
pub proof fn lemma_add_currency_from_list_idempotent(c: CountryV, item: DatahubCurrencyV)
    ensures
        spec_add_currency_from_list(spec_add_currency_from_list(c, item), item)
            == spec_add_currency_from_list(c, item),
{
    let c1 = spec_add_currency_from_list(c, item);
    assert(spec_add_currency_from_list(c1, item) =~~= c1);
}

/// Merging the same calling-code row twice leaves what one merge built.
pub proof fn lemma_add_cc_tz_idempotent(c: CountryV, item: WikipediaScrapedCcTzV)
    ensures
        spec_add_cc_tz(spec_add_cc_tz(c, item), item) == spec_add_cc_tz(c, item),
{
    let c1 = spec_add_cc_tz(c, item);
    assert(spec_add_cc_tz(c1, item) =~~= c1);
}

/// Adopting the same listed name twice leaves what one adoption built.
pub proof fn lemma_adopt_listed_name_idempotent(c: CountryV, name: Seq<char>)
    ensures
        spec_adopt_listed_name(spec_adopt_listed_name(c, name), name) == spec_adopt_listed_name(
            c,
            name,
        ),
{
    let c1 = spec_adopt_listed_name(c, name);
    assert(spec_adopt_listed_name(c1, name) =~~= c1);
}

/// A later identity-listing record that disagrees with a non-empty exonym
/// replaces it, and the old exonym survives among the endonyms.
pub proof fn lemma_exonym_replacement_preserves(c: CountryV, name: Seq<char>)
    requires
        country_wf(c),
        c.exonym != name,
        c.exonym.len() > 0,
    ensures
        spec_adopt_listed_name(c, name).exonym == name,
        match spec_adopt_listed_name(c, name).endonyms {
            Some(e) => e.contains(c.exonym),
            None => false,
        },
{
    let base = match c.endonyms {
        Some(e) => e,
        None => Seq::<Seq<char>>::empty(),
    };
    lemma_remove_val_facts(base, name);
    let cleaned = remove_val(base, name);
    lemma_sorted_insert_facts(cleaned, c.exonym);
    let demoted = sorted_insert(cleaned, c.exonym);
    assert(demoted.contains(c.exonym));
    assert(demoted.len() > 0) by {
        let i = choose|i: int| 0 <= i < demoted.len() && demoted[i] == c.exonym;
    }
}

} // verus!
