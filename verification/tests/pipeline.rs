use bubbles_lib::datahub::{DatahubCountry, DatahubCurrency};
use bubbles_lib::extract::{
    table_scraper, CellExtractor, CellNode, Document, LinkNode, RowNode, ScrapeError, TableNode,
};
use bubbles_lib::model::Country;
use bubbles_lib::reconcile::CountryMap;
use bubbles_lib::text::{parse_i32, str_contains};
use bubbles_lib::wikipedia::{
    WikipediaScrapedCcTz, WikipediaScrapedCountry, WikipediaScrapedCurrency,
    WikipediaScrapedEndonyms, WikipediaScrapedFlag,
};

fn text_cell(items: &[&str]) -> CellNode {
    CellNode {
        links: vec![],
        spans: vec![],
        text: items.iter().map(|s| s.to_string()).collect(),
    }
}

fn titled_link_cell(title: &str) -> CellNode {
    CellNode {
        links: vec![LinkNode {
            title: Some(title.to_string()),
            text: vec![],
        }],
        spans: vec![],
        text: vec![],
    }
}

fn header_row(labels: &[&str]) -> RowNode {
    RowNode {
        header_cells: labels.iter().map(|l| text_cell(&[l])).collect(),
        data_cells: vec![],
    }
}

fn data_row(cells: Vec<CellNode>) -> RowNode {
    RowNode {
        header_cells: vec![],
        data_cells: cells,
    }
}

fn country_table_doc(rows: Vec<RowNode>) -> Document {
    let mut all = vec![header_row(&[
        "Name", "Official name", "Sov", "A2", "A3", "Num", "Sub", "TLD",
    ])];
    all.extend(rows);
    Document {
        tables: vec![TableNode { rows: all }],
    }
}

fn japan_row() -> RowNode {
    data_row(vec![
        titled_link_cell("Japan"),
        text_cell(&["Japan"]),
        text_cell(&["UN member"]),
        text_cell(&["JP"]),
        text_cell(&["JPN"]),
        text_cell(&["392"]),
        text_cell(&["ISO 3166-2:JP"]),
        text_cell(&[".jp"]),
    ])
}

fn japan_map() -> CountryMap {
    let doc = country_table_doc(vec![japan_row()]);
    let recs = WikipediaScrapedCountry::scrape(&doc).unwrap();
    let mut map = CountryMap::new();
    map.merge_identity(&recs);
    map
}

#[test]
fn extraction_fails_without_tables() {
    let doc = Document { tables: vec![] };
    let discard: Vec<usize> = vec![];
    let r = table_scraper(&doc, 4, &discard, None, CellExtractor::Common);
    assert!(matches!(r, Err(ScrapeError::NoTables)));
    let r2 = WikipediaScrapedCountry::scrape(&doc);
    assert!(matches!(r2, Err(ScrapeError::NoTables)));
}

#[test]
fn header_mismatch_contributes_no_table() {
    let bad = TableNode {
        rows: vec![
            header_row(&["only", "three", "headers"]),
            data_row(vec![
                text_cell(&["a"]),
                text_cell(&["b"]),
                text_cell(&["c"]),
                text_cell(&["d"]),
            ]),
        ],
    };
    let good = TableNode {
        rows: vec![
            header_row(&["w", "x", "y", "z"]),
            data_row(vec![
                text_cell(&["1"]),
                text_cell(&["2"]),
                text_cell(&["3"]),
                text_cell(&["4"]),
            ]),
        ],
    };
    let doc = Document {
        tables: vec![bad, good],
    };
    let discard: Vec<usize> = vec![];
    let tables = table_scraper(&doc, 4, &discard, None, CellExtractor::Common).unwrap();
    assert_eq!(tables.len(), 1);
    assert_eq!(tables[0].rows.len(), 1);
    assert_eq!(
        tables[0].rows[0][0],
        Some(vec!["1".to_string()])
    );
}

#[test]
fn identity_row_becomes_keyed_entity() {
    let map = japan_map();
    assert_eq!(map.len(), 1);
    let japan = map.get("JP").expect("entity keyed JP");
    assert_eq!(japan.exonym, "Japan");
    assert_eq!(japan.name, "Japan");
    assert_eq!(japan.iso_3166_1_a3.as_deref(), Some("JPN"));
    assert_eq!(japan.tld.as_deref(), Some(".jp"));
    assert!(japan.capital.is_none());
    assert!(japan.currency.is_none());
}

#[test]
fn currency_record_merges_by_exact_name() {
    let mut map = japan_map();
    let recs = vec![DatahubCurrency {
        exonym: "Japan".to_string(),
        iso_4217: Some("JPY".to_string()),
        name: Some("Japanese yen".to_string()),
    }];
    let skipped = map.merge_currency_list(&recs);
    assert!(skipped.is_empty());
    let japan = map.get("JP").unwrap();
    let cur = japan.currency.as_ref().expect("currency created");
    assert_eq!(cur.name, "Japanese yen");
    assert_eq!(cur.iso_4217.as_deref(), Some("JPY"));
    assert!(cur.symbol.is_none());
    assert!(cur.fraction.is_none());
    assert!(cur.fractions_in_unit.is_none());
}

#[test]
fn currency_record_without_identity_is_discarded() {
    let mut map = japan_map();
    let recs = vec![DatahubCurrency {
        exonym: "Japan".to_string(),
        iso_4217: None,
        name: None,
    }];
    let skipped = map.merge_currency_list(&recs);
    assert!(skipped.is_empty());
    assert!(map.get("JP").unwrap().currency.is_none());
}

#[test]
fn currency_record_with_one_identifying_field_creates_currency() {
    let mut map = japan_map();
    let recs = vec![DatahubCurrency {
        exonym: "Japan".to_string(),
        iso_4217: None,
        name: Some("Japanese yen".to_string()),
    }];
    let skipped = map.merge_currency_list(&recs);
    assert!(skipped.is_empty());
    let cur = map.get("JP").unwrap().currency.clone().expect("currency created");
    assert_eq!(cur.name, "Japanese yen");
    assert!(cur.iso_4217.is_none());

    let mut map2 = japan_map();
    let recs2 = vec![DatahubCurrency {
        exonym: "Japan".to_string(),
        iso_4217: Some("JPY".to_string()),
        name: None,
    }];
    let skipped2 = map2.merge_currency_list(&recs2);
    assert!(skipped2.is_empty());
    let cur2 = map2.get("JP").unwrap().currency.clone().expect("currency created");
    assert_eq!(cur2.name, "");
    assert_eq!(cur2.iso_4217.as_deref(), Some("JPY"));
}

#[test]
fn header_link_text_outranks_cell_text() {
    let linked_header = CellNode {
        links: vec![LinkNode {
            title: None,
            text: vec!["from link".to_string()],
        }],
        spans: vec![],
        text: vec!["from cell".to_string()],
    };
    let doc = Document {
        tables: vec![TableNode {
            rows: vec![
                RowNode {
                    header_cells: vec![linked_header, text_cell(&["b"])],
                    data_cells: vec![],
                },
                data_row(vec![text_cell(&["1"]), text_cell(&["2"])]),
            ],
        }],
    };
    let discard: Vec<usize> = vec![];
    let tables = table_scraper(&doc, 2, &discard, None, CellExtractor::Common).unwrap();
    assert_eq!(tables.len(), 1);
    assert_eq!(tables[0].headers[0].as_deref(), Some("from link"));
}

fn cctz_doc(rows: Vec<RowNode>) -> Document {
    let mut all = vec![header_row(&[
        "Country name",
        "Calling code",
        "Time zone",
        "DST",
    ])];
    all.extend(rows);
    Document {
        tables: vec![TableNode { rows: all }],
    }
}

#[test]
fn empty_timezone_row_is_dropped() {
    let doc = cctz_doc(vec![
        data_row(vec![
            text_cell(&["Atlantis"]),
            text_cell(&["+999"]),
            text_cell(&[]),
            text_cell(&["+0"]),
        ]),
        data_row(vec![
            text_cell(&["France"]),
            text_cell(&["+33"]),
            text_cell(&["CET"]),
            text_cell(&["+1"]),
        ]),
    ]);
    let recs = WikipediaScrapedCcTz::scrape(&doc).unwrap();
    assert_eq!(recs.len(), 1);
    assert_eq!(recs[0].exonym, "France");
    assert_eq!(recs[0].code, "+33");
    assert_eq!(recs[0].tz, "CET");
    assert_eq!(recs[0].dst.as_deref(), Some("+1"));
}

#[test]
fn whitespace_only_timezone_cell_is_dropped_too() {
    let doc = cctz_doc(vec![data_row(vec![
        text_cell(&["Atlantis"]),
        text_cell(&["+999"]),
        text_cell(&["   "]),
        text_cell(&["+0"]),
    ])]);
    let recs = WikipediaScrapedCcTz::scrape(&doc).unwrap();
    assert!(recs.is_empty());
}

#[test]
fn merged_sets_are_sorted_deduped_and_exclude_exonym() {
    let mut map = japan_map();
    let recs = vec![WikipediaScrapedEndonyms {
        exonym: "Japan".to_string(),
        capital: "Tokyo".to_string(),
        endonyms: vec![
            "Nippon".to_string(),
            "Japan".to_string(),
            "Nihon".to_string(),
            "Nippon".to_string(),
        ],
        languages: vec![
            "Japanese".to_string(),
            "Ainu".to_string(),
            "Japanese".to_string(),
        ],
    }];
    let skipped = map.merge_endonyms(&recs);
    assert!(skipped.is_empty());
    let japan = map.get("JP").unwrap();
    assert_eq!(japan.capital.as_deref(), Some("Tokyo"));
    assert_eq!(
        japan.endonyms.as_ref().unwrap(),
        &vec!["Nihon".to_string(), "Nippon".to_string()]
    );
    assert_eq!(
        japan.languages.as_ref().unwrap(),
        &vec!["Ainu".to_string(), "Japanese".to_string()]
    );
}

#[test]
fn endonym_merge_twice_equals_once() {
    let rec = || WikipediaScrapedEndonyms {
        exonym: "Japan".to_string(),
        capital: "Tokyo".to_string(),
        endonyms: vec!["Nippon".to_string(), "Nihon".to_string()],
        languages: vec!["Japanese".to_string()],
    };
    let mut map_once = japan_map();
    let _ = map_once.merge_endonyms(&vec![rec()]);
    let mut map_twice = japan_map();
    let _ = map_twice.merge_endonyms(&vec![rec()]);
    let _ = map_twice.merge_endonyms(&vec![rec()]);
    let once = map_once.get("JP").unwrap();
    let twice = map_twice.get("JP").unwrap();
    assert_eq!(once.capital, twice.capital);
    assert_eq!(once.endonyms, twice.endonyms);
    assert_eq!(once.languages, twice.languages);
    assert_eq!(once.exonym, twice.exonym);
}

#[test]
fn currency_merge_twice_equals_once() {
    let item = || WikipediaScrapedCurrency {
        exonym: "Japan".to_string(),
        name: "Japanese yen".to_string(),
        iso_4217: Some("JPY".to_string()),
        symbol: Some("¥".to_string()),
        fraction: Some("sen".to_string()),
        fractions_in_unit: Some(100),
    };
    let mut once = country_of(&japan_map());
    once.add_wikipedia_currency(item());
    let mut twice = country_of(&japan_map());
    twice.add_wikipedia_currency(item());
    twice.add_wikipedia_currency(item());
    let a = once.currency.unwrap();
    let b = twice.currency.unwrap();
    assert_eq!(a.name, b.name);
    assert_eq!(a.iso_4217, b.iso_4217);
    assert_eq!(a.symbol, b.symbol);
    assert_eq!(a.fraction, b.fraction);
    assert_eq!(a.fractions_in_unit, b.fractions_in_unit);
}

fn country_of(map: &CountryMap) -> Country {
    map.get("JP").unwrap().clone()
}

#[test]
fn exonym_replacement_preserves_old_name() {
    let doc = country_table_doc(vec![data_row(vec![
        titled_link_cell("Ivory Coast"),
        text_cell(&["Republic of Côte d'Ivoire"]),
        text_cell(&["UN member"]),
        text_cell(&["CI"]),
        text_cell(&["CIV"]),
        text_cell(&["384"]),
        text_cell(&["ISO 3166-2:CI"]),
        text_cell(&[".ci"]),
    ])]);
    let recs = WikipediaScrapedCountry::scrape(&doc).unwrap();
    let mut map = CountryMap::new();
    map.merge_identity(&recs);
    let listed = vec![DatahubCountry {
        code: "CI".to_string(),
        name: "Côte d'Ivoire".to_string(),
    }];
    map.merge_country_list(&listed);
    let ci = map.get("CI").unwrap();
    assert_eq!(ci.exonym, "Côte d'Ivoire");
    assert!(ci
        .endonyms
        .as_ref()
        .unwrap()
        .contains(&"Ivory Coast".to_string()));
}

#[test]
fn country_list_creates_fallback_entity() {
    let mut map = japan_map();
    let listed = vec![DatahubCountry {
        code: "XK".to_string(),
        name: "Kosovo".to_string(),
    }];
    map.merge_country_list(&listed);
    assert_eq!(map.len(), 2);
    let xk = map.get("XK").unwrap();
    assert_eq!(xk.exonym, "Kosovo");
    assert_eq!(xk.name, "Kosovo");
    assert!(xk.iso_3166_1_a3.is_none());
}

#[test]
fn fuzzy_endonym_match_is_case_insensitive() {
    let doc = country_table_doc(vec![data_row(vec![
        titled_link_cell("Myanmar"),
        text_cell(&["Republic of the Union of Myanmar"]),
        text_cell(&["UN member"]),
        text_cell(&["MM"]),
        text_cell(&["MMR"]),
        text_cell(&["104"]),
        text_cell(&["ISO 3166-2:MM"]),
        text_cell(&[".mm"]),
    ])]);
    let recs = WikipediaScrapedCountry::scrape(&doc).unwrap();
    let mut map = CountryMap::new();
    map.merge_identity(&recs);
    let endo = vec![WikipediaScrapedEndonyms {
        exonym: "Myanmar".to_string(),
        capital: "Naypyidaw".to_string(),
        endonyms: vec!["Burma".to_string()],
        languages: vec!["Burmese".to_string()],
    }];
    let skipped = map.merge_endonyms(&endo);
    assert!(skipped.is_empty());
    let cur = vec![DatahubCurrency {
        exonym: "burma".to_string(),
        iso_4217: Some("MMK".to_string()),
        name: Some("Kyat".to_string()),
    }];
    let skipped = map.merge_currency_list(&cur);
    assert!(skipped.is_empty());
    let mm = map.get("MM").unwrap();
    assert_eq!(
        mm.currency.as_ref().unwrap().iso_4217.as_deref(),
        Some("MMK")
    );
}

#[test]
fn unmatched_record_is_reported_back() {
    let mut map = japan_map();
    let cur = vec![DatahubCurrency {
        exonym: "Ruritania".to_string(),
        iso_4217: Some("RUR".to_string()),
        name: Some("Ruritanian crown".to_string()),
    }];
    let skipped = map.merge_currency_list(&cur);
    assert_eq!(skipped.len(), 1);
    assert_eq!(skipped[0].exonym, "Ruritania");
    assert!(map.get("JP").unwrap().currency.is_none());
}

#[test]
fn exact_exonym_match_is_case_insensitive() {
    let mut map = japan_map();
    let cur = vec![DatahubCurrency {
        exonym: "JAPAN".to_string(),
        iso_4217: Some("JPY".to_string()),
        name: Some("Yen".to_string()),
    }];
    let skipped = map.merge_currency_list(&cur);
    assert!(skipped.is_empty());
    assert_eq!(
        map.get("JP").unwrap().currency.as_ref().unwrap().name,
        "Yen"
    );
}

#[test]
fn parse_i32_reads_decimal_integers() {
    assert_eq!(parse_i32("100"), Some(100));
    assert_eq!(parse_i32("+12"), Some(12));
    assert_eq!(parse_i32("-7"), Some(-7));
    assert_eq!(parse_i32("0007"), Some(7));
    assert_eq!(parse_i32("2147483647"), Some(2147483647));
    assert_eq!(parse_i32("2147483648"), None);
    assert_eq!(parse_i32("-2147483648"), Some(-2147483648));
    assert_eq!(parse_i32("-2147483649"), None);
    assert_eq!(parse_i32(""), None);
    assert_eq!(parse_i32("-"), None);
    assert_eq!(parse_i32("1 2"), None);
    assert_eq!(parse_i32("12a"), None);
}

#[test]
fn cell_values_are_trimmed_and_empties_filtered() {
    let doc = Document {
        tables: vec![TableNode {
            rows: vec![
                header_row(&["a", "b"]),
                data_row(vec![text_cell(&["foo  ", "  "]), text_cell(&["bar"])]),
            ],
        }],
    };
    let discard: Vec<usize> = vec![];
    let tables = table_scraper(&doc, 2, &discard, None, CellExtractor::Common).unwrap();
    assert_eq!(tables.len(), 1);
    assert_eq!(tables[0].rows[0][0], Some(vec!["foo".to_string()]));
    assert_eq!(tables[0].headers[0].as_deref(), Some("a"));
}

#[test]
fn substring_search_finds_runs() {
    assert!(str_contains("country name", "country"));
    assert!(str_contains("calling code", "code"));
    assert!(!str_contains("code", "country"));
    assert!(str_contains("x", ""));
    assert!(!str_contains("", "x"));
}

#[test]
fn table_range_restricts_which_tables_are_eligible() {
    let make = |v: &str| TableNode {
        rows: vec![
            header_row(&["a", "b"]),
            data_row(vec![text_cell(&[v]), text_cell(&[v])]),
        ],
    };
    let doc = Document {
        tables: vec![make("first"), make("second")],
    };
    let discard: Vec<usize> = vec![];
    let tables = table_scraper(&doc, 2, &discard, Some((1, 2)), CellExtractor::Common).unwrap();
    assert_eq!(tables.len(), 1);
    assert_eq!(tables[0].rows[0][0], Some(vec!["second".to_string()]));
}

#[test]
fn two_matching_tables_are_ambiguous() {
    let mut d1 = country_table_doc(vec![japan_row()]);
    let mut d2 = country_table_doc(vec![japan_row()]);
    let doc = Document {
        tables: vec![d1.tables.remove(0), d2.tables.remove(0)],
    };
    let r = WikipediaScrapedCountry::scrape(&doc);
    assert!(matches!(r, Err(ScrapeError::TableCount)));
}

#[test]
fn unresolvable_mandatory_cell_aborts_decode() {
    let doc = country_table_doc(vec![data_row(vec![
        titled_link_cell("Japan"),
        text_cell(&["Japan"]),
        text_cell(&["UN member"]),
        text_cell(&["Japan", "JPN"]),
        text_cell(&["JPN"]),
        text_cell(&["392"]),
        text_cell(&["ISO 3166-2:JP"]),
        text_cell(&[".jp"]),
    ])]);
    let r = WikipediaScrapedCountry::scrape(&doc);
    assert!(matches!(r, Err(ScrapeError::MissingCell { col: 3 })));
}

#[test]
fn flags_merge_by_code_and_report_unknown() {
    let mut map = japan_map();
    let recs = vec![
        WikipediaScrapedFlag {
            iso_3166_1_a2: "JP".to_string(),
            flag: "jp-flag".to_string(),
        },
        WikipediaScrapedFlag {
            iso_3166_1_a2: "ZZ".to_string(),
            flag: "zz-flag".to_string(),
        },
    ];
    let skipped = map.merge_flags(&recs);
    assert_eq!(skipped.len(), 1);
    assert_eq!(skipped[0].iso_3166_1_a2, "ZZ");
    assert_eq!(map.get("JP").unwrap().flag.as_deref(), Some("jp-flag"));
}

#[test]
fn cc_tz_merge_replaces_time_wholesale() {
    let mut map = japan_map();
    let recs = vec![WikipediaScrapedCcTz {
        exonym: "Japan".to_string(),
        code: "+81".to_string(),
        tz: "JST".to_string(),
        dst: None,
    }];
    let skipped = map.merge_cc_tz(&recs);
    assert!(skipped.is_empty());
    let japan = map.get("JP").unwrap();
    assert_eq!(japan.calling_code.as_deref(), Some("+81"));
    assert_eq!(japan.time.as_ref().unwrap().zone, "JST");
    assert!(japan.time.as_ref().unwrap().dst.is_none());
}

#[test]
fn native_names_tables_decode_spans_and_links() {
    let doc = Document {
        tables: vec![TableNode {
            rows: vec![
                header_row(&[
                    "Exonym (English)",
                    "Capital exonym",
                    "Endonym",
                    "Capital endonym",
                    "Official language",
                ]),
                data_row(vec![
                    titled_link_cell("Japan"),
                    text_cell(&["Tokyo"]),
                    CellNode {
                        links: vec![],
                        spans: vec![
                            vec!["Nippon".to_string()],
                            vec!["two".to_string(), "items".to_string()],
                            vec!["Nihon".to_string()],
                        ],
                        text: vec![],
                    },
                    text_cell(&["ignored"]),
                    CellNode {
                        links: vec![
                            LinkNode {
                                title: None,
                                text: vec!["Japanese".to_string()],
                            },
                            LinkNode {
                                title: None,
                                text: vec!["Latin script".to_string()],
                            },
                            LinkNode {
                                title: None,
                                text: vec!["Kanji characters".to_string()],
                            },
                        ],
                        spans: vec![],
                        text: vec![],
                    },
                ]),
            ],
        }],
    };
    let recs = WikipediaScrapedEndonyms::scrape(&doc).unwrap();
    assert_eq!(recs.len(), 1);
    assert_eq!(recs[0].exonym, "Japan");
    assert_eq!(recs[0].capital, "Tokyo");
    assert_eq!(
        recs[0].endonyms,
        vec!["Nihon".to_string(), "Nippon".to_string()]
    );
    assert_eq!(recs[0].languages, vec!["Japanese".to_string()]);
}

#[test]
fn currency_table_decodes_optional_columns() {
    let doc = Document {
        tables: vec![TableNode {
            rows: vec![
                header_row(&[
                    "State", "Currency", "Symbol", "ISO code", "Fraction", "Basic",
                ]),
                data_row(vec![
                    titled_link_cell("Japan"),
                    text_cell(&["Japanese yen"]),
                    text_cell(&["¥"]),
                    text_cell(&["JPY"]),
                    text_cell(&["sen"]),
                    text_cell(&["100"]),
                ]),
                data_row(vec![
                    titled_link_cell("Atlantis"),
                    text_cell(&["Shell"]),
                    text_cell(&[]),
                    text_cell(&["(none)", "x", "y"]),
                    text_cell(&[]),
                    text_cell(&["many"]),
                ]),
            ],
        }],
    };
    let recs = WikipediaScrapedCurrency::scrape(&doc).unwrap();
    assert_eq!(recs.len(), 2);
    assert_eq!(recs[0].exonym, "Japan");
    assert_eq!(recs[0].iso_4217.as_deref(), Some("JPY"));
    assert_eq!(recs[0].fractions_in_unit, Some(100));
    assert_eq!(recs[1].iso_4217, None);
    assert_eq!(recs[1].symbol, None);
    assert_eq!(recs[1].fractions_in_unit, None);
}
