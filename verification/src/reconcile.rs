//! The entity-reconciliation engine: the canonical map of countries keyed by
//! ISO 3166-1 alpha-2 code, and the ordered merge protocol that folds each
//! source's records into it — an exact key match where the source has a key,
//! else a case-insensitive exonym match, else an endonym match, else the
//! record is reported back as unmatched.

use vstd::prelude::*;
use vstd::string::*;
use crate::datahub::{DatahubCountry, DatahubCountryV, DatahubCurrency, DatahubCurrencyV};
use crate::model::{
    country_wf, spec_add_cc_tz, spec_add_currency_from_list, spec_add_endonyms_langs,
    spec_add_wikipedia_currency, spec_adopt_listed_name, spec_from_country_list,
    spec_from_wikipedia, Country, CountryV,
};
use crate::sorted::{str_eq, strictly_sorted};
use crate::text::{chars_lt, lemma_chars_lt_asym, lemma_chars_lt_connex, lemma_chars_lt_irrefl,
    lower_of, lowercase, str_lt};
use crate::wikipedia::{
    WikipediaScrapedCcTz, WikipediaScrapedCcTzV, WikipediaScrapedCountry,
    WikipediaScrapedCountryV, WikipediaScrapedCurrency, WikipediaScrapedCurrencyV,
    WikipediaScrapedEndonyms, WikipediaScrapedEndonymsV, WikipediaScrapedFlag,
    WikipediaScrapedFlagV,
};

verus! {

/// The canonical map: entries sorted by key, one per country code.
pub struct CountryMap {
    entries: Vec<(String, Country)>,
}

impl View for CountryMap {
    type V = Seq<(Seq<char>, CountryV)>;

    closed spec fn view(&self) -> Seq<(Seq<char>, CountryV)> {
        Seq::new(self.entries@.len(), |i: int| (self.entries@[i].0@, self.entries@[i].1@))
    }
}

pub open spec fn map_keys(s: Seq<(Seq<char>, CountryV)>) -> Seq<Seq<char>> {
    Seq::new(s.len(), |i: int| s[i].0)
}

/// Keys strictly sorted — so unique — and every entity well formed.
pub open spec fn map_wf(s: Seq<(Seq<char>, CountryV)>) -> bool {
    &&& strictly_sorted(map_keys(s))
    &&& forall|i: int| 0 <= i < s.len() ==> country_wf((#[trigger] s[i]).1)
}

/// `(k, v)` placed at its key's sorted position, replacing an entry whose key
/// equals it.
pub open spec fn map_put(s: Seq<(Seq<char>, CountryV)>, k: Seq<char>, v: CountryV) -> Seq<
    (Seq<char>, CountryV),
>
    decreases s.len(),
{
    if s.len() == 0 {
        seq![(k, v)]
    } else if k == s[0].0 {
        seq![(k, v)] + s.drop_first()
    } else if chars_lt(k, s[0].0) {
        seq![(k, v)] + s
    } else {
        seq![s[0]] + map_put(s.drop_first(), k, v)
    }
}

/// The value stored under `k`, if any.
pub open spec fn map_get(s: Seq<(Seq<char>, CountryV)>, k: Seq<char>) -> Option<CountryV>
    decreases s.len(),
{
    if s.len() == 0 {
        None
    } else if s[0].0 == k {
        Some(s[0].1)
    } else {
        map_get(s.drop_first(), k)
    }
}

/// The position of the entry keyed `k`, if any.
pub open spec fn key_index(s: Seq<(Seq<char>, CountryV)>, k: Seq<char>) -> Option<int>
    decreases s.len(),
{
    if s.len() == 0 {
        None
    } else if s[0].0 == k {
        Some(0)
    } else {
        match key_index(s.drop_first(), k) {
            Some(i) => Some(i + 1),
            None => None,
        }
    }
}

pub proof fn lemma_key_index_char(s: Seq<(Seq<char>, CountryV)>, k: Seq<char>)
    ensures
        match key_index(s, k) {
            Some(i) => 0 <= i < s.len() && s[i].0 == k && (forall|j: int|
                0 <= j < i ==> (#[trigger] s[j]).0 != k),
            None => forall|j: int| 0 <= j < s.len() ==> (#[trigger] s[j]).0 != k,
        },
    decreases s.len(),
{
    if s.len() > 0 && s[0].0 != k {
        lemma_key_index_char(s.drop_first(), k);
        match key_index(s.drop_first(), k) {
            Some(i) => {
                assert(s.drop_first()[i] == s[i + 1]);
                assert forall|j: int| 0 <= j < i + 1 implies (#[trigger] s[j]).0 != k by {
                    if j > 0 {
                        assert(s.drop_first()[j - 1] == s[j]);
                    }
                }
            },
            None => {
                assert forall|j: int| 0 <= j < s.len() implies (#[trigger] s[j]).0 != k by {
                    if j > 0 {
                        assert(s.drop_first()[j - 1] == s[j]);
                    }
                }
            },
        }
    }
}

proof fn lemma_map_keys_drop_first(s: Seq<(Seq<char>, CountryV)>)
    requires
        s.len() > 0,
        strictly_sorted(map_keys(s)),
    ensures
        strictly_sorted(map_keys(s.drop_first())),
{
    assert forall|i: int, j: int| 0 <= i < j < s.drop_first().len() implies chars_lt(
        #[trigger] map_keys(s.drop_first())[i],
        #[trigger] map_keys(s.drop_first())[j],
    ) by {
        assert(s.drop_first()[i] == s[i + 1]);
        assert(s.drop_first()[j] == s[j + 1]);
        assert(chars_lt(map_keys(s)[i + 1], map_keys(s)[j + 1]));
    }
}

pub proof fn lemma_map_put_facts(s: Seq<(Seq<char>, CountryV)>, k: Seq<char>, v: CountryV)
    requires
        map_wf(s),
        country_wf(v),
    ensures
        map_wf(map_put(s, k, v)),
        map_get(map_put(s, k, v), k) == Some(v),
        s.len() <= map_put(s, k, v).len() <= s.len() + 1,
    decreases s.len(),
{
    let r = map_put(s, k, v);
    if s.len() == 0 {
        assert(map_keys(r) =~= seq![k]);
    } else if k == s[0].0 {
        assert(map_keys(r) =~= map_keys(s));
        assert forall|i: int| 0 <= i < r.len() implies country_wf((#[trigger] r[i]).1) by {
            if i > 0 {
                assert(r[i] == s[i]);
            }
        }
    } else if chars_lt(k, s[0].0) {
        assert forall|i: int, j: int| 0 <= i < j < r.len() implies chars_lt(
            #[trigger] map_keys(r)[i],
            #[trigger] map_keys(r)[j],
        ) by {
            if i == 0 {
                if j > 1 {
                    assert(chars_lt(map_keys(s)[0], map_keys(s)[j - 1]));
                    crate::text::lemma_chars_lt_trans(k, s[0].0, s[j - 1].0);
                }
            } else {
                assert(chars_lt(map_keys(s)[i - 1], map_keys(s)[j - 1]));
            }
        }
        assert forall|i: int| 0 <= i < r.len() implies country_wf((#[trigger] r[i]).1) by {
            if i > 0 {
                assert(r[i] == s[i - 1]);
            }
        }
        assert(r.drop_first() =~= s);
    } else {
        lemma_chars_lt_connex(k, s[0].0);
        lemma_map_keys_drop_first(s);
        assert forall|i: int| 0 <= i < s.drop_first().len() implies country_wf(
            (#[trigger] s.drop_first()[i]).1,
        ) by {
            assert(s.drop_first()[i] == s[i + 1]);
        }
        lemma_map_put_facts(s.drop_first(), k, v);
        let rt = map_put(s.drop_first(), k, v);
        lemma_map_put_keys(s.drop_first(), k, v);
        assert forall|i: int, j: int| 0 <= i < j < r.len() implies chars_lt(
            #[trigger] map_keys(r)[i],
            #[trigger] map_keys(r)[j],
        ) by {
            if i == 0 {
                assert(r[j] == rt[j - 1]);
                assert(map_keys(rt).contains(rt[j - 1].0)) by {
                    assert(map_keys(rt)[j - 1] == rt[j - 1].0);
                }
                if map_keys(s.drop_first()).contains(rt[j - 1].0) {
                    let t = choose|t: int|
                        0 <= t < s.drop_first().len() && map_keys(s.drop_first())[t] == rt[j
                            - 1].0;
                    assert(s.drop_first()[t] == s[t + 1]);
                    assert(chars_lt(map_keys(s)[0], map_keys(s)[t + 1]));
                } else {
                    assert(rt[j - 1].0 == k);
                }
            } else {
                assert(r[i] == rt[i - 1]);
                assert(r[j] == rt[j - 1]);
                assert(chars_lt(map_keys(rt)[i - 1], map_keys(rt)[j - 1]));
            }
        }
        assert forall|i: int| 0 <= i < r.len() implies country_wf((#[trigger] r[i]).1) by {
            if i > 0 {
                assert(r[i] == rt[i - 1]);
                assert(country_wf(rt[i - 1].1));
            }
        }
        assert(r.drop_first() =~= rt);
        assert(r[0].0 != k);
    }
}

/// Every key of the result is a key of `s` or the inserted one.
pub proof fn lemma_map_put_keys(s: Seq<(Seq<char>, CountryV)>, k: Seq<char>, v: CountryV)
    ensures
        forall|y: Seq<char>| #[trigger]
            map_keys(map_put(s, k, v)).contains(y) <==> (map_keys(s).contains(y) || y == k),
    decreases s.len(),
{
    let r = map_put(s, k, v);
    if s.len() == 0 {
        assert forall|y: Seq<char>| #[trigger] map_keys(r).contains(y) implies (map_keys(
            s,
        ).contains(y) || y == k) by {
            let i = choose|i: int| 0 <= i < map_keys(r).len() && map_keys(r)[i] == y;
            assert(r[0].0 == k);
        }
        assert(map_keys(r)[0] == k);
    } else if k == s[0].0 {
        assert forall|y: Seq<char>| #[trigger] map_keys(r).contains(y) implies (map_keys(
            s,
        ).contains(y) || y == k) by {
            let i = choose|i: int| 0 <= i < map_keys(r).len() && map_keys(r)[i] == y;
            if i > 0 {
                assert(r[i] == s[i]);
                assert(map_keys(s)[i] == y);
            }
        }
        assert forall|y: Seq<char>| (map_keys(s).contains(y) || y == k) implies #[trigger] map_keys(
            r,
        ).contains(y) by {
            if y == k {
                assert(map_keys(r)[0] == k);
            } else {
                let i = choose|i: int| 0 <= i < map_keys(s).len() && map_keys(s)[i] == y;
                assert(i > 0);
                assert(r[i] == s[i]);
                assert(map_keys(r)[i] == y);
            }
        }
    } else if chars_lt(k, s[0].0) {
        assert forall|y: Seq<char>| #[trigger] map_keys(r).contains(y) implies (map_keys(
            s,
        ).contains(y) || y == k) by {
            let i = choose|i: int| 0 <= i < map_keys(r).len() && map_keys(r)[i] == y;
            if i > 0 {
                assert(r[i] == s[i - 1]);
                assert(map_keys(s)[i - 1] == y);
            }
        }
        assert forall|y: Seq<char>| (map_keys(s).contains(y) || y == k) implies #[trigger] map_keys(
            r,
        ).contains(y) by {
            if y == k {
                assert(map_keys(r)[0] == k);
            } else {
                let i = choose|i: int| 0 <= i < map_keys(s).len() && map_keys(s)[i] == y;
                assert(r[i + 1] == s[i]);
                assert(map_keys(r)[i + 1] == y);
            }
        }
    } else {
        lemma_map_put_keys(s.drop_first(), k, v);
        let rt = map_put(s.drop_first(), k, v);
        assert forall|y: Seq<char>| #[trigger] map_keys(r).contains(y) implies (map_keys(
            s,
        ).contains(y) || y == k) by {
            let i = choose|i: int| 0 <= i < map_keys(r).len() && map_keys(r)[i] == y;
            if i == 0 {
                assert(map_keys(s)[0] == y);
            } else {
                assert(r[i] == rt[i - 1]);
                assert(map_keys(rt)[i - 1] == y);
                assert(map_keys(rt).contains(y));
                if map_keys(s.drop_first()).contains(y) {
                    let t = choose|t: int|
                        0 <= t < map_keys(s.drop_first()).len() && map_keys(s.drop_first())[t]
                            == y;
                    assert(s.drop_first()[t] == s[t + 1]);
                    assert(map_keys(s)[t + 1] == y);
                }
            }
        }
        assert forall|y: Seq<char>| (map_keys(s).contains(y) || y == k) implies #[trigger] map_keys(
            r,
        ).contains(y) by {
            if y == k || !map_keys(s).contains(y) {
                assert(map_keys(rt).contains(k));
                let t = choose|t: int| 0 <= t < map_keys(rt).len() && map_keys(rt)[t] == k;
                assert(r[t + 1] == rt[t]);
                assert(map_keys(r)[t + 1] == k);
            } else {
                let i = choose|i: int| 0 <= i < map_keys(s).len() && map_keys(s)[i] == y;
                if i == 0 {
                    assert(map_keys(r)[0] == y);
                } else {
                    assert(s.drop_first()[i - 1] == s[i]);
                    assert(map_keys(s.drop_first())[i - 1] == y);
                    assert(map_keys(s.drop_first()).contains(y));
                    assert(map_keys(rt).contains(y));
                    let t = choose|t: int| 0 <= t < map_keys(rt).len() && map_keys(rt)[t] == y;
                    assert(r[t + 1] == rt[t]);
                    assert(map_keys(r)[t + 1] == y);
                }
            }
        }
    }
}

/// Where the first key not below `k` stands at `i`, putting is updating there
/// when the keys agree, else inserting there.
pub proof fn lemma_map_put_position(
    s: Seq<(Seq<char>, CountryV)>,
    k: Seq<char>,
    v: CountryV,
    i: int,
)
    requires
        strictly_sorted(map_keys(s)),
        0 <= i <= s.len(),
        forall|j: int| 0 <= j < i ==> chars_lt((#[trigger] s[j]).0, k),
        i < s.len() ==> !chars_lt(s[i].0, k),
    ensures
        map_put(s, k, v) == if i < s.len() && s[i].0 == k {
            s.update(i, (k, v))
        } else {
            s.insert(i, (k, v))
        },
    decreases s.len(),
{
    if i == 0 {
        if s.len() == 0 {
            assert(map_put(s, k, v) =~= s.insert(0, (k, v)));
        } else if s[0].0 == k {
            assert(map_put(s, k, v) =~= s.update(0, (k, v)));
        } else {
            lemma_chars_lt_connex(k, s[0].0);
            assert(map_put(s, k, v) =~= s.insert(0, (k, v)));
        }
    } else {
        assert(chars_lt(s[0].0, k)) by {
            assert(s[0].0 == map_keys(s)[0]);
        }
        lemma_chars_lt_asym(s[0].0, k);
        lemma_chars_lt_irrefl(s[0].0);
        assert(k != s[0].0);
        let t = s.drop_first();
        lemma_map_keys_drop_first(s);
        assert forall|j: int| 0 <= j < i - 1 implies chars_lt((#[trigger] t[j]).0, k) by {
            assert(t[j] == s[j + 1]);
        }
        assert(i - 1 < t.len() ==> !chars_lt(t[i - 1].0, k)) by {
            if i - 1 < t.len() {
                assert(t[i - 1] == s[i]);
            }
        }
        lemma_map_put_position(t, k, v, i - 1);
        if i < s.len() && s[i].0 == k {
            assert(t[i - 1] == s[i]);
            assert(seq![s[0]] + t.update(i - 1, (k, v)) =~= s.update(i, (k, v)));
        } else {
            assert(seq![s[0]] + t.insert(i - 1, (k, v)) =~= s.insert(i, (k, v)));
        }
    }
}

// ---- name matching ----

/// Some string of the list lowercases to `target`.
pub open spec fn has_ci(list: Seq<Seq<char>>, target: Seq<char>) -> bool {
    exists|k: int| 0 <= k < list.len() && lower_of(#[trigger] list[k]) == target
}

/// The first entity whose exonym lowercases to `target`.
pub open spec fn exo_ci_index(s: Seq<(Seq<char>, CountryV)>, target: Seq<char>) -> Option<int>
    decreases s.len(),
{
    if s.len() == 0 {
        None
    } else if lower_of(s[0].1.exonym) == target {
        Some(0)
    } else {
        match exo_ci_index(s.drop_first(), target) {
            Some(i) => Some(i + 1),
            None => None,
        }
    }
}

pub open spec fn entity_endo_ci(c: CountryV, target: Seq<char>) -> bool {
    match c.endonyms {
        Some(e) => has_ci(e, target),
        None => false,
    }
}

/// The first entity one of whose endonyms lowercases to `target`.
pub open spec fn endo_ci_index(s: Seq<(Seq<char>, CountryV)>, target: Seq<char>) -> Option<int>
    decreases s.len(),
{
    if s.len() == 0 {
        None
    } else if entity_endo_ci(s[0].1, target) {
        Some(0)
    } else {
        match endo_ci_index(s.drop_first(), target) {
            Some(i) => Some(i + 1),
            None => None,
        }
    }
}

/// The ordered matching protocol for a record keyed only by a name: the exact
/// case-insensitive exonym match first, the endonym fallback second.
pub open spec fn match_index(s: Seq<(Seq<char>, CountryV)>, name: Seq<char>) -> Option<int> {
    match exo_ci_index(s, lower_of(name)) {
        Some(i) => Some(i),
        None => endo_ci_index(s, lower_of(name)),
    }
}

pub proof fn lemma_exo_ci_index_char(s: Seq<(Seq<char>, CountryV)>, target: Seq<char>)
    ensures
        match exo_ci_index(s, target) {
            Some(i) => 0 <= i < s.len() && lower_of(s[i].1.exonym) == target && (forall|j: int|
                0 <= j < i ==> lower_of((#[trigger] s[j]).1.exonym) != target),
            None => forall|j: int| 0 <= j < s.len() ==> lower_of((#[trigger] s[j]).1.exonym)
                != target,
        },
    decreases s.len(),
{
    if s.len() > 0 && lower_of(s[0].1.exonym) != target {
        lemma_exo_ci_index_char(s.drop_first(), target);
        match exo_ci_index(s.drop_first(), target) {
            Some(i) => {
                assert(s.drop_first()[i] == s[i + 1]);
                assert forall|j: int| 0 <= j < i + 1 implies lower_of(
                    (#[trigger] s[j]).1.exonym,
                ) != target by {
                    if j > 0 {
                        assert(s.drop_first()[j - 1] == s[j]);
                    }
                }
            },
            None => {
                assert forall|j: int| 0 <= j < s.len() implies lower_of(
                    (#[trigger] s[j]).1.exonym,
                ) != target by {
                    if j > 0 {
                        assert(s.drop_first()[j - 1] == s[j]);
                    }
                }
            },
        }
    }
}

pub proof fn lemma_endo_ci_index_char(s: Seq<(Seq<char>, CountryV)>, target: Seq<char>)
    ensures
        match endo_ci_index(s, target) {
            Some(i) => 0 <= i < s.len() && entity_endo_ci(s[i].1, target) && (forall|j: int|
                0 <= j < i ==> !entity_endo_ci((#[trigger] s[j]).1, target)),
            None => forall|j: int| 0 <= j < s.len() ==> !entity_endo_ci(
                (#[trigger] s[j]).1,
                target,
            ),
        },
    decreases s.len(),
{
    if s.len() > 0 && !entity_endo_ci(s[0].1, target) {
        lemma_endo_ci_index_char(s.drop_first(), target);
        match endo_ci_index(s.drop_first(), target) {
            Some(i) => {
                assert(s.drop_first()[i] == s[i + 1]);
                assert forall|j: int| 0 <= j < i + 1 implies !entity_endo_ci(
                    (#[trigger] s[j]).1,
                    target,
                ) by {
                    if j > 0 {
                        assert(s.drop_first()[j - 1] == s[j]);
                    }
                }
            },
            None => {
                assert forall|j: int| 0 <= j < s.len() implies !entity_endo_ci(
                    (#[trigger] s[j]).1,
                    target,
                ) by {
                    if j > 0 {
                        assert(s.drop_first()[j - 1] == s[j]);
                    }
                }
            },
        }
    }
}

#[verifier::loop_isolation(false)]
fn has_ci_exec(list: &Vec<String>, target: &str) -> (r: bool)
    ensures
        r == has_ci(list.deep_view(), target@),
{
    let mut k: usize = 0;
    loop
        invariant
            k <= list@.len(),
            forall|j: int| 0 <= j < k ==> lower_of(#[trigger] list.deep_view()[j]) != target@,
        decreases list@.len() - k,
    {
        if k == list.len() {
            return false;
        }
        proof {
            assert(list.deep_view()[k as int] == list@[k as int]@);
        }
        let low = lowercase(list[k].as_str());
        if str_eq(low.as_str(), target) {
            return true;
        }
        k = k + 1;
    }
}

// ---- the folds, one per source ----

pub open spec fn fold_identity(
    s: Seq<(Seq<char>, CountryV)>,
    recs: Seq<WikipediaScrapedCountryV>,
    n: int,
) -> Seq<(Seq<char>, CountryV)>
    decreases n,
{
    if n <= 0 {
        s
    } else {
        let prev = fold_identity(s, recs, n - 1);
        map_put(prev, recs[n - 1].iso_3166_1_a2, spec_from_wikipedia(recs[n - 1]))
    }
}

pub open spec fn fold_country_list(
    s: Seq<(Seq<char>, CountryV)>,
    recs: Seq<DatahubCountryV>,
    n: int,
) -> Seq<(Seq<char>, CountryV)>
    decreases n,
{
    if n <= 0 {
        s
    } else {
        let prev = fold_country_list(s, recs, n - 1);
        let rec = recs[n - 1];
        match key_index(prev, rec.code) {
            Some(i) => prev.update(i, (prev[i].0, spec_adopt_listed_name(prev[i].1, rec.name))),
            None => map_put(prev, rec.code, spec_from_country_list(rec)),
        }
    }
}

pub open spec fn fold_endonyms(
    s: Seq<(Seq<char>, CountryV)>,
    recs: Seq<WikipediaScrapedEndonymsV>,
    n: int,
) -> (Seq<(Seq<char>, CountryV)>, Seq<WikipediaScrapedEndonymsV>)
    decreases n,
{
    if n <= 0 {
        (s, Seq::empty())
    } else {
        let (prev, sk) = fold_endonyms(s, recs, n - 1);
        let rec = recs[n - 1];
        match match_index(prev, rec.exonym) {
            Some(i) => (
                prev.update(i, (prev[i].0, spec_add_endonyms_langs(prev[i].1, rec))),
                sk,
            ),
            None => (prev, sk.push(rec)),
        }
    }
}

pub open spec fn fold_currency_list(
    s: Seq<(Seq<char>, CountryV)>,
    recs: Seq<DatahubCurrencyV>,
    n: int,
) -> (Seq<(Seq<char>, CountryV)>, Seq<DatahubCurrencyV>)
    decreases n,
{
    if n <= 0 {
        (s, Seq::empty())
    } else {
        let (prev, sk) = fold_currency_list(s, recs, n - 1);
        let rec = recs[n - 1];
        match match_index(prev, rec.exonym) {
            Some(i) => (
                prev.update(i, (prev[i].0, spec_add_currency_from_list(prev[i].1, rec))),
                sk,
            ),
            None => (prev, sk.push(rec)),
        }
    }
}

pub open spec fn fold_wikipedia_currencies(
    s: Seq<(Seq<char>, CountryV)>,
    recs: Seq<WikipediaScrapedCurrencyV>,
    n: int,
) -> (Seq<(Seq<char>, CountryV)>, Seq<WikipediaScrapedCurrencyV>)
    decreases n,
{
    if n <= 0 {
        (s, Seq::empty())
    } else {
        let (prev, sk) = fold_wikipedia_currencies(s, recs, n - 1);
        let rec = recs[n - 1];
        match match_index(prev, rec.exonym) {
            Some(i) => (
                prev.update(i, (prev[i].0, spec_add_wikipedia_currency(prev[i].1, rec))),
                sk,
            ),
            None => (prev, sk.push(rec)),
        }
    }
}

/// The flag field is replaced outright when a flag row's code matches.
pub open spec fn spec_set_flag(c: CountryV, flag: Seq<char>) -> CountryV {
    CountryV { flag: Some(flag), ..c }
}

/// Setting the same flag twice leaves what one merge built.
pub proof fn lemma_set_flag_idempotent(c: CountryV, flag: Seq<char>)
    ensures
        spec_set_flag(spec_set_flag(c, flag), flag) == spec_set_flag(c, flag),
{
    assert(spec_set_flag(spec_set_flag(c, flag), flag) =~~= spec_set_flag(c, flag));
}

pub open spec fn fold_flags(
    s: Seq<(Seq<char>, CountryV)>,
    recs: Seq<WikipediaScrapedFlagV>,
    n: int,
) -> (Seq<(Seq<char>, CountryV)>, Seq<WikipediaScrapedFlagV>)
    decreases n,
{
    if n <= 0 {
        (s, Seq::empty())
    } else {
        let (prev, sk) = fold_flags(s, recs, n - 1);
        let rec = recs[n - 1];
        match key_index(prev, rec.iso_3166_1_a2) {
            Some(i) => (prev.update(i, (prev[i].0, spec_set_flag(prev[i].1, rec.flag))), sk),
            None => (prev, sk.push(rec)),
        }
    }
}

pub open spec fn fold_cc_tz(
    s: Seq<(Seq<char>, CountryV)>,
    recs: Seq<WikipediaScrapedCcTzV>,
    n: int,
) -> (Seq<(Seq<char>, CountryV)>, Seq<WikipediaScrapedCcTzV>)
    decreases n,
{
    if n <= 0 {
        (s, Seq::empty())
    } else {
        let (prev, sk) = fold_cc_tz(s, recs, n - 1);
        let rec = recs[n - 1];
        match match_index(prev, rec.exonym) {
            Some(i) => (prev.update(i, (prev[i].0, spec_add_cc_tz(prev[i].1, rec))), sk),
            None => (prev, sk.push(rec)),
        }
    }
}

impl CountryMap {
    /// An empty canonical map.
    pub fn new() -> (r: Self)
        ensures
            r@ == Seq::<(Seq<char>, CountryV)>::empty(),
            map_wf(r@),
    {
        let r = CountryMap { entries: Vec::new() };
        proof {
            assert(r@ =~= Seq::<(Seq<char>, CountryV)>::empty());
        }
        r
    }

    pub fn len(&self) -> (r: usize)
        ensures
            r == self@.len(),
    {
        self.entries.len()
    }

    pub fn is_empty(&self) -> (r: bool)
        ensures
            r == (self@.len() == 0),
    {
        self.entries.len() == 0
    }

    /// Read-only access to the sorted entries.
    pub fn entries(&self) -> (r: &Vec<(String, Country)>)
        ensures
            r@.len() == self@.len(),
            forall|i: int|
                0 <= i < r@.len() ==> (#[trigger] r@[i]).0@ == self@[i].0 && r@[i].1@
                    == self@[i].1,
    {
        &self.entries
    }

    /// The position of the entry keyed `key`.
    #[verifier::loop_isolation(false)]
    pub fn position_of_key(&self, key: &str) -> (r: Option<usize>)
        ensures
            match (r, key_index(self@, key@)) {
                (Some(i), Some(si)) => i as int == si,
                (None, None) => true,
                _ => false,
            },
    {
        proof {
            lemma_key_index_char(self@, key@);
        }
        let mut i: usize = 0;
        loop
            invariant
                i <= self@.len(),
                forall|j: int| 0 <= j < i ==> (#[trigger] self@[j]).0 != key@,
            decreases self@.len() - i,
        {
            if i == self.entries.len() {
                return None;
            }
            let e = &self.entries[i];
            proof {
                assert(self@[i as int].0 == e.0@);
            }
            if str_eq(e.0.as_str(), key) {
                return Some(i);
            }
            i = i + 1;
        }
    }

    /// The entity stored under `code`.
    #[verifier::loop_isolation(false)]
    pub fn get(&self, code: &str) -> (r: Option<&Country>)
        ensures
            match r {
                Some(c) => map_get(self@, code@) == Some(c@),
                None => map_get(self@, code@) is None,
            },
    {
        proof {
            lemma_key_index_char(self@, code@);
            lemma_key_index_get(self@, code@);
        }
        match self.position_of_key(code) {
            Some(i) => Some(&self.entries[i].1),
            None => None,
        }
    }

    /// The ordered matching protocol: the first case-insensitive exonym
    /// match, else the first endonym match.
    #[verifier::loop_isolation(false)]
    pub fn match_by_name(&self, name: &str) -> (r: Option<usize>)
        ensures
            match (r, match_index(self@, name@)) {
                (Some(i), Some(si)) => i as int == si,
                (None, None) => true,
                _ => false,
            },
    {
        proof {
            lemma_exo_ci_index_char(self@, lower_of(name@));
            lemma_endo_ci_index_char(self@, lower_of(name@));
        }
        let target = lowercase(name);
        let mut i: usize = 0;
        loop
            invariant
                i <= self@.len(),
                forall|j: int| 0 <= j < i ==> lower_of((#[trigger] self@[j]).1.exonym) != lower_of(
                    name@,
                ),
            decreases self@.len() - i,
        {
            if i == self.entries.len() {
                break;
            }
            let e = &self.entries[i];
            proof {
                assert(self@[i as int].1 == e.1@);
            }
            let elow = lowercase(e.1.exonym.as_str());
            if str_eq(elow.as_str(), target.as_str()) {
                return Some(i);
            }
            i = i + 1;
        }
        let mut i: usize = 0;
        loop
            invariant
                i <= self@.len(),
                forall|j: int|
                    0 <= j < i ==> !entity_endo_ci((#[trigger] self@[j]).1, lower_of(name@)),
            decreases self@.len() - i,
        {
            if i == self.entries.len() {
                return None;
            }
            let e = &self.entries[i];
            proof {
                assert(self@[i as int].1 == e.1@);
            }
            let found = match &e.1.endonyms {
                Some(list) => has_ci_exec(list, target.as_str()),
                None => false,
            };
            if found {
                return Some(i);
            }
            i = i + 1;
        }
    }

    /// Stores `c` under `key`, replacing any entry with that key.
    #[verifier::loop_isolation(false)]
    pub fn insert(&mut self, key: String, c: Country)
        requires
            map_wf(old(self)@),
            country_wf(c@),
        ensures
            final(self)@ == map_put(old(self)@, key@, c@),
            map_wf(final(self)@),
    {
        let ghost s = self@;
        let mut i: usize = 0;
        loop
            invariant
                i <= self@.len(),
                self@ == s,
                forall|j: int| 0 <= j < i ==> chars_lt((#[trigger] s[j]).0, key@),
            decreases self@.len() - i,
        {
            if i == self.entries.len() {
                break;
            }
            proof {
                assert(s[i as int].0 == self.entries@[i as int].0@);
            }
            if !str_lt(self.entries[i].0.as_str(), key.as_str()) {
                break;
            }
            i = i + 1;
        }
        let eq = if i < self.entries.len() {
            proof {
                assert(s[i as int].0 == self.entries@[i as int].0@);
            }
            str_eq(self.entries[i].0.as_str(), key.as_str())
        } else {
            false
        };
        proof {
            assert(strictly_sorted(map_keys(s))) by {
                assert(map_wf(s));
            }
            assert forall|j: int| 0 <= j < i implies chars_lt(#[trigger] map_keys(s)[j], key@) by {
                assert(map_keys(s)[j] == s[j].0);
            }
            lemma_map_put_position(s, key@, c@, i as int);
            lemma_map_put_facts(s, key@, c@);
        }
        if eq {
            let _ = self.entries.remove(i);
            self.entries.insert(i, (key, c));
            proof {
                assert(final(self)@ =~= s.update(i as int, (key@, c@)));
            }
        } else {
            self.entries.insert(i, (key, c));
            proof {
                assert(final(self)@ =~= s.insert(i as int, (key@, c@)));
            }
        }
    }

    /// Folds the identity source in: one entity per row, keyed by its
    /// alpha-2 code; a repeated code keeps the last row.
    #[verifier::loop_isolation(false)]
    pub fn merge_identity(&mut self, recs: &Vec<WikipediaScrapedCountry>)
        requires
            map_wf(old(self)@),
        ensures
            final(self)@ == fold_identity(old(self)@, recs.deep_view(), recs.deep_view().len() as int),
            map_wf(final(self)@),
    {
        let ghost s0 = self@;
        let ghost rv = recs.deep_view();
        let mut j: usize = 0;
        loop
            invariant
                j <= recs@.len(),
                rv.len() == recs@.len(),
                self@ == fold_identity(s0, rv, j as int),
                map_wf(self@),
            decreases recs@.len() - j,
        {
            if j == recs.len() {
                break;
            }
            proof {
                assert(recs@[j as int]@ == rv[j as int]);
            }
            let rec = recs[j].clone_record();
            let code = rec.iso_3166_1_a2.clone();
            let c = Country::from_wikipedia(rec);
            self.insert(code, c);
            j = j + 1;
        }
    }

    /// Folds the secondary identity listing in: a record whose code is known
    /// adopts the listed name; an unknown code creates a fallback entity.
    #[verifier::loop_isolation(false)]
    pub fn merge_country_list(&mut self, recs: &Vec<DatahubCountry>)
        requires
            map_wf(old(self)@),
        ensures
            final(self)@ == fold_country_list(
                old(self)@,
                recs.deep_view(),
                recs.deep_view().len() as int,
            ),
            map_wf(final(self)@),
    {
        let ghost s0 = self@;
        let ghost rv = recs.deep_view();
        let mut j: usize = 0;
        loop
            invariant
                j <= recs@.len(),
                rv.len() == recs@.len(),
                self@ == fold_country_list(s0, rv, j as int),
                map_wf(self@),
            decreases recs@.len() - j,
        {
            if j == recs.len() {
                break;
            }
            proof {
                assert(recs@[j as int]@ == rv[j as int]);
            }
            let ghost cur = self@;
            match self.position_of_key(recs[j].code.as_str()) {
                Some(i) => {
                    proof {
                        lemma_key_index_char(cur, rv[j as int].code);
                    }
                    let (key, mut c) = self.entries.remove(i);
                    proof {
                        assert(c@ == cur[i as int].1);
                        assert(country_wf(c@));
                    }
                    c.adopt_listed_name(recs[j].name.as_str());
                    self.entries.insert(i, (key, c));
                    proof {
                        assert(self@ =~= cur.update(
                            i as int,
                            (cur[i as int].0, spec_adopt_listed_name(cur[i as int].1, rv[j as int].name)),
                        ));
                        lemma_update_value_wf(cur, i as int, spec_adopt_listed_name(cur[i as int].1, rv[j as int].name));
                    }
                },
                None => {
                    let rec = recs[j].clone_record();
                    let code = rec.code.clone();
                    let c = Country::from_country_list(rec);
                    self.insert(code, c);
                },
            }
            j = j + 1;
        }
    }

    /// Folds the native-names source in by the matching protocol; the records
    /// that match no entity come back unmatched.
    #[verifier::loop_isolation(false)]
    pub fn merge_endonyms(&mut self, recs: &Vec<WikipediaScrapedEndonyms>) -> (skipped: Vec<
        WikipediaScrapedEndonyms,
    >)
        requires
            map_wf(old(self)@),
        ensures
            final(self)@ == fold_endonyms(
                old(self)@,
                recs.deep_view(),
                recs.deep_view().len() as int,
            ).0,
            skipped.deep_view() == fold_endonyms(
                old(self)@,
                recs.deep_view(),
                recs.deep_view().len() as int,
            ).1,
            map_wf(final(self)@),
    {
        let ghost s0 = self@;
        let ghost rv = recs.deep_view();
        let mut skipped: Vec<WikipediaScrapedEndonyms> = Vec::new();
        let mut j: usize = 0;
        proof {
            assert(skipped.deep_view() =~= Seq::<WikipediaScrapedEndonymsV>::empty());
        }
        loop
            invariant
                j <= recs@.len(),
                rv.len() == recs@.len(),
                self@ == fold_endonyms(s0, rv, j as int).0,
                skipped.deep_view() == fold_endonyms(s0, rv, j as int).1,
                map_wf(self@),
            decreases recs@.len() - j,
        {
            if j == recs.len() {
                break;
            }
            proof {
                assert(recs@[j as int]@ == rv[j as int]);
            }
            let ghost cur = self@;
            match self.match_by_name(recs[j].exonym.as_str()) {
                Some(i) => {
                    proof {
                        lemma_match_index_bound(cur, rv[j as int].exonym);
                    }
                    let (key, mut c) = self.entries.remove(i);
                    proof {
                        assert(c@ == cur[i as int].1);
                    }
                    c.add_wikipedia_endonyms_langs(recs[j].clone_record());
                    self.entries.insert(i, (key, c));
                    proof {
                        assert(self@ =~= cur.update(
                            i as int,
                            (cur[i as int].0, spec_add_endonyms_langs(cur[i as int].1, rv[j as int])),
                        ));
                        lemma_update_value_wf(cur, i as int, spec_add_endonyms_langs(cur[i as int].1, rv[j as int]));
                    }
                },
                None => {
                    let ghost before = skipped.deep_view();
                    skipped.push(recs[j].clone_record());
                    proof {
                        assert(skipped.deep_view() =~= before.push(rv[j as int]));
                    }
                },
            }
            j = j + 1;
        }
        skipped
    }

    /// Folds the currency-codes listing in by the matching protocol.
    #[verifier::loop_isolation(false)]
    pub fn merge_currency_list(&mut self, recs: &Vec<DatahubCurrency>) -> (skipped: Vec<
        DatahubCurrency,
    >)
        requires
            map_wf(old(self)@),
        ensures
            final(self)@ == fold_currency_list(
                old(self)@,
                recs.deep_view(),
                recs.deep_view().len() as int,
            ).0,
            skipped.deep_view() == fold_currency_list(
                old(self)@,
                recs.deep_view(),
                recs.deep_view().len() as int,
            ).1,
            map_wf(final(self)@),
    {
        let ghost s0 = self@;
        let ghost rv = recs.deep_view();
        let mut skipped: Vec<DatahubCurrency> = Vec::new();
        let mut j: usize = 0;
        proof {
            assert(skipped.deep_view() =~= Seq::<DatahubCurrencyV>::empty());
        }
        loop
            invariant
                j <= recs@.len(),
                rv.len() == recs@.len(),
                self@ == fold_currency_list(s0, rv, j as int).0,
                skipped.deep_view() == fold_currency_list(s0, rv, j as int).1,
                map_wf(self@),
            decreases recs@.len() - j,
        {
            if j == recs.len() {
                break;
            }
            proof {
                assert(recs@[j as int]@ == rv[j as int]);
            }
            let ghost cur = self@;
            match self.match_by_name(recs[j].exonym.as_str()) {
                Some(i) => {
                    proof {
                        lemma_match_index_bound(cur, rv[j as int].exonym);
                    }
                    let (key, mut c) = self.entries.remove(i);
                    proof {
                        assert(c@ == cur[i as int].1);
                    }
                    c.add_currency_from_list(recs[j].clone_record());
                    self.entries.insert(i, (key, c));
                    proof {
                        assert(self@ =~= cur.update(
                            i as int,
                            (
                                cur[i as int].0,
                                spec_add_currency_from_list(cur[i as int].1, rv[j as int]),
                            ),
                        ));
                        lemma_update_value_wf(
                            cur,
                            i as int,
                            spec_add_currency_from_list(cur[i as int].1, rv[j as int]),
                        );
                    }
                },
                None => {
                    let ghost before = skipped.deep_view();
                    skipped.push(recs[j].clone_record());
                    proof {
                        assert(skipped.deep_view() =~= before.push(rv[j as int]));
                    }
                },
            }
            j = j + 1;
        }
        skipped
    }

    /// Folds the circulating-currencies source in by the matching protocol.
    #[verifier::loop_isolation(false)]
    pub fn merge_wikipedia_currencies(&mut self, recs: &Vec<WikipediaScrapedCurrency>) -> (skipped:
        Vec<WikipediaScrapedCurrency>)
        requires
            map_wf(old(self)@),
        ensures
            final(self)@ == fold_wikipedia_currencies(
                old(self)@,
                recs.deep_view(),
                recs.deep_view().len() as int,
            ).0,
            skipped.deep_view() == fold_wikipedia_currencies(
                old(self)@,
                recs.deep_view(),
                recs.deep_view().len() as int,
            ).1,
            map_wf(final(self)@),
    {
        let ghost s0 = self@;
        let ghost rv = recs.deep_view();
        let mut skipped: Vec<WikipediaScrapedCurrency> = Vec::new();
        let mut j: usize = 0;
        proof {
            assert(skipped.deep_view() =~= Seq::<WikipediaScrapedCurrencyV>::empty());
        }
        loop
            invariant
                j <= recs@.len(),
                rv.len() == recs@.len(),
                self@ == fold_wikipedia_currencies(s0, rv, j as int).0,
                skipped.deep_view() == fold_wikipedia_currencies(s0, rv, j as int).1,
                map_wf(self@),
            decreases recs@.len() - j,
        {
            if j == recs.len() {
                break;
            }
            proof {
                assert(recs@[j as int]@ == rv[j as int]);
            }
            let ghost cur = self@;
            match self.match_by_name(recs[j].exonym.as_str()) {
                Some(i) => {
                    proof {
                        lemma_match_index_bound(cur, rv[j as int].exonym);
                    }
                    let (key, mut c) = self.entries.remove(i);
                    proof {
                        assert(c@ == cur[i as int].1);
                    }
                    c.add_wikipedia_currency(recs[j].clone_record());
                    self.entries.insert(i, (key, c));
                    proof {
                        assert(self@ =~= cur.update(
                            i as int,
                            (
                                cur[i as int].0,
                                spec_add_wikipedia_currency(cur[i as int].1, rv[j as int]),
                            ),
                        ));
                        lemma_update_value_wf(
                            cur,
                            i as int,
                            spec_add_wikipedia_currency(cur[i as int].1, rv[j as int]),
                        );
                    }
                },
                None => {
                    let ghost before = skipped.deep_view();
                    skipped.push(recs[j].clone_record());
                    proof {
                        assert(skipped.deep_view() =~= before.push(rv[j as int]));
                    }
                },
            }
            j = j + 1;
        }
        skipped
    }

    /// Folds the flag source in, keyed by the alpha-2 code.
    #[verifier::loop_isolation(false)]
    pub fn merge_flags(&mut self, recs: &Vec<WikipediaScrapedFlag>) -> (skipped: Vec<
        WikipediaScrapedFlag,
    >)
        requires
            map_wf(old(self)@),
        ensures
            final(self)@ == fold_flags(
                old(self)@,
                recs.deep_view(),
                recs.deep_view().len() as int,
            ).0,
            skipped.deep_view() == fold_flags(
                old(self)@,
                recs.deep_view(),
                recs.deep_view().len() as int,
            ).1,
            map_wf(final(self)@),
    {
        let ghost s0 = self@;
        let ghost rv = recs.deep_view();
        let mut skipped: Vec<WikipediaScrapedFlag> = Vec::new();
        let mut j: usize = 0;
        proof {
            assert(skipped.deep_view() =~= Seq::<WikipediaScrapedFlagV>::empty());
        }
        loop
            invariant
                j <= recs@.len(),
                rv.len() == recs@.len(),
                self@ == fold_flags(s0, rv, j as int).0,
                skipped.deep_view() == fold_flags(s0, rv, j as int).1,
                map_wf(self@),
            decreases recs@.len() - j,
        {
            if j == recs.len() {
                break;
            }
            proof {
                assert(recs@[j as int]@ == rv[j as int]);
            }
            let ghost cur = self@;
            match self.position_of_key(recs[j].iso_3166_1_a2.as_str()) {
                Some(i) => {
                    proof {
                        lemma_key_index_char(cur, rv[j as int].iso_3166_1_a2);
                    }
                    let (key, mut c) = self.entries.remove(i);
                    proof {
                        assert(c@ == cur[i as int].1);
                    }
                    c.flag = Some(recs[j].flag.clone());
                    self.entries.insert(i, (key, c));
                    proof {
                        assert(self@ =~= cur.update(
                            i as int,
                            (cur[i as int].0, spec_set_flag(cur[i as int].1, rv[j as int].flag)),
                        ));
                        lemma_update_value_wf(
                            cur,
                            i as int,
                            spec_set_flag(cur[i as int].1, rv[j as int].flag),
                        );
                    }
                },
                None => {
                    let ghost before = skipped.deep_view();
                    skipped.push(recs[j].clone_record());
                    proof {
                        assert(skipped.deep_view() =~= before.push(rv[j as int]));
                    }
                },
            }
            j = j + 1;
        }
        skipped
    }

    /// Folds the calling-code/time-zone source in by the matching protocol.
    #[verifier::loop_isolation(false)]
    pub fn merge_cc_tz(&mut self, recs: &Vec<WikipediaScrapedCcTz>) -> (skipped: Vec<
        WikipediaScrapedCcTz,
    >)
        requires
            map_wf(old(self)@),
        ensures
            final(self)@ == fold_cc_tz(
                old(self)@,
                recs.deep_view(),
                recs.deep_view().len() as int,
            ).0,
            skipped.deep_view() == fold_cc_tz(
                old(self)@,
                recs.deep_view(),
                recs.deep_view().len() as int,
            ).1,
            map_wf(final(self)@),
    {
        let ghost s0 = self@;
        let ghost rv = recs.deep_view();
        let mut skipped: Vec<WikipediaScrapedCcTz> = Vec::new();
        let mut j: usize = 0;
        proof {
            assert(skipped.deep_view() =~= Seq::<WikipediaScrapedCcTzV>::empty());
        }
        loop
            invariant
                j <= recs@.len(),
                rv.len() == recs@.len(),
                self@ == fold_cc_tz(s0, rv, j as int).0,
                skipped.deep_view() == fold_cc_tz(s0, rv, j as int).1,
                map_wf(self@),
            decreases recs@.len() - j,
        {
            if j == recs.len() {
                break;
            }
            proof {
                assert(recs@[j as int]@ == rv[j as int]);
            }
            let ghost cur = self@;
            match self.match_by_name(recs[j].exonym.as_str()) {
                Some(i) => {
                    proof {
                        lemma_match_index_bound(cur, rv[j as int].exonym);
                    }
                    let (key, mut c) = self.entries.remove(i);
                    proof {
                        assert(c@ == cur[i as int].1);
                    }
                    c.add_wikipedia_cc_tz(recs[j].clone_record());
                    self.entries.insert(i, (key, c));
                    proof {
                        assert(self@ =~= cur.update(
                            i as int,
                            (cur[i as int].0, spec_add_cc_tz(cur[i as int].1, rv[j as int])),
                        ));
                        lemma_update_value_wf(
                            cur,
                            i as int,
                            spec_add_cc_tz(cur[i as int].1, rv[j as int]),
                        );
                    }
                },
                None => {
                    let ghost before = skipped.deep_view();
                    skipped.push(recs[j].clone_record());
                    proof {
                        assert(skipped.deep_view() =~= before.push(rv[j as int]));
                    }
                },
            }
            j = j + 1;
        }
        skipped
    }
}

/// A matched index lies inside the map.
pub proof fn lemma_match_index_bound(s: Seq<(Seq<char>, CountryV)>, name: Seq<char>)
    ensures
        match match_index(s, name) {
            Some(i) => 0 <= i < s.len(),
            None => true,
        },
{
    lemma_exo_ci_index_char(s, lower_of(name));
    lemma_endo_ci_index_char(s, lower_of(name));
}

/// Replacing one entity with a well-formed one, under its key, keeps the map
/// well formed.
pub proof fn lemma_update_value_wf(s: Seq<(Seq<char>, CountryV)>, i: int, v: CountryV)
    requires
        map_wf(s),
        0 <= i < s.len(),
        country_wf(v),
    ensures
        map_wf(s.update(i, (s[i].0, v))),
{
    let r = s.update(i, (s[i].0, v));
    assert(map_keys(r) =~= map_keys(s));
    assert forall|j: int| 0 <= j < r.len() implies country_wf((#[trigger] r[j]).1) by {
        if j != i {
            assert(r[j] == s[j]);
        }
    }
}

pub proof fn lemma_key_index_get(s: Seq<(Seq<char>, CountryV)>, k: Seq<char>)
    ensures
        match key_index(s, k) {
            Some(i) => 0 <= i < s.len() && map_get(s, k) == Some(s[i].1),
            None => map_get(s, k) is None,
        },
    decreases s.len(),
{
    if s.len() > 0 && s[0].0 != k {
        lemma_key_index_get(s.drop_first(), k);
        match key_index(s.drop_first(), k) {
            Some(i) => {
                assert(s.drop_first()[i] == s[i + 1]);
            },
            None => {},
        }
    }
}

/// The fallback match: a record whose reference name matches some entity's
/// endonym case-insensitively merges into an entity rather than being
/// reported unmatched.
pub proof fn lemma_fuzzy_match_merges(s: Seq<(Seq<char>, CountryV)>, rec: DatahubCurrencyV)
    requires
        exists|i: int|
            0 <= i < s.len() && entity_endo_ci((#[trigger] s[i]).1, lower_of(rec.exonym)),
    ensures
        match_index(s, rec.exonym) is Some,
        fold_currency_list(s, seq![rec], 1).1 == Seq::<DatahubCurrencyV>::empty(),
{
    lemma_exo_ci_index_char(s, lower_of(rec.exonym));
    lemma_endo_ci_index_char(s, lower_of(rec.exonym));
    assert(seq![rec][0] == rec);
    assert(seq![rec].drop_last() =~= Seq::<DatahubCurrencyV>::empty());
    if match_index(s, rec.exonym) is None {
        let i = choose|i: int|
            0 <= i < s.len() && entity_endo_ci((#[trigger] s[i]).1, lower_of(rec.exonym));
        assert(!entity_endo_ci(s[i].1, lower_of(rec.exonym)));
    }
    assert(fold_currency_list(s, seq![rec], 0).1 =~= Seq::<DatahubCurrencyV>::empty());
}

} // verus!
