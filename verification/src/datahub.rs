//! Records of the two JSON feeds. The feeds are fetched and decoded outside
//! the library; the pipeline receives them as these plain records.

use vstd::prelude::*;

verus! {

/// One entry of the country-list feed: a name and its ISO 3166-1 alpha-2 code.
#[derive(Debug, Clone)]
pub struct DatahubCountry {
    pub code: String,
    pub name: String,
}

#[verifier::ext_equal]
pub struct DatahubCountryV {
    pub code: Seq<char>,
    pub name: Seq<char>,
}

impl View for DatahubCountry {
    type V = DatahubCountryV;

    open spec fn view(&self) -> DatahubCountryV {
        DatahubCountryV { code: self.code@, name: self.name@ }
    }
}

/// One entry of the currency-codes feed, keyed by a country name.
#[derive(Debug, Clone)]
pub struct DatahubCurrency {
    pub exonym: String,
    pub iso_4217: Option<String>,
    pub name: Option<String>,
}

#[verifier::ext_equal]
pub struct DatahubCurrencyV {
    pub exonym: Seq<char>,
    pub iso_4217: Option<Seq<char>>,
    pub name: Option<Seq<char>>,
}

impl View for DatahubCurrency {
    type V = DatahubCurrencyV;

    open spec fn view(&self) -> DatahubCurrencyV {
        DatahubCurrencyV {
            exonym: self.exonym@,
            iso_4217: self.iso_4217.deep_view(),
            name: self.name.deep_view(),
        }
    }
}

impl DeepView for DatahubCountry {
    type V = DatahubCountryV;

    open spec fn deep_view(&self) -> DatahubCountryV {
        self.view()
    }
}

impl DeepView for DatahubCurrency {
    type V = DatahubCurrencyV;

    open spec fn deep_view(&self) -> DatahubCurrencyV {
        self.view()
    }
}

impl DatahubCountry {
    /// A field-for-field copy.
    pub fn clone_record(&self) -> (r: Self)
        ensures
            r@ == self@,
    {
        DatahubCountry { code: self.code.clone(), name: self.name.clone() }
    }
}

impl DatahubCurrency {
    /// A field-for-field copy.
    pub fn clone_record(&self) -> (r: Self)
        ensures
            r@ == self@,
    {
        DatahubCurrency {
            exonym: self.exonym.clone(),
            iso_4217: match &self.iso_4217 {
                Some(s) => Some(s.clone()),
                None => None,
            },
            name: match &self.name {
                Some(s) => Some(s.clone()),
                None => None,
            },
        }
    }
}

} // verus!
