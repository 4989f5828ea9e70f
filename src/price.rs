//! Commodity prices: the rate of a commodity in a quote currency on a date.

use crate::date::Date;
use crate::text::{strip_quotes, strip_quotes_of};
use vstd::prelude::*;

verus! {

/// `commodity` cost `price` (in millionths) of `currency` on `date`.
#[derive(Debug, Clone)]
pub struct Price {
    pub date: Date,
    pub commodity: String,
    pub price: i64,
    pub currency: String,
}

impl Price {
    /// A price; double quotes are stripped from the commodity and currency.
    pub fn new(date: Date, commodity: String, price: i64, currency: String) -> (r: Price)
        ensures
            r.date == date,
            r.commodity@ == strip_quotes(commodity@),
            r.price == price,
            r.currency@ == strip_quotes(currency@),
    {
        Price {
            date,
            commodity: strip_quotes_of(commodity.as_str()),
            price,
            currency: strip_quotes_of(currency.as_str()),
        }
    }
}

impl PartialEq for Price {
    fn eq(&self, o: &Price) -> (r: bool) {
        self.date == o.date && self.commodity == o.commodity && self.price == o.price
            && self.currency == o.currency
    }
}

impl vstd::std_specs::cmp::PartialEqSpecImpl for Price {
    open spec fn obeys_eq_spec() -> bool {
        true
    }

    open spec fn eq_spec(&self, o: &Price) -> bool {
        self.date == o.date && self.commodity@ == o.commodity@ && self.price == o.price
            && self.currency@ == o.currency@
    }
}

} // verus!
