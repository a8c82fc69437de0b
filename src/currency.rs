//! Currency records, the fixed table of known currencies, lookup by alias
//! and exact conversion of quantities between currencies.
use vstd::prelude::*;
use crate::text::{eq_fold, eq_ignore_case, lemma_eq_fold_differs, lemma_eq_fold_equivalence, same_letter};

verus! {

/// The rate of the base currency: rates count ten-thousandths of it.
pub const BASE_RATE: u32 = 10000;

/// One currency: its name, code and symbol (the three aliases it answers
/// to) and its rate, the worth of one unit in ten-thousandths of the base.
#[derive(Debug)]
pub struct Currency {
    pub name: String,
    pub rate: u32,
    pub code: String,
    pub symbol: String,
}

impl Currency {
    /// A record with a positive rate.
    pub open spec fn wf(&self) -> bool {
        self.rate > 0
    }

    /// `alias` names this currency by code, name or symbol, ignoring the
    /// case of ASCII letters.
    pub open spec fn answers_to(&self, alias: Seq<char>) -> bool {
        eq_fold(self.code@, alias) || eq_fold(self.name@, alias) || eq_fold(self.symbol@, alias)
    }

    pub fn new(name: &str, rate: u32, code: &str, symbol: &str) -> (r: Currency)
        requires
            rate > 0,
        ensures
            r.wf(),
            r.name@ == name@,
            r.rate == rate,
            r.code@ == code@,
            r.symbol@ == symbol@,
    {
        Currency { name: name.to_owned(), rate, code: code.to_owned(), symbol: symbol.to_owned() }
    }

    /// Tells whether `alias` names this currency.
    pub fn is_named(&self, alias: &str) -> (r: bool)
        ensures
            r == self.answers_to(alias@),
    {
        eq_ignore_case(self.code.as_str(), alias) || eq_ignore_case(self.name.as_str(), alias)
            || eq_ignore_case(self.symbol.as_str(), alias)
    }

    /// Converts `amount` into this currency.
    pub fn convert(amount: Amount, to_currency: &Currency, currencies: &CurrencyTable) -> (r:
        Result<Quantity, ConversionError>)
        ensures
            match currencies.spec_find(amount.currency@) {
                None => r == Err::<Quantity, ConversionError>(
                    ConversionError::UnknownSourceCurrency(amount.currency),
                ),
                Some(i) => match exchange(amount.quantity, currencies@[i], *to_currency) {
                    Some(q) => r == Ok::<Quantity, ConversionError>(q),
                    None => r == Err::<Quantity, ConversionError>(ConversionError::Overflow),
                },
            },
    {
        match find_currency(amount.currency.as_str(), currencies) {
            None => Err(ConversionError::UnknownSourceCurrency(amount.currency)),
            Some(from_currency) => {
                let n = amount.quantity.num.checked_mul(from_currency.rate as i128);
                let d = amount.quantity.den.checked_mul(to_currency.rate as i128);
                match (n, d) {
                    (Some(num), Some(den)) => Ok(Quantity { num, den }),
                    _ => Err(ConversionError::Overflow),
                }
            },
        }
    }
}

/// An exact rational quantity `num / den`.
#[derive(Clone, Copy, Debug, PartialEq, Eq, Structural)]
pub struct Quantity {
    pub num: i128,
    pub den: i128,
}

impl Quantity {
    /// The denominator is positive.
    pub open spec fn wf(self) -> bool {
        self.den > 0
    }

    /// Two quantities stand for the same rational number.
    pub open spec fn same_value(self, other: Quantity) -> bool {
        self.num * other.den == other.num * self.den
    }

    /// The whole number `n`.
    pub fn whole(n: i64) -> (r: Quantity)
        ensures
            r.wf(),
            r.num == n,
            r.den == 1,
    {
        Quantity { num: n as i128, den: 1 }
    }
}

/// A quantity of the currency that `currency` names.
pub struct Amount {
    pub quantity: Quantity,
    pub currency: String,
}

/// Why a conversion failed.
#[derive(Debug, PartialEq, Eq)]
pub enum ConversionError {
    /// No currency answers to the source alias.
    UnknownSourceCurrency(String),
    /// The exact result does not fit in 128-bit numerator and denominator.
    Overflow,
}

pub open spec fn fits_i128(x: int) -> bool {
    i128::MIN <= x && x <= i128::MAX
}

/// `q` of currency `from` expressed in currency `to`: the quantity scaled by
/// `from.rate / to.rate`, or `None` where that does not fit.
pub open spec fn exchange(q: Quantity, from: Currency, to: Currency) -> Option<Quantity> {
    let n = q.num * from.rate;
    let d = q.den * to.rate;
    if fits_i128(n) && fits_i128(d) {
        Some(Quantity { num: n as i128, den: d as i128 })
    } else {
        None
    }
}

/// Converting a quantity from a currency to itself keeps its value.
pub proof fn lemma_convert_to_itself(q: Quantity, c: Currency)
    requires
        q.wf(),
        c.wf(),
        exchange(q, c, c) is Some,
    ensures
        exchange(q, c, c)->0.wf(),
        exchange(q, c, c)->0.same_value(q),
{
    let r = exchange(q, c, c)->0;
    assert(r.den > 0) by (nonlinear_arith)
        requires
            r.den == q.den * c.rate,
            q.den > 0,
            c.rate > 0,
    ;
    assert(r.num * q.den == q.num * r.den) by (nonlinear_arith)
        requires
            r.num == q.num * c.rate,
            r.den == q.den * c.rate,
    ;
}

/// Converting from `a` to `b` and back gives a quantity of the same value.
pub proof fn lemma_round_trip(q: Quantity, a: Currency, b: Currency)
    requires
        q.wf(),
        a.wf(),
        b.wf(),
        exchange(q, a, b) is Some,
        exchange(exchange(q, a, b)->0, b, a) is Some,
    ensures
        exchange(exchange(q, a, b)->0, b, a)->0.wf(),
        exchange(exchange(q, a, b)->0, b, a)->0.same_value(q),
{
    let x = exchange(q, a, b)->0;
    let y = exchange(x, b, a)->0;
    assert(y.den > 0) by (nonlinear_arith)
        requires
            y.den == q.den * b.rate * a.rate,
            q.den > 0,
            a.rate > 0,
            b.rate > 0,
    ;
    assert(y.num * q.den == q.num * y.den) by (nonlinear_arith)
        requires
            y.num == q.num * a.rate * b.rate,
            y.den == q.den * b.rate * a.rate,
    ;
}

/// Every rate is positive and no alias of one record names another.
pub open spec fn records_wf(rs: Seq<Currency>) -> bool {
    &&& forall|i: int| 0 <= i < rs.len() ==> (#[trigger] rs[i]).wf()
    &&& forall|i: int, j: int|
        0 <= i < rs.len() && 0 <= j < rs.len() && i != j ==> {
            &&& !(#[trigger] rs[j]).answers_to((#[trigger] rs[i]).code@)
            &&& !rs[j].answers_to(rs[i].name@)
            &&& !rs[j].answers_to(rs[i].symbol@)
        }
}

/// The known currencies. Each answers to its code, name and symbol, and no
/// alias names two of them.
pub struct CurrencyTable {
    records: Vec<Currency>,
}

impl View for CurrencyTable {
    type V = Seq<Currency>;

    closed spec fn view(&self) -> Seq<Currency> {
        self.records@
    }
}

impl CurrencyTable {
    pub open spec fn wf(&self) -> bool {
        records_wf(self@)
    }

    /// The index of the first record that answers to `alias`.
    pub open spec fn spec_find(&self, alias: Seq<char>) -> Option<int> {
        if exists|i: int|
            0 <= i < self@.len() && (#[trigger] self@[i]).answers_to(alias) && forall|j: int|
                0 <= j < i ==> !(#[trigger] self@[j]).answers_to(alias) {
            Some(
                choose|i: int|
                    0 <= i < self@.len() && (#[trigger] self@[i]).answers_to(alias) && forall|
                        j: int,
                    |
                        0 <= j < i ==> !(#[trigger] self@[j]).answers_to(alias),
            )
        } else {
            None
        }
    }

    /// A table of `records`, or `None` where a rate is zero or an alias of
    /// one record names another.
    pub fn from_records(records: Vec<Currency>) -> (r: Option<CurrencyTable>)
        ensures
            match r {
                Some(t) => t@ == records@ && t.wf(),
                None => !records_wf(records@),
            },
    {
        let ghost t = CurrencyTable { records };
        let n = records.len();
        let mut i: usize = 0;
        while i < n
            invariant
                n == records@.len(),
                t@ == records@,
                i <= n,
                forall|a: int| 0 <= a < i ==> (#[trigger] t@[a]).wf(),
                forall|a: int, b: int|
                    0 <= a < i && 0 <= b < n && a != b ==> {
                        &&& !(#[trigger] t@[b]).answers_to((#[trigger] t@[a]).code@)
                        &&& !t@[b].answers_to(t@[a].name@)
                        &&& !t@[b].answers_to(t@[a].symbol@)
                    },
            decreases n - i,
        {
            let c = &records[i];
            if c.rate == 0 {
                return None;
            }
            let mut j: usize = 0;
            while j < n
                invariant
                    n == records@.len(),
                    t@ == records@,
                    i < n,
                    j <= n,
                    *c == t@[i as int],
                    forall|b: int|
                        0 <= b < j && b != i ==> {
                            &&& !(#[trigger] t@[b]).answers_to(t@[i as int].code@)
                            &&& !t@[b].answers_to(t@[i as int].name@)
                            &&& !t@[b].answers_to(t@[i as int].symbol@)
                        },
                decreases n - j,
            {
                if j != i {
                    let d = &records[j];
                    if d.is_named(c.code.as_str()) || d.is_named(c.name.as_str()) || d.is_named(
                        c.symbol.as_str(),
                    ) {
                        assert(!records_wf(records@)) by {
                            assert(t@[j as int] == *d);
                        }
                        return None;
                    }
                }
                j = j + 1;
            }
            i = i + 1;
        }
        Some(CurrencyTable { records })
    }

    /// The number of records.
    pub fn len(&self) -> (r: usize)
        ensures
            r == self@.len(),
    {
        self.records.len()
    }

    /// The record at `i`.
    pub fn get(&self, i: usize) -> (r: &Currency)
        requires
            i < self@.len(),
        ensures
            *r == self@[i as int],
    {
        &self.records[i]
    }
}

/// The six built-in currencies, in this order: US Dollar (the base), Tenge,
/// Euro, Japanese Yen, British Pound and Ruble.
pub fn init_currencies() -> (r: CurrencyTable)
    ensures
        r.wf(),
        r@.len() == 6,
        r@[0].name@ == "US Dollar"@ && r@[0].rate == BASE_RATE && r@[0].code@ == "USD"@
            && r@[0].symbol@ == "$"@,
        r@[1].name@ == "Tenge"@ && r@[1].rate == 22 && r@[1].code@ == "KZT"@ && r@[1].symbol@
            == "\u{20b8}"@,
        r@[2].name@ == "Euro"@ && r@[2].rate == 10700 && r@[2].code@ == "EUR"@ && r@[2].symbol@
            == "\u{20ac}"@,
        r@[3].name@ == "Japanese Yen"@ && r@[3].rate == 64 && r@[3].code@ == "JPY"@
            && r@[3].symbol@ == "\u{a5}"@,
        r@[4].name@ == "British Pound"@ && r@[4].rate == 12700 && r@[4].code@ == "GBP"@
            && r@[4].symbol@ == "\u{a3}"@,
        r@[5].name@ == "Ruble"@ && r@[5].rate == 100 && r@[5].code@ == "RUB"@ && r@[5].symbol@
            == "\u{20bd}"@,
{
    let usd = Currency::new("US Dollar", BASE_RATE, "USD", "$");
    let tenge = Currency::new("Tenge", 22, "KZT", "\u{20b8}");
    let euro = Currency::new("Euro", 10700, "EUR", "\u{20ac}");
    let yen = Currency::new("Japanese Yen", 64, "JPY", "\u{a5}");
    let pound = Currency::new("British Pound", 12700, "GBP", "\u{a3}");
    let ruble = Currency::new("Ruble", 100, "RUB", "\u{20bd}");
    let records = vec![usd, tenge, euro, yen, pound, ruble];
    let r = CurrencyTable { records };
    proof {
        reveal_strlit("US Dollar");
        reveal_strlit("USD");
        reveal_strlit("$");
        reveal_strlit("Tenge");
        reveal_strlit("KZT");
        reveal_strlit("\u{20b8}");
        reveal_strlit("Euro");
        reveal_strlit("EUR");
        reveal_strlit("\u{20ac}");
        reveal_strlit("Japanese Yen");
        reveal_strlit("JPY");
        reveal_strlit("\u{a5}");
        reveal_strlit("British Pound");
        reveal_strlit("GBP");
        reveal_strlit("\u{a3}");
        reveal_strlit("Ruble");
        reveal_strlit("RUB");
        reveal_strlit("\u{20bd}");
        assert forall|i: int, j: int|
            0 <= i < r@.len() && 0 <= j < r@.len() && i != j implies {
            &&& !(#[trigger] r@[j]).answers_to((#[trigger] r@[i]).code@)
            &&& !r@[j].answers_to(r@[i].name@)
            &&& !r@[j].answers_to(r@[i].symbol@)
        } by {
            lemma_records_apart(r@[i], r@[j]);
        }
    }
    r
}

/// Two records whose aliases differ in length or in their first letter,
/// for every pairing of aliases of the one and of the other.
pub open spec fn apart(a: Currency, b: Currency) -> bool {
    &&& aliases_apart(a.code@, b)
    &&& aliases_apart(a.name@, b)
    &&& aliases_apart(a.symbol@, b)
}

pub open spec fn texts_apart(s: Seq<char>, t: Seq<char>) -> bool {
    s.len() != t.len() || (s.len() > 0 && t.len() > 0 && !same_letter(s[0], t[0]))
}

pub open spec fn aliases_apart(s: Seq<char>, b: Currency) -> bool {
    texts_apart(b.code@, s) && texts_apart(b.name@, s) && texts_apart(b.symbol@, s)
}

proof fn lemma_records_apart(a: Currency, b: Currency)
    requires
        apart(a, b),
    ensures
        !b.answers_to(a.code@),
        !b.answers_to(a.name@),
        !b.answers_to(a.symbol@),
{
    lemma_eq_fold_differs(b.code@, a.code@);
    lemma_eq_fold_differs(b.name@, a.code@);
    lemma_eq_fold_differs(b.symbol@, a.code@);
    lemma_eq_fold_differs(b.code@, a.name@);
    lemma_eq_fold_differs(b.name@, a.name@);
    lemma_eq_fold_differs(b.symbol@, a.name@);
    lemma_eq_fold_differs(b.code@, a.symbol@);
    lemma_eq_fold_differs(b.name@, a.symbol@);
    lemma_eq_fold_differs(b.symbol@, a.symbol@);
}

/// Looks `query` up among the aliases of the table's records.
pub fn find_currency<'a>(query: &str, currencies: &'a CurrencyTable) -> (r: Option<&'a Currency>)
    ensures
        match currencies.spec_find(query@) {
            Some(i) => r == Some(&currencies@[i]),
            None => r is None,
        },
{
    let mut i: usize = 0;
    while i < currencies.records.len()
        invariant
            i <= currencies@.len(),
            forall|j: int| 0 <= j < i ==> !(#[trigger] currencies@[j]).answers_to(query@),
        decreases currencies@.len() - i,
    {
        if currencies.records[i].is_named(query) {
            let ghost k = currencies.spec_find(query@);
            assert(k is Some);
            assert(k->0 == i as int);
            return Some(&currencies.records[i]);
        }
        i = i + 1;
    }
    None
}

/// In a well-formed table, each record is found by any text equal to its
/// code, name or symbol up to the case of ASCII letters.
pub proof fn lemma_found_by_any_alias(table: CurrencyTable, i: int, alias: Seq<char>)
    requires
        table.wf(),
        0 <= i < table@.len(),
        table@[i].answers_to(alias),
    ensures
        table.spec_find(alias) == Some(i),
{
    let c = table@[i];
    assert forall|j: int| 0 <= j < i implies !(#[trigger] table@[j]).answers_to(alias) by {
        let d = table@[j];
        lemma_eq_fold_equivalence(d.code@, alias, c.code@);
        lemma_eq_fold_equivalence(d.code@, alias, c.name@);
        lemma_eq_fold_equivalence(d.code@, alias, c.symbol@);
        lemma_eq_fold_equivalence(d.name@, alias, c.code@);
        lemma_eq_fold_equivalence(d.name@, alias, c.name@);
        lemma_eq_fold_equivalence(d.name@, alias, c.symbol@);
        lemma_eq_fold_equivalence(d.symbol@, alias, c.code@);
        lemma_eq_fold_equivalence(d.symbol@, alias, c.name@);
        lemma_eq_fold_equivalence(d.symbol@, alias, c.symbol@);
        lemma_eq_fold_equivalence(c.code@, alias, c.code@);
        lemma_eq_fold_equivalence(c.name@, alias, c.name@);
        lemma_eq_fold_equivalence(c.symbol@, alias, c.symbol@);
        lemma_eq_fold_equivalence(alias, c.code@, c.code@);
        lemma_eq_fold_equivalence(alias, c.name@, c.name@);
        lemma_eq_fold_equivalence(alias, c.symbol@, c.symbol@);
        assert(!d.answers_to(c.code@));
        assert(!d.answers_to(c.name@));
        assert(!d.answers_to(c.symbol@));
    }
    let k = table.spec_find(alias);
    assert(k is Some);
    assert(k->0 == i);
}

} // verus!
