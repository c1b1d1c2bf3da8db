//! Tokens and money.
//!
//! Token counts are kept per model, because tokenizers differ. Cost is summed, and a cost that the
//! provider did not report is never invented.

use vstd::prelude::*;

use crate::text::{ascending, comes_before, same_text, text_order_is_total, text_order_is_transitive, text_before};

verus! {

/// A currency. Kept explicit so a ledger can refuse to add dollars to euros.
#[derive(Debug, Clone, Copy, PartialEq, Eq, PartialOrd, Ord, Hash, Structural)]
#[non_exhaustive]
pub enum Currency {
    /// United States dollar.
    Usd,
    /// Euro.
    Eur,
    /// Provider-internal credits that do not map to a currency.
    Credits,
}

impl Default for Currency {
    fn default() -> (r: Self)
        ensures
            r == Currency::Usd,
    {
        Currency::Usd
    }
}

/// The name of a currency.
pub open spec fn currency_name(c: Currency) -> Seq<char> {
    match c {
        Currency::Usd => "Usd"@,
        Currency::Eur => "Eur"@,
        Currency::Credits => "Credits"@,
    }
}

impl Currency {
    fn name(self) -> (r: &'static str)
        ensures
            r@ == currency_name(self),
    {
        match self {
            Currency::Usd => "Usd",
            Currency::Eur => "Eur",
            Currency::Credits => "Credits",
        }
    }
}

/// An amount of money, in millionths of a unit, so that arithmetic is exact.
#[derive(Debug, Clone, Copy, PartialEq, Eq, PartialOrd, Ord, Structural)]
pub struct Money {
    /// Millionths of a currency unit.
    pub micros: i64,
    /// Which currency.
    pub currency: Currency,
}

/// The sum of two amounts, held in 64 bits.
pub open spec fn held_sum(a: i64, b: i64) -> i64 {
    if a + b > i64::MAX {
        i64::MAX
    } else if a + b < i64::MIN {
        i64::MIN
    } else {
        (a + b) as i64
    }
}

impl Money {
    /// Zero, in `currency`.
    #[must_use]
    pub fn zero(currency: Currency) -> (r: Self)
        ensures
            r == (Money { micros: 0, currency }),
    {
        Money { micros: 0, currency }
    }

    /// An amount in micro-units.
    #[must_use]
    pub fn micros(micros: i64, currency: Currency) -> (r: Self)
        ensures
            r == (Money { micros, currency }),
    {
        Money { micros, currency }
    }

    /// Add, if the currencies match, and refuse otherwise.
    pub fn checked_add(self, other: Self) -> (r: Result<Self, CurrencyMismatch>)
        ensures
            self.currency == other.currency ==> r == Ok::<Money, CurrencyMismatch>(
                Money { micros: held_sum(self.micros, other.micros), currency: self.currency },
            ),
            self.currency != other.currency ==> r == Err::<Money, CurrencyMismatch>(
                CurrencyMismatch { left: self.currency, right: other.currency },
            ),
    {
        if self.currency != other.currency {
            return Err(CurrencyMismatch { left: self.currency, right: other.currency });
        }
        let sum: i128 = self.micros as i128 + other.micros as i128;
        let micros: i64 = if sum > i64::MAX as i128 {
            i64::MAX
        } else if sum < i64::MIN as i128 {
            i64::MIN
        } else {
            sum as i64
        };
        Ok(Money { micros, currency: self.currency })
    }
}

/// Two amounts in different currencies were combined.
#[derive(Debug, Clone, Copy, PartialEq, Eq, Structural)]
pub struct CurrencyMismatch {
    /// The left-hand currency.
    pub left: Currency,
    /// The right-hand currency.
    pub right: Currency,
}

impl CurrencyMismatch {
    /// The error as one sentence.
    #[must_use]
    pub fn to_string(&self) -> (r: String)
        ensures
            r@ == "cannot combine "@ + currency_name(self.left) + " and "@ + currency_name(self.right)
                + " without an exchange rate"@,
    {
        let mut s = "cannot combine ".to_owned();
        s.push_str(self.left.name());
        s.push_str(" and ");
        s.push_str(self.right.name());
        s.push_str(" without an exchange rate");
        s
    }
}

/// Where a cost figure came from.
#[derive(Debug, Clone, Copy, PartialEq, Eq, Structural)]
pub enum PricingSource {
    /// The provider reported it. Trustworthy.
    Reported,
    /// Computed from a shipped pricing table. May be stale.
    LocalTable,
    /// Computed from operator-supplied prices in configuration.
    Configured,
}

impl PricingSource {
    /// Whether a figure from this source may be presented without an "estimated" qualifier.
    #[must_use]
    pub fn is_authoritative(self) -> (r: bool)
        ensures
            r == (self == PricingSource::Reported),
    {
        matches!(self, PricingSource::Reported)
    }
}

/// A cost figure, always carrying where it came from.
#[derive(Debug, Clone, Copy, PartialEq, Eq, Structural)]
pub struct CostEstimate {
    /// The amount.
    pub amount: Money,
    /// Where the number came from.
    pub source: PricingSource,
}

/// What one model call consumed.
#[derive(Debug, PartialEq, Eq)]
pub struct Usage {
    /// Fresh input tokens. Some providers count only those behind the last cache breakpoint.
    pub input: u64,
    /// Generated tokens.
    pub output: u64,
    /// Tokens served from cache.
    pub cache_read: u64,
    /// Tokens written to cache.
    pub cache_write: u64,
    /// Reasoning tokens, where the provider separates them.
    pub reasoning: u64,
    /// The cost the provider reported. `None` means the provider did not say.
    pub reported_cost: Option<Money>,
    /// The provider's own usage object, kept verbatim as JSON text.
    pub raw: Option<String>,
}

impl Default for Usage {
    fn default() -> (r: Self)
        ensures
            r == (Usage {
                input: 0,
                output: 0,
                cache_read: 0,
                cache_write: 0,
                reasoning: 0,
                reported_cost: None,
                raw: None,
            }),
    {
        Usage {
            input: 0,
            output: 0,
            cache_read: 0,
            cache_write: 0,
            reasoning: 0,
            reported_cost: None,
            raw: None,
        }
    }
}

impl Clone for Usage {
    fn clone(&self) -> (r: Self)
        ensures
            r == *self,
    {
        Usage {
            input: self.input,
            output: self.output,
            cache_read: self.cache_read,
            cache_write: self.cache_write,
            reasoning: self.reasoning,
            reported_cost: self.reported_cost,
            raw: match &self.raw {
                Some(s) => Some(s.clone()),
                None => None,
            },
        }
    }
}

impl Usage {
    /// Every input token the request consumed, cached or not.
    pub open spec fn all_input(self) -> nat {
        self.input as nat + self.cache_read as nat + self.cache_write as nat
    }

    /// Every input token the request consumed, cached or not.
    #[must_use]
    pub fn total_input(&self) -> (r: u64)
        requires
            self.all_input() <= u64::MAX,
        ensures
            r == self.all_input(),
    {
        self.input + self.cache_read + self.cache_write
    }

    /// The cached share of the input, as the tokens served from cache and all input tokens. Nothing
    /// when there were no input tokens, rather than a misleading zero.
    #[must_use]
    pub fn cache_hit_parts(&self) -> (r: Option<(u64, u64)>)
        requires
            self.all_input() <= u64::MAX,
        ensures
            r == (if self.all_input() == 0 {
                None
            } else {
                Some((self.cache_read, self.all_input() as u64))
            }),
    {
        let total: u64 = self.total_input();
        if total == 0 {
            None
        } else {
            Some((self.cache_read, total))
        }
    }
}

/// Token counts for one model.
#[derive(Debug, Clone, Copy, PartialEq, Eq, Structural)]
pub struct TokenTotals {
    /// Fresh input.
    pub input: u64,
    /// Output.
    pub output: u64,
    /// Cache reads.
    pub cache_read: u64,
    /// Cache writes.
    pub cache_write: u64,
    /// Reasoning.
    pub reasoning: u64,
    /// How many calls contributed.
    pub calls: u32,
}

/// Counts before any call.
pub open spec fn no_tokens() -> TokenTotals {
    TokenTotals { input: 0, output: 0, cache_read: 0, cache_write: 0, reasoning: 0, calls: 0 }
}

impl Default for TokenTotals {
    fn default() -> (r: Self)
        ensures
            r == no_tokens(),
    {
        TokenTotals { input: 0, output: 0, cache_read: 0, cache_write: 0, reasoning: 0, calls: 0 }
    }
}

impl TokenTotals {
    /// Whether one more call's counts can be held.
    pub open spec fn has_room(self, usage: Usage) -> bool {
        &&& self.input + usage.input <= u64::MAX
        &&& self.output + usage.output <= u64::MAX
        &&& self.cache_read + usage.cache_read <= u64::MAX
        &&& self.cache_write + usage.cache_write <= u64::MAX
        &&& self.reasoning + usage.reasoning <= u64::MAX
        &&& self.calls < u32::MAX
    }

    /// The counts with one more call.
    pub open spec fn plus(self, usage: Usage) -> TokenTotals {
        TokenTotals {
            input: (self.input + usage.input) as u64,
            output: (self.output + usage.output) as u64,
            cache_read: (self.cache_read + usage.cache_read) as u64,
            cache_write: (self.cache_write + usage.cache_write) as u64,
            reasoning: (self.reasoning + usage.reasoning) as u64,
            calls: (self.calls + 1) as u32,
        }
    }

    /// Count one more call.
    #[must_use]
    pub fn with_call(self, usage: &Usage) -> (r: TokenTotals)
        requires
            self.has_room(*usage),
        ensures
            r == self.plus(*usage),
    {
        TokenTotals {
            input: self.input + usage.input,
            output: self.output + usage.output,
            cache_read: self.cache_read + usage.cache_read,
            cache_write: self.cache_write + usage.cache_write,
            reasoning: self.reasoning + usage.reasoning,
            calls: self.calls + 1,
        }
    }
}

/// Running totals across many calls.
#[derive(Debug, PartialEq, Eq)]
pub struct UsageTotals {
    /// Per-model token counts, in the order of their keys, which are `provider:model`.
    pub by_model: Vec<(String, TokenTotals)>,
    /// Total reported cost. `None` if no call reported one.
    pub reported_cost: Option<Money>,
    /// How many calls reported no cost.
    pub unmetered_calls: u32,
}

/// Running totals across many calls.
#[verifier::ext_equal]
pub struct UsageTotalsView {
    pub by_model: Map<Seq<char>, TokenTotals>,
    pub reported_cost: Option<Money>,
    pub unmetered_calls: u32,
}

/// The counts by key.
pub open spec fn by_key(v: Seq<(String, TokenTotals)>) -> Map<Seq<char>, TokenTotals>
    decreases v.len(),
{
    if v.len() == 0 {
        Map::empty()
    } else {
        by_key(v.drop_last()).insert(v.last().0@, v.last().1)
    }
}

/// The keys, in order.
pub open spec fn keys_of(v: Seq<(String, TokenTotals)>) -> Seq<Seq<char>> {
    Seq::new(v.len(), |i: int| v[i].0@)
}

impl View for UsageTotals {
    type V = UsageTotalsView;

    open spec fn view(&self) -> UsageTotalsView {
        UsageTotalsView {
            by_model: by_key(self.by_model@),
            reported_cost: self.reported_cost,
            unmetered_calls: self.unmetered_calls,
        }
    }
}

impl Clone for UsageTotals {
    fn clone(&self) -> (r: Self)
        ensures
            r@ == self@,
            r.well_formed() == self.well_formed(),
    {
        let mut by_model: Vec<(String, TokenTotals)> = Vec::new();
        let mut i: usize = 0;
        while i < self.by_model.len()
            invariant
                i <= self.by_model@.len(),
                by_model@ == self.by_model@.take(i as int),
            decreases self.by_model@.len() - i,
        {
            by_model.push((self.by_model[i].0.clone(), self.by_model[i].1));
            i = i + 1;
        }
        assert(by_model@ == self.by_model@);
        UsageTotals {
            by_model,
            reported_cost: self.reported_cost,
            unmetered_calls: self.unmetered_calls,
        }
    }
}

/// Totals before any call.
pub open spec fn no_usage() -> UsageTotalsView {
    UsageTotalsView { by_model: Map::empty(), reported_cost: None, unmetered_calls: 0 }
}

impl Default for UsageTotals {
    fn default() -> (r: Self)
        ensures
            r@ == no_usage(),
            r.well_formed(),
    {
        UsageTotals { by_model: Vec::new(), reported_cost: None, unmetered_calls: 0 }
    }
}

impl UsageTotalsView {
    /// The counts so far for a key.
    pub open spec fn counts(self, key: Seq<char>) -> TokenTotals {
        if self.by_model.contains_key(key) {
            self.by_model[key]
        } else {
            no_tokens()
        }
    }

    /// Whether one more call can be counted.
    pub open spec fn has_room(self, key: Seq<char>, usage: Usage) -> bool {
        self.counts(key).has_room(usage) && (usage.reported_cost is None ==> self.unmetered_calls
            < u32::MAX)
    }

    /// Whether a call's cost is in another currency than the total.
    pub open spec fn clashes(self, usage: Usage) -> bool {
        self.reported_cost is Some && usage.reported_cost is Some && self.reported_cost->0.currency
            != usage.reported_cost->0.currency
    }

    /// The totals with one more call. Its tokens are counted in any case; its cost only where the
    /// currency is that of the total.
    pub open spec fn plus(self, key: Seq<char>, usage: Usage) -> UsageTotalsView {
        UsageTotalsView {
            by_model: self.by_model.insert(key, self.counts(key).plus(usage)),
            reported_cost: match (self.reported_cost, usage.reported_cost) {
                (None, Some(cost)) => Some(cost),
                (Some(running), Some(cost)) => if running.currency == cost.currency {
                    Some(
                        Money {
                            micros: held_sum(running.micros, cost.micros),
                            currency: running.currency,
                        },
                    )
                } else {
                    Some(running)
                },
                (running, None) => running,
            },
            unmetered_calls: if usage.reported_cost is None {
                (self.unmetered_calls + 1) as u32
            } else {
                self.unmetered_calls
            },
        }
    }
}

proof fn by_key_has(v: Seq<(String, TokenTotals)>, i: int)
    requires
        ascending(keys_of(v)),
        0 <= i < v.len(),
    ensures
        by_key(v).contains_key(v[i].0@),
        by_key(v)[v[i].0@] == v[i].1,
    decreases v.len(),
{
    if i < v.len() - 1 {
        let d = v.drop_last();
        assert(ascending(keys_of(d))) by {
            assert forall|a: int, b: int| 0 <= a < b < d.len() implies text_before(
                #[trigger] keys_of(d)[a],
                #[trigger] keys_of(d)[b],
            ) by {
                assert(text_before(keys_of(v)[a], keys_of(v)[b]));
            }
        }
        by_key_has(d, i);
        assert(text_before(keys_of(v)[i], keys_of(v)[v.len() - 1]));
        text_order_is_total(v[i].0@, v.last().0@);
    }
}

proof fn by_key_lacks(v: Seq<(String, TokenTotals)>, key: Seq<char>)
    requires
        forall|i: int| 0 <= i < v.len() ==> (#[trigger] v[i]).0@ != key,
    ensures
        !by_key(v).contains_key(key),
    decreases v.len(),
{
    if v.len() > 0 {
        let d = v.drop_last();
        assert forall|i: int| 0 <= i < d.len() implies (#[trigger] d[i]).0@ != key by {
            assert(v[i].0@ != key);
        }
        by_key_lacks(d, key);
        assert(v[v.len() - 1].0@ != key);
    }
}

proof fn by_key_is(v: Seq<(String, TokenTotals)>, m: Map<Seq<char>, TokenTotals>)
    requires
        ascending(keys_of(v)),
        forall|i: int| 0 <= i < v.len() ==> m.contains_key((#[trigger] v[i]).0@) && m[v[i].0@] == v[i].1,
        forall|k: Seq<char>| #[trigger] m.contains_key(k) ==> exists|i: int| 0 <= i < v.len() && (#[trigger] v[i]).0@ == k,
    ensures
        by_key(v) == m,
{
    assert forall|k: Seq<char>| #[trigger] by_key(v).dom().contains(k) == m.dom().contains(k) by {
        if m.contains_key(k) {
            let i = choose|i: int| 0 <= i < v.len() && (#[trigger] v[i]).0@ == k;
            by_key_has(v, i);
        } else {
            assert forall|i: int| 0 <= i < v.len() implies (#[trigger] v[i]).0@ != k by {}
            by_key_lacks(v, k);
        }
    }
    assert forall|k: Seq<char>| m.dom().contains(k) implies #[trigger] by_key(v)[k] == m[k] by {
        assert(m.contains_key(k));
        let i = choose|i: int| 0 <= i < v.len() && (#[trigger] v[i]).0@ == k;
        by_key_has(v, i);
    }
    assert(by_key(v) =~= m);
}

proof fn by_key_from(v: Seq<(String, TokenTotals)>, key: Seq<char>) -> (i: int)
    requires
        by_key(v).contains_key(key),
    ensures
        0 <= i < v.len(),
        v[i].0@ == key,
    decreases v.len(),
{
    if v.last().0@ == key {
        v.len() - 1
    } else {
        by_key_from(v.drop_last(), key)
    }
}

impl UsageTotals {
    /// Whether the counts are in the order of their keys, each key once.
    pub open spec fn well_formed(self) -> bool {
        ascending(keys_of(self.by_model@))
    }

    fn tally(&mut self, key: &str, usage: &Usage)
        requires
            old(self).well_formed(),
            old(self)@.counts(key@).has_room(*usage),
        ensures
            final(self).well_formed(),
            final(self)@.by_model == old(self)@.by_model.insert(
                key@,
                old(self)@.counts(key@).plus(*usage),
            ),
            final(self).reported_cost == old(self).reported_cost,
            final(self).unmetered_calls == old(self).unmetered_calls,
    {
        let ghost all = self.by_model@;
        let ghost target = by_key(all).insert(key@, self@.counts(key@).plus(*usage));
        let mut i: usize = 0;
        while i < self.by_model.len() && comes_before(self.by_model[i].0.as_str(), key)
            invariant
                i <= self.by_model@.len(),
                self.by_model@ == all,
                self.reported_cost == old(self).reported_cost,
                self.unmetered_calls == old(self).unmetered_calls,
                forall|j: int| 0 <= j < i ==> text_before((#[trigger] all[j]).0@, key@),
            decreases self.by_model@.len() - i,
        {
            i = i + 1;
        }
        if i < self.by_model.len() && same_text(self.by_model[i].0.as_str(), key) {
            proof {
                by_key_has(all, i as int);
            }
            let counts = self.by_model[i].1.with_call(usage);
            self.by_model.set(i, (key.to_owned(), counts));
            proof {
                let now = self.by_model@;
                assert(keys_of(now) =~= keys_of(all));
                assert forall|j: int| 0 <= j < now.len() implies target.contains_key((#[trigger] now[j]).0@) && target[now[j].0@] == now[j].1 by {
                    by_key_has(all, j);
                    if j < i {
                        assert(text_before(keys_of(all)[j], keys_of(all)[i as int]));
                        text_order_is_total(all[j].0@, key@);
                    } else if j > i {
                        assert(text_before(keys_of(all)[i as int], keys_of(all)[j]));
                        text_order_is_total(all[j].0@, key@);
                    }
                }
                assert forall|k: Seq<char>| #[trigger] target.contains_key(k) implies exists|j: int| 0 <= j < now.len() && (#[trigger] now[j]).0@ == k by {
                    if k == key@ {
                        assert(now[i as int].0@ == k);
                    } else {
                        let j = by_key_from(all, k);
                        assert(now[j].0@ == k);
                    }
                }
                by_key_is(now, target);
            }
            return;
        }
        proof {
            if i < all.len() {
                text_order_is_total(all[i as int].0@, key@);
            }
            assert forall|j: int| i <= j < all.len() implies text_before(key@, (#[trigger] all[j]).0@) by {
                if j > i {
                    assert(text_before(keys_of(all)[i as int], keys_of(all)[j]));
                    text_order_is_transitive(key@, all[i as int].0@, all[j].0@);
                }
            }
            assert forall|j: int| 0 <= j < all.len() implies (#[trigger] all[j]).0@ != key@ by {
                text_order_is_total(all[j].0@, key@);
            }
            by_key_lacks(all, key@);
        }
        let counts = TokenTotals::default().with_call(usage);
        self.by_model.insert(i, (key.to_owned(), counts));
        proof {
            let now = self.by_model@;
            assert forall|a: int, b: int| 0 <= a < b < now.len() implies text_before(#[trigger] keys_of(now)[a], #[trigger] keys_of(now)[b]) by {
                let pa = if a < i { a } else { a - 1 };
                let pb = if b < i { b } else { b - 1 };
                if a != i && b != i {
                    assert(now[a] == all[pa] && now[b] == all[pb]);
                    assert(text_before(keys_of(all)[pa], keys_of(all)[pb]));
                } else if a == i {
                    assert(now[b] == all[b - 1]);
                } else {
                    assert(now[a] == all[a]);
                }
            }
            assert forall|j: int| 0 <= j < now.len() implies target.contains_key((#[trigger] now[j]).0@) && target[now[j].0@] == now[j].1 by {
                if j < i {
                    assert(now[j] == all[j]);
                    by_key_has(all, j);
                } else if j > i {
                    assert(now[j] == all[j - 1]);
                    by_key_has(all, j - 1);
                }
            }
            assert forall|k: Seq<char>| #[trigger] target.contains_key(k) implies exists|j: int| 0 <= j < now.len() && (#[trigger] now[j]).0@ == k by {
                if k == key@ {
                    assert(now[i as int].0@ == k);
                } else {
                    let j = by_key_from(all, k);
                    if j < i {
                        assert(now[j].0@ == k);
                    } else {
                        assert(now[j + 1].0@ == k);
                    }
                }
            }
            by_key_is(now, target);
        }
    }

    /// Fold one call's usage in. The tokens are counted even where the call's currency differs from
    /// that of the running total, which is refused. The counts must have room for the call.
    pub fn record(&mut self, model_key: &str, usage: &Usage) -> (r: Result<(), CurrencyMismatch>)
        requires
            old(self).well_formed(),
            old(self)@.has_room(model_key@, *usage),
        ensures
            final(self).well_formed(),
            final(self)@ == old(self)@.plus(model_key@, *usage),
            old(self)@.clashes(*usage) ==> r == Err::<(), CurrencyMismatch>(
                CurrencyMismatch {
                    left: old(self).reported_cost->0.currency,
                    right: usage.reported_cost->0.currency,
                },
            ),
            !old(self)@.clashes(*usage) ==> r is Ok,
    {
        self.tally(model_key, usage);
        match (self.reported_cost, usage.reported_cost) {
            (None, Some(cost)) => {
                self.reported_cost = Some(cost);
            },
            (Some(running), Some(cost)) => {
                match running.checked_add(cost) {
                    Ok(sum) => {
                        self.reported_cost = Some(sum);
                    },
                    Err(e) => {
                        return Err(e);
                    },
                }
            },
            (_, None) => {
                self.unmetered_calls = self.unmetered_calls + 1;
            },
        }
        Ok(())
    }

    /// Whether every call so far reported its cost. When false, the total understates spend.
    #[must_use]
    pub fn is_complete(&self) -> (r: bool)
        ensures
            r == (self.unmetered_calls == 0),
    {
        self.unmetered_calls == 0
    }

    /// Whether one more call can be counted.
    pub fn can_count(&self, model_key: &str, usage: &Usage) -> (r: bool)
        requires
            self.well_formed(),
        ensures
            r == self@.has_room(model_key@, *usage),
    {
        let counts = match self.for_model(model_key) {
            Some(t) => t,
            None => TokenTotals::default(),
        };
        counts.input <= u64::MAX - usage.input && counts.output <= u64::MAX - usage.output
            && counts.cache_read <= u64::MAX - usage.cache_read && counts.cache_write <= u64::MAX
            - usage.cache_write && counts.reasoning <= u64::MAX - usage.reasoning && counts.calls
            < u32::MAX && (usage.reported_cost.is_some() || self.unmetered_calls < u32::MAX)
    }

    /// The counts for a model, where it was called.
    #[must_use]
    pub fn for_model(&self, model_key: &str) -> (r: Option<TokenTotals>)
        requires
            self.well_formed(),
        ensures
            r == (if self@.by_model.contains_key(model_key@) {
                Some(self@.by_model[model_key@])
            } else {
                None
            }),
    {
        let mut i: usize = 0;
        while i < self.by_model.len()
            invariant
                i <= self.by_model@.len(),
                self.well_formed(),
                forall|j: int| 0 <= j < i ==> (#[trigger] self.by_model@[j]).0@ != model_key@,
            decreases self.by_model@.len() - i,
        {
            if same_text(self.by_model[i].0.as_str(), model_key) {
                proof {
                    by_key_has(self.by_model@, i as int);
                }
                return Some(self.by_model[i].1);
            }
            i = i + 1;
        }
        proof {
            by_key_lacks(self.by_model@, model_key@);
        }
        None
    }

    /// The cached share of one model's input, as the tokens served from cache and all input tokens.
    /// Nothing for a model that was not called or took no input.
    #[must_use]
    pub fn cache_hit_parts(&self, model_key: &str) -> (r: Option<(u64, u64)>)
        requires
            self.well_formed(),
            self@.counts(model_key@).input + self@.counts(model_key@).cache_read + self@.counts(
                model_key@,
            ).cache_write <= u64::MAX,
        ensures
            ({
                let t = self@.counts(model_key@);
                let total = t.input + t.cache_read + t.cache_write;
                r == (if total == 0 {
                    None
                } else {
                    Some((t.cache_read, total as u64))
                })
            }),
    {
        match self.for_model(model_key) {
            Some(t) => {
                let total: u64 = t.input + t.cache_read + t.cache_write;
                if total == 0 {
                    None
                } else {
                    Some((t.cache_read, total))
                }
            },
            None => None,
        }
    }
}

/// A cost is never invented: totals that no call reported a cost to hold none, and a total is
/// complete only as long as every call reported one.
pub proof fn a_cost_is_never_invented(totals: UsageTotalsView, key: Seq<char>, usage: Usage)
    requires
        totals.has_room(key, usage),
        usage.reported_cost is None,
    ensures
        totals.plus(key, usage).reported_cost == totals.reported_cost,
        totals.plus(key, usage).unmetered_calls > 0,
{
}

/// Tokens are kept per model: a call to one model leaves the counts of every other alone.
pub proof fn tokens_are_kept_per_model(
    totals: UsageTotalsView,
    key: Seq<char>,
    other: Seq<char>,
    usage: Usage,
)
    requires
        key != other,
    ensures
        totals.plus(key, usage).counts(other) == totals.counts(other),
        totals.plus(key, usage).counts(key) == totals.counts(key).plus(usage),
{
}

/// A call adds what it used to the counts, each kind to its own, and counts as one call.
pub proof fn nothing_used_is_lost(totals: TokenTotals, usage: Usage)
    requires
        totals.has_room(usage),
    ensures
        totals.plus(usage).input == totals.input + usage.input,
        totals.plus(usage).output == totals.output + usage.output,
        totals.plus(usage).cache_read == totals.cache_read + usage.cache_read,
        totals.plus(usage).cache_write == totals.cache_write + usage.cache_write,
        totals.plus(usage).reasoning == totals.reasoning + usage.reasoning,
        totals.plus(usage).calls == totals.calls + 1,
        no_tokens().input == 0 && no_tokens().output == 0 && no_tokens().cache_read == 0
            && no_tokens().cache_write == 0 && no_tokens().reasoning == 0 && no_tokens().calls == 0,
        usage.all_input() == usage.input + usage.cache_read + usage.cache_write,
{
}

/// What a provider charges adds up, held at the ends of the range. A first charge is the whole cost,
/// a charge in another currency leaves the cost as it was, and so does a call that reports none,
/// which is counted instead.
pub proof fn costs_add_up(totals: UsageTotalsView, key: Seq<char>, usage: Usage)
    requires
        totals.has_room(key, usage),
    ensures
        ({
            let after = totals.plus(key, usage);
            &&& match (totals.reported_cost, usage.reported_cost) {
                (Some(a), Some(b)) => after.reported_cost is Some
                    && after.reported_cost->0.currency == a.currency && (a.currency != b.currency
                    ==> after.reported_cost->0.micros == a.micros) && (a.currency == b.currency
                    && i64::MIN <= a.micros + b.micros <= i64::MAX
                    ==> after.reported_cost->0.micros == a.micros + b.micros) && (a.currency
                    == b.currency && a.micros + b.micros > i64::MAX
                    ==> after.reported_cost->0.micros == i64::MAX) && (a.currency == b.currency
                    && a.micros + b.micros < i64::MIN ==> after.reported_cost->0.micros
                    == i64::MIN),
                (None, Some(b)) => after.reported_cost == Some(b),
                (a, None) => after.reported_cost == a,
            }
            &&& after.unmetered_calls == totals.unmetered_calls + (if usage.reported_cost is None {
                1int
            } else {
                0
            })
            &&& after.by_model.contains_key(key)
            &&& !totals.by_model.contains_key(key) ==> after.by_model[key].calls == 1
                && after.by_model[key].input == usage.input && after.by_model[key].output
                == usage.output
            &&& totals.clashes(usage) <==> (totals.reported_cost is Some && usage.reported_cost is Some
                && totals.reported_cost->0.currency != usage.reported_cost->0.currency)
        }),
{
}

} // verus!
