use frey::usage::{CostEstimate, Currency, Money, PricingSource, Usage, UsageTotals};

fn usd(amount: f64) -> Money {
    Money::micros((amount * 1_000_000.0).round() as i64, Currency::Usd)
}


fn usage(input: u64, cache_read: u64, cache_write: u64) -> Usage {
    Usage { input, cache_read, cache_write, output: 10, ..Usage::default() }
}

#[test]
fn total_input_accounts_for_anthropics_post_breakpoint_counting() {
    // Anthropic reports 50 fresh tokens, 100_000 read from cache, 5_120 written. The naive
    // reading is "50 input tokens", which understates the request by three orders of magnitude.
    let u = usage(50, 100_000, 5_120);
    assert_eq!(u.total_input(), 105_170);
}

#[test]
fn a_cost_is_never_invented() {
    let u = usage(100, 0, 0);
    assert_eq!(u.reported_cost, None, "no provider figure means no figure");

    let mut totals = UsageTotals::default();
    totals.record("anthropic:opus-5", &u).unwrap();
    assert_eq!(totals.reported_cost, None);
    assert_eq!(totals.unmetered_calls, 1);
    assert!(!totals.is_complete(), "a UI must be able to say the total is partial");
}

#[test]
fn tokens_are_kept_per_model_because_tokenizers_differ() {
    let mut totals = UsageTotals::default();
    totals.record("anthropic:opus-5", &usage(100, 0, 0)).unwrap();
    totals.record("openrouter:moonshot/kimi", &usage(100, 0, 0)).unwrap();
    assert_eq!(totals.by_model.len(), 2, "no cross-model token summing");
    assert_eq!(totals.for_model("anthropic:opus-5").unwrap().calls, 1);
}

#[test]
fn reported_costs_accumulate_and_currency_mixing_is_an_error() {
    let mut totals = UsageTotals::default();
    let mut a = usage(10, 0, 0);
    a.reported_cost = Some(usd(0.25));
    let mut b = usage(10, 0, 0);
    b.reported_cost = Some(usd(0.50));
    totals.record("openrouter:m", &a).unwrap();
    totals.record("openrouter:m", &b).unwrap();
    assert_eq!(totals.reported_cost, Some(usd(0.75)));
    assert!(totals.is_complete());

    let mut c = usage(10, 0, 0);
    c.reported_cost = Some(Money { micros: 1_000, currency: Currency::Credits });
    assert!(totals.record("openrouter:m", &c).is_err(), "credits are not dollars");
}

#[test]
fn estimated_costs_are_marked_as_such() {
    let estimate = CostEstimate { amount: usd(1.20), source: PricingSource::LocalTable };
    assert!(!estimate.source.is_authoritative());
    assert!(PricingSource::Reported.is_authoritative());
}


#[test]
fn cache_hit_rate_is_absent_rather_than_zero_when_there_is_nothing_to_measure() {
    assert_eq!(Usage::default().cache_hit_parts(), None);
    let u = usage(0, 900, 100);
    let (read, total) = u.cache_hit_parts().unwrap();
    assert!((read as f64 / total as f64 - 0.9).abs() < f64::EPSILON);
}

#[test]
fn a_models_hits_are_summed_over_its_calls() {
    let mut totals = UsageTotals::default();
    totals.record("a:m", &usage(100, 300, 0)).unwrap();
    totals.record("a:m", &usage(100, 500, 0)).unwrap();
    assert_eq!(totals.cache_hit_parts("a:m"), Some((800, 1_000)));
    assert_eq!(totals.cache_hit_parts("b:m"), None);
}

#[test]
fn amounts_saturate_rather_than_wrap() {
    let most = Money::micros(i64::MAX, Currency::Usd);
    assert_eq!(most.checked_add(Money::micros(1, Currency::Usd)).unwrap(), most);
    let mismatch = most.checked_add(Money::zero(Currency::Eur)).unwrap_err();
    assert_eq!(mismatch.to_string(), "cannot combine Usd and Eur without an exchange rate");
}
