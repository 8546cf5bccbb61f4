use std::collections::HashSet;

use acb::portfolio::affiliate::{Affiliate, AffiliateDedupTable};
use acb::portfolio::csv_common::CsvCol;
use acb::portfolio::currency::{Currency, CurrencyAndExchangeRate};
use acb::util::decimal::{Dec, PosDecimal};

fn pdec(s: &str) -> PosDecimal {
    PosDecimal::try_from(Dec::parse(s).unwrap()).unwrap()
}

#[test]
fn test_affiliate() {
    let new = |s: &str| -> Affiliate { Affiliate::from_strep(s) };

    let verify = |name: &str, exp_id: &str, exp_name: &str, exp_reg: bool| {
        let af = new(name);
        assert_eq!(exp_id, af.id());
        assert_eq!(exp_name, af.name());
        assert_eq!(exp_reg, af.registered());
    };

    assert_eq!(new(""), new(""));
    verify("", "default", "Default", false);
    verify("", "default", "Default", false);
    verify("  ", "default", "Default", false);
    verify("  default", "default", "default", false);
    verify("  Default", "default", "Default", false);

    verify(" (r) ", "default (R)", "Default (R)", true);
    verify("(R)", "default (R)", "Default (R)", true);
    verify("default(R)", "default (R)", "default (R)", true);
    verify("(R)Default", "default (R)", "Default (R)", true);
    verify("(R)Default(r)", "default (R)", "Default (R)", true);
    verify("Def(r)ault", "def ault (R)", "Def ault (R)", true);

    verify(" My Spouse ", "my spouse", "My Spouse", false);
    verify(" My     Spouse ", "my spouse", "My Spouse", false);
    verify(" My  (r)   Spouse ", "my spouse (R)", "My Spouse (R)", true);

    verify(" __global__ ", "__global__", "__global__", false);
    verify(" Global ", "global", "Global", false);

    assert!(new("").is_default());
    assert!(new("").is_default());
    assert!(new("Default").is_default());
    assert!(new("(R)Default").is_default());
    assert!(new("(R)XXX").is_default() == false);
    assert!(new("XXX").is_default() == false);
    assert!(new("Def(r)ault").is_default() == false);

    assert!(new("__global__").is_global() == true);
    assert!(Affiliate::global().is_global() == true);
    assert!(new("Global").is_global() == false);
}

#[test]
fn test_affiliate_dedup_table() {
    let mut dt = AffiliateDedupTable::new();

    let af1 = dt.deduped_affiliate("");
    assert_eq!(Affiliate::from_strep("Default"), af1);
    let af2 = dt.deduped_affiliate("  Default  ");
    let af3 = dt.deduped_affiliate("default");
    assert_eq!(af1, af2);
    assert_eq!(af1, af3);

    let af4 = dt.deduped_affiliate("(R)");
    assert_ne!(af1, af4);

    assert_eq!(af1, dt.deduped_affiliate("default"));
}

#[test]
fn test_from_name() {
    let af = Affiliate::from_base_name("Spouse", false);
    assert_eq!(af, Affiliate::from_strep("Spouse"));
    assert!(!af.registered());

    let af = Affiliate::from_base_name("Spouse", true);
    assert_eq!(af, Affiliate::from_strep("Spouse (R)"));
    assert!(af.registered());

    let af = Affiliate::from_base_name("", false);
    assert_eq!(af, Affiliate::default());

    let af = Affiliate::from_base_name("", true);
    assert_eq!(af, Affiliate::default_registered());
}

#[test]
fn test_affiliate_cost_pool() {
    let new = |s: &str| -> Affiliate { Affiliate::from_strep(s) };

    let verify = |strep: &str, exp_id: &str, exp_name: &str, exp_reg: bool, exp_tag: Option<&str>| {
        let af = new(strep);
        assert_eq!(exp_id, af.id(), "id for {strep:?}");
        assert_eq!(exp_name, af.name(), "name for {strep:?}");
        assert_eq!(exp_reg, af.registered(), "registered for {strep:?}");
        assert_eq!(exp_tag, af.cost_pool_tag(), "tag for {strep:?}");
        assert_eq!(exp_tag.is_some(), af.is_cost_pool(), "is_cost_pool {strep:?}");
    };

    verify(
        "[RSU XYZ 2026-02-20]",
        "default [rsu xyz 2026-02-20]",
        "Default [RSU XYZ 2026-02-20]",
        false,
        Some("RSU XYZ 2026-02-20"),
    );
    verify(
        "Default [RSU XYZ 2026-02-20]",
        "default [rsu xyz 2026-02-20]",
        "Default [RSU XYZ 2026-02-20]",
        false,
        Some("RSU XYZ 2026-02-20"),
    );
    verify(
        "Spouse (R) [ESO 2025-01-02]",
        "spouse (R) [eso 2025-01-02]",
        "Spouse (R) [ESO 2025-01-02]",
        true,
        Some("ESO 2025-01-02"),
    );
    verify("Spouse []", "spouse", "Spouse", false, None);
    verify("Spouse [   ]", "spouse", "Spouse", false, None);

    assert_eq!(new("[RSU A] Spouse"), new("Spouse [RSU A]"));
    assert_eq!(new("Spouse [RSU A] (R)"), new("Spouse (R) [RSU A]"));

    verify(
        "Default [some tag (r)]",
        "default [some tag (r)]",
        "Default [some tag (r)]",
        false,
        Some("some tag (r)"),
    );
    verify(
        "Default (R) [foo (r)]",
        "default (R) [foo (r)]",
        "Default (R) [foo (r)]",
        true,
        Some("foo (r)"),
    );

    let plain = new("Spouse");
    assert!(!plain.is_cost_pool());
    assert_eq!(plain.cost_pool_tag(), None);

    for s in [
        "Default [RSU XYZ 2026-02-20]",
        "Spouse (R) [ESO 2025-01-02]",
        "[RSU XYZ 2026-02-20]",
        "Default [some tag (r)]",
        "Default (R) [foo (r)]",
    ] {
        let af = new(s);
        assert_eq!(af, new(af.name()), "round-trip for {s:?}");
    }

    let pool_a = new("Default [RSU A]");
    let pool_b = new("Default [RSU B]");
    let base = new("Default");
    assert_ne!(pool_a, pool_b);
    assert_ne!(pool_a, base);
    assert_eq!(pool_a.base_name_normalized(), base.base_name_normalized());
    assert_eq!(pool_a.base_name_normalized(), pool_b.base_name_normalized());
    assert_ne!(pool_a.base_name_normalized(), new("Spouse [RSU A]").base_name_normalized());
}

#[test]
fn test_with_cost_pool_tag() {
    let base = Affiliate::from_strep("Spouse");
    let pool = base.with_cost_pool_tag("RSU A");
    assert_eq!(pool, Affiliate::from_strep("Spouse [RSU A]"));
    assert_eq!(pool.cost_pool_tag(), Some("RSU A"));

    let reg = Affiliate::from_strep("Spouse (R)");
    let reg_pool = reg.with_cost_pool_tag("ESO 2025-01-02");
    assert_eq!(reg_pool, Affiliate::from_strep("Spouse (R) [ESO 2025-01-02]"));
    assert!(reg_pool.registered());

    assert_eq!(pool.with_cost_pool_tag("RSU B"), base.with_cost_pool_tag("RSU B"));

    assert_eq!(base.with_cost_pool_tag(""), base);
    assert_eq!(base.with_cost_pool_tag("   "), base);
}

#[test]
fn test_currency() {
    assert_eq!(Currency::new("cad"), Currency::new("CAD"));
    assert_eq!(Currency::cad(), Currency::new("CAD"));
    assert_eq!(Currency::cad(), Currency::default());
    assert_eq!(Currency::cad(), Currency::new("Cad"));
    assert_eq!(Currency::new("RMB"), Currency::new("rmb"));

    assert_ne!(Currency::cad(), Currency::usd());
    assert_ne!(Currency::cad(), Currency::new("RMB"));
}

#[test]
fn test_good_currency_rates() {
    let cr = CurrencyAndExchangeRate::rq_new(Currency::usd(), pdec("1.3"));
    assert_eq!(cr.currency, Currency::usd());
    assert_eq!(cr.exchange_rate, pdec("1.3"));

    assert_eq!(CurrencyAndExchangeRate::default(), CurrencyAndExchangeRate::cad());
    assert_eq!(
        CurrencyAndExchangeRate::cad(),
        CurrencyAndExchangeRate::rq_new(Currency::cad(), pdec("1.0"))
    );
}

#[test]
fn test_bad_cad_rate_rejected() {
    // A CAD rate must be 1.0.
    assert!(CurrencyAndExchangeRate::try_new(Currency::cad(), pdec("1.3")).is_err());
    assert!(CurrencyAndExchangeRate::try_new(Currency::cad(), pdec("1")).is_ok());
}

#[test]
fn test_export_order_non_deprecated_cols() {
    let cols_to_write: HashSet<&str> =
        HashSet::from(CsvCol::export_order_non_deprecated_cols());
    let mut all_cols_minus_deprecated: HashSet<&str> =
        CsvCol::get_csv_cols().into_iter().collect();
    all_cols_minus_deprecated.remove(CsvCol::LEGACY_SETTLEMENT_DATE);
    assert_eq!(cols_to_write, all_cols_minus_deprecated)
}

#[test]
fn test_dedup_hands_out_first_seen() {
    let mut dt = AffiliateDedupTable::new();
    let first = dt.deduped_affiliate("My  Spouse");
    let second = dt.deduped_affiliate("my spouse");
    assert_eq!(first.id(), "my spouse");
    assert_eq!(second.name(), "My Spouse");
    assert_eq!(second, first);
}

#[test]
fn test_cost_pool_tag_replaces_earlier_tag() {
    let a = Affiliate::from_strep("Spouse (R) [A]");
    let b = a.with_cost_pool_tag("B").with_cost_pool_tag("C");
    let c = a.with_cost_pool_tag("X").with_cost_pool_tag("C");
    assert_eq!(b.id(), c.id());
    assert_eq!(b.name(), "Spouse (R) [C]");
    assert_eq!(b.name(), c.name());
    assert!(b.registered());
    assert!(b.is_cost_pool());
    let untagged = a.with_cost_pool_tag("   ");
    assert!(!untagged.is_cost_pool());
    assert_eq!(untagged.id(), a.with_cost_pool_tag("").id());
}

#[test]
fn test_base_name_shared_by_variants() {
    let plain = Affiliate::from_base_name("Spouse", false);
    let registered = Affiliate::from_base_name("Spouse", true);
    assert_eq!(plain.base_name_normalized(), "spouse");
    assert_eq!(registered.base_name_normalized(), "spouse");
    assert_eq!(plain.with_cost_pool_tag("RSU A").base_name_normalized(), "spouse");
}

#[test]
fn test_name_reads_back() {
    for strep in ["Spouse (R) [RSU 2024]", "  My   Spouse  ", "(r)", "", "Bob [ a  b ]", "x(R)y"] {
        let a = Affiliate::from_strep(strep);
        let back = Affiliate::from_strep(a.name());
        assert_eq!(back.id(), a.id());
        assert_eq!(back.name(), a.name());
        assert_eq!(back.registered(), a.registered());
        assert_eq!(back.cost_pool_tag(), a.cost_pool_tag());
    }
    let a = Affiliate::from_strep("  My   Spouse (R) [ RSU   A ]");
    assert_eq!(a.name(), "My Spouse (R) [RSU A]");
}

#[test]
fn test_tag_twice_is_tag_once() {
    let a = Affiliate::from_strep("  My   Spouse (R)");
    let twice = a.with_cost_pool_tag("A").with_cost_pool_tag("B");
    let once = a.with_cost_pool_tag("B");
    assert_eq!(twice.name(), once.name());
    assert_eq!(twice.id(), once.id());
    assert_eq!(a.with_cost_pool_tag(" \t ").name(), a.with_cost_pool_tag("").name());
    assert_eq!(
        Affiliate::from_strep("Default [RSU A]").base_name_normalized(),
        Affiliate::from_strep("Default").base_name_normalized()
    );
    assert_eq!(Affiliate::from_strep("Spouse [RSU A]").base_name_normalized(), "spouse");
}

#[test]
fn test_currency_codes_upper_and_non_empty() {
    for (name, code) in [("eur", "EUR"), ("Usd", "USD"), ("cad", "CAD"), ("", "CAD"), ("gBp", "GBP")] {
        let c = Currency::new(name);
        assert_eq!(c.as_str(), code);
        assert_eq!(c.to_string(), c.as_str());
        assert!(!c.as_str().is_empty());
        assert_eq!(c.as_str(), c.as_str().to_uppercase());
    }
    assert_eq!(Currency::new("usd"), Currency::usd());
    assert_ne!(Currency::new("usd"), Currency::cad());
}
