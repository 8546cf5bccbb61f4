use acb::portfolio::affiliate::Affiliate;
use acb::portfolio::currency::Currency;
use acb::portfolio::splits::replace_global_security_txs;
use acb::portfolio::tx::{CsvTx, SplitRatio, Tx, TxAction};
use acb::util::date::Date;
use acb::util::decimal::Dec;

fn dec(s: &str) -> Dec {
    Dec::parse(s).unwrap()
}

fn mk_date(i: i32) -> Date {
    Date::from_calendar_date(2017, 1, 1).unwrap().saturating_add_days(i as i64)
}

fn build(
    day: i32,
    action: TxAction,
    affiliate: Affiliate,
    read_index: u32,
    shares: Option<&str>,
    price: Option<&str>,
    total: Option<&str>,
) -> Tx {
    let trade_date = mk_date(day);
    let mut c = CsvTx::default();
    c.security = Some("FOO".to_string());
    c.trade_date = Some(trade_date);
    c.settlement_date = Some(trade_date.saturating_add_days(2));
    c.action = Some(action);
    c.shares = shares.map(dec);
    c.amount_per_share = price.map(dec);
    c.total_amount = total.map(dec);
    c.tx_currency = Some(Currency::cad());
    c.tx_curr_to_local_exchange_rate = Some(dec("1"));
    c.affiliate = Some(affiliate);
    c.read_index = read_index;
    if action == TxAction::Split {
        c.stock_split_ratio = Some(SplitRatio::parse("2-for-1").unwrap());
    }
    Tx::try_from(c).unwrap()
}

fn create_tx(date: i32, action: TxAction, affiliate: Affiliate, read_index: u32) -> Tx {
    build(date, action, affiliate, read_index, Some("1"), Some("1"), None)
}

fn create_dist_tx(date: i32, action: TxAction, affiliate: Affiliate, read_index: u32) -> Tx {
    build(date, action, affiliate, read_index, None, Some("1"), None)
}

fn create_total_dist_tx(date: i32, action: TxAction, affiliate: Affiliate, read_index: u32) -> Tx {
    build(date, action, affiliate, read_index, None, None, Some("5"))
}

fn assert_tx(actual: &Tx, action: TxAction, affiliate: &Affiliate, read_index: u32) {
    assert_eq!(actual.action(), action);
    assert_eq!(&actual.affiliate, affiliate);
    assert_eq!(actual.read_index, read_index);
}

/// The affiliates at `indices` are `affiliates`, in any order.
fn assert_affiliates_at_indices(txs: &Vec<Tx>, indices: Vec<usize>, affiliates: Vec<Affiliate>) {
    assert_eq!(indices.len(), affiliates.len());
    for idx in &indices {
        assert!(*idx < txs.len(), "Index {} is out of bounds", idx);
    }
    let mut remaining: Vec<Affiliate> = affiliates.clone();
    for idx in &indices {
        let found = remaining.iter().position(|a| *a == txs[*idx].affiliate);
        assert!(found.is_some(), "unexpected affiliate at index {}", idx);
        remaining.remove(found.unwrap());
    }
    assert!(remaining.is_empty());
}

fn dist_actions() -> Vec<TxAction> {
    vec![TxAction::Roc]
}

#[test]
fn test_empty_vector() {
    let mut txs: Vec<Tx> = Vec::new();
    assert!(replace_global_security_txs(&mut txs).is_ok());
    assert!(txs.is_empty());
}

#[test]
fn test_single_global_split_no_affiliates() {
    let mut txs = vec![create_tx(1, TxAction::Split, Affiliate::global(), 1)];

    replace_global_security_txs(&mut txs).unwrap();

    assert_eq!(txs.len(), 1);
    assert!(!txs[0].affiliate.is_global());
    assert_eq!(txs[0].affiliate, Affiliate::default());
    assert_eq!(txs[0].read_index, 1);
}

#[test]
fn test_single_global_split_one_affiliate() {
    let affiliate = Affiliate::from_strep("test");
    let mut txs = vec![
        create_tx(1, TxAction::Buy, affiliate.clone(), 1),
        create_tx(1, TxAction::Split, Affiliate::global(), 2),
    ];

    replace_global_security_txs(&mut txs).unwrap();

    assert_eq!(txs.len(), 2);
    assert_eq!(txs[1].affiliate, affiliate);
    assert_eq!(txs[1].read_index, 2);
}

#[test]
fn test_single_global_split_multiple_affiliates() {
    let affiliate1 = Affiliate::from_strep("test1");
    let affiliate2 = Affiliate::from_strep("test2");
    let mut txs = vec![
        create_tx(1, TxAction::Buy, affiliate1.clone(), 1),
        create_tx(1, TxAction::Split, Affiliate::global(), 2),
        create_tx(1, TxAction::Buy, affiliate2.clone(), 3),
    ];

    replace_global_security_txs(&mut txs).unwrap();

    assert_eq!(txs.len(), 4);
    assert_affiliates_at_indices(&txs, vec![1, 2], vec![affiliate1.clone(), affiliate2.clone()]);
    assert_eq!(txs[1].read_index, 2);
    assert_eq!(txs[2].read_index, 2);
}

#[test]
fn test_multiple_global_splits() {
    let affiliate1 = Affiliate::from_strep("test1");
    let affiliate2 = Affiliate::from_strep("test2");

    let mut txs = vec![
        create_tx(1, TxAction::Split, Affiliate::global(), 1),
        create_tx(10, TxAction::Split, Affiliate::global(), 2),
        create_tx(11, TxAction::Buy, affiliate1.clone(), 3),
    ];

    replace_global_security_txs(&mut txs).unwrap();

    assert_eq!(txs.len(), 3);
    assert_tx(&txs[0], TxAction::Split, &affiliate1, 1);
    assert_tx(&txs[1], TxAction::Split, &affiliate1, 2);
    assert_tx(&txs[2], TxAction::Buy, &affiliate1, 3);

    let mut txs = vec![
        create_tx(1, TxAction::Split, Affiliate::global(), 1),
        create_tx(10, TxAction::Split, Affiliate::global(), 2),
        create_tx(11, TxAction::Buy, affiliate1.clone(), 3),
        create_tx(12, TxAction::Buy, affiliate2.clone(), 4),
    ];

    replace_global_security_txs(&mut txs).unwrap();

    assert_eq!(txs.len(), 6);
    assert_affiliates_at_indices(&txs, vec![0, 1], vec![affiliate1.clone(), affiliate2.clone()]);
    assert_eq!(txs[0].read_index, 1);
    assert_eq!(txs[1].read_index, 1);
    assert_affiliates_at_indices(&txs, vec![2, 3], vec![affiliate1.clone(), affiliate2.clone()]);
    assert_eq!(txs[2].read_index, 2);
    assert_eq!(txs[3].read_index, 2);
}

#[test]
fn test_nearby_non_global_split_error() {
    let mut txs = vec![
        create_tx(1, TxAction::Split, Affiliate::global(), 1),
        create_tx(1, TxAction::Split, Affiliate::from_strep("test"), 2),
    ];
    assert!(replace_global_security_txs(&mut txs).is_err());
    assert_eq!(txs.len(), 2);
    assert!(txs[0].affiliate.is_global());

    let mut txs = vec![
        create_tx(1, TxAction::Split, Affiliate::global(), 1),
        create_tx(2, TxAction::Split, Affiliate::from_strep("test"), 2),
    ];
    assert!(replace_global_security_txs(&mut txs).is_err());
    assert_eq!(txs.len(), 2);
    assert!(txs[0].affiliate.is_global());

    let mut txs = vec![
        create_tx(1, TxAction::Split, Affiliate::from_strep("test"), 1),
        create_tx(2, TxAction::Split, Affiliate::global(), 2),
    ];
    assert!(replace_global_security_txs(&mut txs).is_err());
    assert_eq!(txs.len(), 2);
    assert!(txs[1].affiliate.is_global());

    let mut txs = vec![
        create_tx(1, TxAction::Split, Affiliate::from_strep("test"), 1),
        create_tx(1, TxAction::Split, Affiliate::from_strep("test2"), 2),
    ];
    let before_txs = vec![
        create_tx(1, TxAction::Split, Affiliate::from_strep("test"), 1),
        create_tx(1, TxAction::Split, Affiliate::from_strep("test2"), 2),
    ];
    assert!(replace_global_security_txs(&mut txs).is_ok());
    assert_eq!(before_txs, txs);
}

#[test]
fn test_splits_outside_window() {
    let mut txs = vec![
        create_tx(1, TxAction::Split, Affiliate::from_strep("test1"), 1),
        create_tx(3, TxAction::Split, Affiliate::global(), 2),
        create_tx(5, TxAction::Split, Affiliate::from_strep("test2"), 3),
    ];

    replace_global_security_txs(&mut txs).unwrap();

    assert_eq!(txs.len(), 4);
    assert!(!txs[1].affiliate.is_global());
}

#[test]
fn test_edge_cases() {
    let affiliate1 = Affiliate::from_strep("test1");
    let affiliate2 = Affiliate::from_strep("test2");

    let mut txs = vec![
        create_tx(1, TxAction::Split, Affiliate::global(), 1),
        create_tx(10, TxAction::Buy, affiliate1.clone(), 2),
        create_tx(20, TxAction::Split, Affiliate::global(), 3),
    ];

    replace_global_security_txs(&mut txs).unwrap();

    assert_eq!(txs.len(), 3);
    assert!(!txs[0].affiliate.is_global());
    assert!(!txs[2].affiliate.is_global());
    assert_eq!(txs[1].action(), TxAction::Buy);

    let mut txs = vec![
        create_tx(1, TxAction::Split, Affiliate::global(), 1),
        create_tx(10, TxAction::Buy, affiliate1.clone(), 2),
        create_tx(10, TxAction::Buy, affiliate2.clone(), 3),
        create_tx(20, TxAction::Split, Affiliate::global(), 4),
    ];

    replace_global_security_txs(&mut txs).unwrap();

    assert_eq!(txs.len(), 6);
    assert_affiliates_at_indices(&txs, vec![0, 1], vec![affiliate1.clone(), affiliate2.clone()]);
    assert_affiliates_at_indices(&txs, vec![4, 5], vec![affiliate1.clone(), affiliate2.clone()]);
    assert_eq!(txs[0].action(), TxAction::Split);
    assert_eq!(txs[1].action(), TxAction::Split);
    assert_eq!(txs[2].action(), TxAction::Buy);
    assert_eq!(txs[3].action(), TxAction::Buy);
    assert_eq!(txs[4].action(), TxAction::Split);
    assert_eq!(txs[5].action(), TxAction::Split);
}

#[test]
fn test_global_dist_no_affiliates() {
    for action in dist_actions() {
        let mut txs = vec![create_dist_tx(1, action, Affiliate::global(), 1)];

        replace_global_security_txs(&mut txs).unwrap();

        assert_eq!(txs.len(), 1);
        assert_eq!(txs[0].affiliate, Affiliate::default());
        assert_eq!(txs[0].read_index, 1);
    }
}

#[test]
fn test_global_dist_one_non_registered_affiliate() {
    let affiliate = Affiliate::from_strep("myaf");
    for action in dist_actions() {
        let mut txs = vec![
            create_tx(1, TxAction::Buy, affiliate.clone(), 1),
            create_dist_tx(2, action, Affiliate::global(), 2),
        ];

        replace_global_security_txs(&mut txs).unwrap();

        assert_eq!(txs.len(), 2);
        assert_eq!(txs[1].affiliate, affiliate);
        assert_eq!(txs[1].read_index, 2);
    }
}

#[test]
fn test_global_dist_multiple_non_registered_affiliates() {
    let af1 = Affiliate::from_strep("af1");
    let af2 = Affiliate::from_strep("af2");
    for action in dist_actions() {
        let mut txs = vec![
            create_tx(1, TxAction::Buy, af1.clone(), 1),
            create_tx(1, TxAction::Buy, af2.clone(), 2),
            create_dist_tx(2, action, Affiliate::global(), 3),
        ];

        replace_global_security_txs(&mut txs).unwrap();

        assert_eq!(txs.len(), 4);
        assert_affiliates_at_indices(&txs, vec![2, 3], vec![af1.clone(), af2.clone()]);
        assert_eq!(txs[2].read_index, 3);
        assert_eq!(txs[3].read_index, 3);
    }
}

#[test]
fn test_global_dist_skips_registered_affiliates() {
    let af_nonreg = Affiliate::from_strep("nonreg");
    let af_reg = Affiliate::default_registered();
    for action in dist_actions() {
        let mut txs = vec![
            create_tx(1, TxAction::Buy, af_nonreg.clone(), 1),
            create_tx(1, TxAction::Buy, af_reg.clone(), 2),
            create_dist_tx(2, action, Affiliate::global(), 3),
        ];

        replace_global_security_txs(&mut txs).unwrap();

        assert_eq!(txs.len(), 3);
        assert_eq!(txs[2].affiliate, af_nonreg);
    }
}

#[test]
fn test_global_dist_all_four_affiliate_types() {
    let af_default = Affiliate::default();
    let af_default_reg = Affiliate::default_registered();
    let af_nondefault = Affiliate::from_strep("spouse");
    let af_nondefault_reg = Affiliate::from_base_name("spouse", true);

    for action in dist_actions() {
        let mut txs = vec![
            create_tx(1, TxAction::Buy, af_default.clone(), 1),
            create_tx(1, TxAction::Buy, af_default_reg.clone(), 2),
            create_tx(1, TxAction::Buy, af_nondefault.clone(), 3),
            create_tx(1, TxAction::Buy, af_nondefault_reg.clone(), 4),
            create_dist_tx(2, action, Affiliate::global(), 5),
        ];

        replace_global_security_txs(&mut txs).unwrap();

        assert_eq!(txs.len(), 6);
        assert_affiliates_at_indices(
            &txs,
            vec![4, 5],
            vec![af_default.clone(), af_nondefault.clone()],
        );
        assert_eq!(txs[4].read_index, 5);
        assert_eq!(txs[5].read_index, 5);
    }
}

#[test]
fn test_global_dist_total_amount_not_expanded() {
    for action in dist_actions() {
        let mut txs = vec![
            create_tx(1, TxAction::Buy, Affiliate::from_strep("af1"), 1),
            create_total_dist_tx(2, action, Affiliate::global(), 2),
        ];
        let before = vec![
            create_tx(1, TxAction::Buy, Affiliate::from_strep("af1"), 1),
            create_total_dist_tx(2, action, Affiliate::global(), 2),
        ];

        replace_global_security_txs(&mut txs).unwrap();

        assert_eq!(before, txs);
    }
}

#[test]
fn test_nearby_non_global_dist_error() {
    for action in dist_actions() {
        let mut txs = vec![
            create_dist_tx(1, action, Affiliate::global(), 1),
            create_dist_tx(1, action, Affiliate::from_strep("test"), 2),
        ];
        assert!(replace_global_security_txs(&mut txs).is_err());
        assert!(txs[0].affiliate.is_global());

        let mut txs = vec![
            create_dist_tx(1, action, Affiliate::global(), 1),
            create_dist_tx(2, action, Affiliate::from_strep("test"), 2),
        ];
        assert!(replace_global_security_txs(&mut txs).is_err());
        assert!(txs[0].affiliate.is_global());

        let mut txs = vec![
            create_dist_tx(1, action, Affiliate::global(), 1),
            create_total_dist_tx(1, action, Affiliate::from_strep("test"), 2),
        ];
        assert!(replace_global_security_txs(&mut txs).is_err());
        assert!(txs[0].affiliate.is_global());
    }
}

#[test]
fn test_conflict_message_names_the_transaction() {
    let mut txs = vec![
        create_tx(1, TxAction::Split, Affiliate::global(), 1),
        create_tx(2, TxAction::Split, Affiliate::from_strep("test"), 2),
    ];
    let err = replace_global_security_txs(&mut txs).unwrap_err();
    assert_eq!(
        err,
        "Found non-global Split of FOO near global Split on 2017-01-02. This likely \
         indicates duplicate entries. Manually specify Default if this is intentional."
    );
}

#[test]
fn test_non_candidate_far_away_split_is_kept() {
    let af = Affiliate::from_strep("a");
    let mut txs = vec![
        create_tx(1, TxAction::Buy, af.clone(), 1),
        create_tx(5, TxAction::Split, Affiliate::global(), 2),
        create_tx(9, TxAction::Split, af.clone(), 3),
    ];
    replace_global_security_txs(&mut txs).unwrap();
    assert_eq!(txs.len(), 3);
    assert_tx(&txs[1], TxAction::Split, &af, 2);
    assert_tx(&txs[2], TxAction::Split, &af, 3);
}
