use acb::portfolio::tx::CsvTx;
use acb::portfolio::tx_utils::{apply_security_rename, resolve_rename};

fn renames(pairs: &[(&str, &str)]) -> Vec<(String, String)> {
    pairs.iter().map(|(f, t)| (f.to_string(), t.to_string())).collect()
}

#[test]
fn test_resolve_rename_no_match() {
    let r = renames(&[("FOO", "FOO.TO")]);
    assert!(resolve_rename("BAR", &r).is_none());
}

#[test]
fn test_resolve_rename_single_hop() {
    let r = renames(&[("FOO", "FOO.TO")]);
    let rc = resolve_rename("FOO", &r).unwrap();
    assert_eq!(rc.resolved, "FOO.TO");
    assert_eq!(rc.chain_repr, "FOO AKA FOO.TO");
}

#[test]
fn test_resolve_rename_chain() {
    let r = renames(&[("G036247", "DLR.U.TO"), ("DLR.U.TO", "DLR.TO")]);
    let rc = resolve_rename("G036247", &r).unwrap();
    assert_eq!(rc.resolved, "DLR.TO");
    assert_eq!(rc.chain_repr, "G036247 AKA DLR.U.TO AKA DLR.TO");
}

#[test]
fn test_resolve_rename_breaks_cycle() {
    let r = renames(&[("A", "B"), ("B", "A")]);
    let rc = resolve_rename("A", &r).unwrap();
    assert_eq!(rc.resolved, "B");
    assert_eq!(rc.chain_repr, "A AKA B");
}

#[test]
fn test_resolve_rename_self_loop() {
    // A symbol renamed to itself resolves to itself.
    let r = renames(&[("A", "A")]);
    let rc = resolve_rename("A", &r).unwrap();
    assert_eq!(rc.resolved, "A");
    assert_eq!(rc.chain_repr, "A");
}

#[test]
fn test_resolve_rename_later_pair_wins() {
    let r = renames(&[("A", "B"), ("A", "C")]);
    let rc = resolve_rename("A", &r).unwrap();
    assert_eq!(rc.resolved, "C");
}

#[test]
fn test_apply_security_rename_chain_extends_memo() {
    let r = renames(&[("G036247", "DLR.U.TO"), ("DLR.U.TO", "DLR.TO")]);

    let mut tx = CsvTx::default();
    tx.security = Some("G036247".into());
    tx.memo = Some("original".into());

    apply_security_rename(&mut tx, &r);

    assert_eq!(tx.security.as_deref(), Some("DLR.TO"));
    assert_eq!(tx.memo.as_deref(), Some("original ; G036247 AKA DLR.U.TO AKA DLR.TO"));
}

#[test]
fn test_apply_security_rename_no_existing_memo() {
    let r = renames(&[("FOO", "FOO.TO")]);

    let mut tx = CsvTx::default();
    tx.security = Some("FOO".into());

    apply_security_rename(&mut tx, &r);

    assert_eq!(tx.security.as_deref(), Some("FOO.TO"));
    assert_eq!(tx.memo.as_deref(), Some("FOO AKA FOO.TO"));
}

#[test]
fn test_apply_security_rename_empty_memo() {
    let r = renames(&[("FOO", "FOO.TO")]);

    let mut tx = CsvTx::default();
    tx.security = Some("FOO".into());
    tx.memo = Some(String::new());

    apply_security_rename(&mut tx, &r);

    assert_eq!(tx.memo.as_deref(), Some("FOO AKA FOO.TO"));
}

#[test]
fn test_apply_security_rename_no_match_unchanged() {
    let r = renames(&[("FOO", "FOO.TO")]);

    let mut tx = CsvTx::default();
    tx.security = Some("BAR".into());
    tx.memo = Some("original".into());

    apply_security_rename(&mut tx, &r);

    assert_eq!(tx.security.as_deref(), Some("BAR"));
    assert_eq!(tx.memo.as_deref(), Some("original"));
}

#[test]
fn test_apply_security_rename_none_security_noop() {
    let r = renames(&[("FOO", "FOO.TO")]);

    let mut tx = CsvTx::default();

    apply_security_rename(&mut tx, &r);

    assert!(tx.security.is_none());
    assert!(tx.memo.is_none());
}
