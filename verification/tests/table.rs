use csv_to_postgresql::row::Bar;
use csv_to_postgresql::table::{BarTable, InsertOutcome};

fn sample_bar(timestamp: &str, symbol: &str, contract: Option<&str>, barsize: &str) -> Bar {
    Bar {
        timestamp: timestamp.to_string(),
        symbol: symbol.to_string(),
        contract: contract.map(|c| c.to_string()),
        open_text: "100".to_string(),
        high_text: "101".to_string(),
        low_text: "99".to_string(),
        close_text: "100.5".to_string(),
        volume_text: "1000".to_string(),
        barsize: barsize.to_string(),
    }
}

#[test]
fn duplicate_key_is_silent_no_op() {
    let mut table = BarTable::new();
    let bar = sample_bar("2020-01-02", "es", None, "day");
    assert_eq!(table.insert(bar.clone()), InsertOutcome::Inserted);
    assert_eq!(table.insert(bar), InsertOutcome::Conflict);
    assert_eq!(table.len(), 1);
}

#[test]
fn duplicate_key_ignores_value_changes() {
    let mut table = BarTable::new();
    let first = sample_bar("2020-01-02", "es", None, "day");
    let mut second = sample_bar("2020-01-02", "es", None, "day");
    second.close_text = "999".to_string();
    table.insert(first);
    assert_eq!(table.insert(second), InsertOutcome::Conflict);
    assert_eq!(table.len(), 1);
    assert_eq!(table.rows[0].close_text, "100.5");
}

#[test]
fn distinct_keys_all_kept() {
    let mut table = BarTable::new();
    assert_eq!(
        table.insert(sample_bar("2020-01-02", "es", None, "day")),
        InsertOutcome::Inserted
    );
    assert_eq!(
        table.insert(sample_bar("2020-01-03", "es", None, "day")),
        InsertOutcome::Inserted
    );
    assert_eq!(
        table.insert(sample_bar("2020-01-02", "nq", None, "day")),
        InsertOutcome::Inserted
    );
    assert_eq!(
        table.insert(sample_bar("2020-01-02", "es", None, "minute")),
        InsertOutcome::Inserted
    );
    assert_eq!(
        table.insert(sample_bar("2020-01-02", "es", Some("2020-04-01"), "day")),
        InsertOutcome::Inserted
    );
    assert_eq!(table.len(), 5);
}

#[test]
fn contract_takes_part_in_the_key() {
    let mut table = BarTable::new();
    table.insert(sample_bar("2020-01-02", "@vx", Some("2020-04-01"), "day"));
    assert_eq!(
        table.insert(sample_bar("2020-01-02", "@vx", Some("2020-05-01"), "day")),
        InsertOutcome::Inserted
    );
    assert_eq!(
        table.insert(sample_bar("2020-01-02", "@vx", Some("2020-04-01"), "day")),
        InsertOutcome::Conflict
    );
    assert_eq!(table.len(), 2);
}
