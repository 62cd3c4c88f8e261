use csv_to_postgresql::filename::{csv_filter, parse_filename};
use csv_to_postgresql::row::Timeframe;
use csv_to_postgresql::worker::{classify_file, SkipReason};

#[test]
fn parse_six_segments() {
    let md = parse_filename("ES-cme-cme-future-day-close.csv").unwrap();
    assert_eq!(md.symbol, "es");
    assert_eq!(md.datasource, "cme");
    assert_eq!(md.exchange, "cme");
    assert_eq!(md.market, "future");
    assert_eq!(md.timeframe, "day");
    assert_eq!(md.field, "close");
}

#[test]
fn parse_keeps_empty_segments() {
    let md = parse_filename("--a-b-c-d.csv").unwrap();
    assert_eq!(md.symbol, "");
    assert_eq!(md.datasource, "");
    assert_eq!(md.exchange, "a");
    assert_eq!(md.field, "d");
}

#[test]
fn parse_rejects_wrong_shapes() {
    assert!(parse_filename("foo.csv").is_none());
    assert!(parse_filename("a-b-c-d-e.csv").is_none());
    assert!(parse_filename("a-b-c-d-e-f-g.csv").is_none());
    assert!(parse_filename("a-b-c-d-e-f.txt").is_none());
    assert!(parse_filename("a-b-c-d-e-f").is_none());
    assert!(parse_filename("").is_none());
    assert!(parse_filename(".csv").is_none());
}

#[test]
fn parse_is_case_insensitive() {
    let md = parse_filename("Es-CME-Cme-Future-DAY-Close.CSV").unwrap();
    assert_eq!(md.symbol, "es");
    assert_eq!(md.timeframe, "day");
}

#[test]
fn filter_accepts_csv_files_and_folders() {
    assert!(csv_filter("a.CSV", false));
    assert!(csv_filter("ES-cme-cme-future-day-close.csv", false));
    assert!(csv_filter("anything", true));
    assert!(!csv_filter("csv", false));
    assert!(!csv_filter("foo.txt", false));
    assert!(!csv_filter("x.csv.bak", false));
    assert!(!csv_filter("notes", false));
}

#[test]
fn classify_plain_symbol() {
    let ing = classify_file("ES-cme-cme-future-day-close.csv").unwrap();
    assert_eq!(ing.symbol_root, "es");
    assert!(ing.contract_date.is_none());
    assert!(matches!(ing.timeframe, Timeframe::Day));
}

#[test]
fn classify_futures_symbol() {
    let ing = classify_file("@VXJ20-cme-cme-future-minute-close.csv").unwrap();
    assert_eq!(ing.symbol_root, "@vx");
    assert_eq!(ing.contract_date.as_deref(), Some("2020-04-01"));
    assert!(matches!(ing.timeframe, Timeframe::Minute));
}

#[test]
fn classify_skips() {
    assert_eq!(
        classify_file("nodashes.csv").unwrap_err(),
        SkipReason::BadPattern
    );
    assert_eq!(
        classify_file("ES-cme-cme-future-hour-close.csv").unwrap_err(),
        SkipReason::BadTimeframe
    );
    assert_eq!(
        classify_file("@vxj1234567890-cme-cme-future-day-close.csv").unwrap_err(),
        SkipReason::YearOutOfRange
    );
}
