use csv_to_postgresql::table::{bind_params, BarTable, InsertOutcome};
use csv_to_postgresql::worker::{
    outcome_of, plan_file, run_model, AbandonReason, FileOutcome, FilePlan, SkipReason, Worker,
    WorkerState,
};

const DAY_NAME: &str = "ES-cme-cme-future-day-close.csv";
const DAY_DATA: &str = "Date,Open,High,Low,Close,TotalVolume\n2020-01-02,100,101,99,100.5,1000\n";

const MINUTE_NAME: &str = "@VXJ20-cme-cme-future-minute-close.csv";
const MINUTE_DATA: &str =
    "Date,Time,Open,High,Low,Close,TotalVolume\n2020-04-01,09:30:00,30.1,30.5,29.9,30.2,42\n";

#[test]
fn day_file_yields_one_bar() {
    let plan = plan_file(DAY_NAME, DAY_DATA.as_bytes());
    match plan {
        FilePlan::Ingest { bars, abandon } => {
            assert!(abandon.is_none());
            assert_eq!(bars.len(), 1);
            let bar = &bars[0];
            assert_eq!(bar.timestamp, "2020-01-02");
            assert_eq!(bar.symbol, "es");
            assert!(bar.contract.is_none());
            assert_eq!(bar.open_text, "100");
            assert_eq!(bar.high_text, "101");
            assert_eq!(bar.low_text, "99");
            assert_eq!(bar.close_text, "100.5");
            assert_eq!(bar.volume_text, "1000");
            assert_eq!(bar.barsize, "day");
        },
        other => panic!("expected an ingest plan, got {:?}", other),
    }
}

#[test]
fn minute_file_composes_timestamp() {
    let plan = plan_file(MINUTE_NAME, MINUTE_DATA.as_bytes());
    match plan {
        FilePlan::Ingest { bars, abandon } => {
            assert!(abandon.is_none());
            assert_eq!(bars.len(), 1);
            let bar = &bars[0];
            assert_eq!(bar.timestamp, "2020-04-01 09:30:00");
            assert_eq!(bar.symbol, "@vx");
            assert_eq!(bar.contract.as_deref(), Some("2020-04-01"));
            assert_eq!(bar.barsize, "minute");
        },
        other => panic!("expected an ingest plan, got {:?}", other),
    }
}

#[test]
fn bad_pattern_skips_without_reading_rows() {
    let plan = plan_file("wrong-name.csv", DAY_DATA.as_bytes());
    assert!(matches!(plan, FilePlan::Skip(SkipReason::BadPattern)));
}

#[test]
fn unreadable_header_skips() {
    let data: Vec<u8> = vec![0xff, 0xfe, 0x2c, 0xff, 0x0a, 0x31, 0x2c, 0x32, 0x0a];
    let plan = plan_file(DAY_NAME, &data);
    assert!(matches!(plan, FilePlan::Skip(SkipReason::BadHeader)));
}

#[test]
fn missing_column_abandons_file() {
    let data = "Date,Open,High,Low,Close\n2020-01-02,100,101,99,100.5\n2020-01-03,1,2,0,1\n";
    let plan = plan_file(DAY_NAME, data.as_bytes());
    match plan {
        FilePlan::Ingest { bars, abandon } => {
            assert_eq!(bars.len(), 0);
            match abandon {
                Some(AbandonReason::MissingColumn(mc)) => assert_eq!(mc.column, "TotalVolume"),
                other => panic!("expected a missing column, got {:?}", other),
            }
        },
        other => panic!("expected an ingest plan, got {:?}", other),
    }
}

#[test]
fn minute_file_requires_time_column() {
    let plan = plan_file(MINUTE_NAME, DAY_DATA.as_bytes());
    match plan {
        FilePlan::Ingest { bars, abandon } => {
            assert_eq!(bars.len(), 0);
            match abandon {
                Some(AbandonReason::MissingColumn(mc)) => assert_eq!(mc.column, "Time"),
                other => panic!("expected a missing column, got {:?}", other),
            }
        },
        other => panic!("expected an ingest plan, got {:?}", other),
    }
}

#[test]
fn malformed_row_truncates_file() {
    let data = "Date,Open,High,Low,Close,TotalVolume\n2020-01-02,100,101,99,100.5,1000\nbroken\n";
    let plan = plan_file(DAY_NAME, data.as_bytes());
    match plan {
        FilePlan::Ingest { bars, abandon } => {
            assert_eq!(bars.len(), 1);
            assert!(matches!(abandon, Some(AbandonReason::TruncatedFile)));
        },
        other => panic!("expected an ingest plan, got {:?}", other),
    }
}

#[test]
fn run_accounts_for_every_file() {
    let files = vec![
        (String::from("not-a-data-file.txt"), DAY_DATA.as_bytes().to_vec()),
        (String::from(DAY_NAME), DAY_DATA.as_bytes().to_vec()),
        (
            String::from(DAY_NAME),
            "Date,Open\n2020-01-02,100\n".as_bytes().to_vec(),
        ),
        (String::from(MINUTE_NAME), MINUTE_DATA.as_bytes().to_vec()),
    ];
    let mut table = BarTable::new();
    let tally = run_model(&files, &mut table);
    assert_eq!(tally.skipped, 1);
    assert_eq!(tally.abandoned, 1);
    assert_eq!(tally.processed, 2);
    assert_eq!(tally.skipped + tally.abandoned + tally.processed, files.len());
    assert_eq!(table.len(), 2);
}

#[test]
fn rerunning_inserts_nothing_new() {
    let files = vec![(String::from(DAY_NAME), DAY_DATA.as_bytes().to_vec())];
    let mut table = BarTable::new();
    let first = run_model(&files, &mut table);
    assert_eq!(first.processed, 1);
    assert_eq!(table.len(), 1);
    let second = run_model(&files, &mut table);
    assert_eq!(second.processed, 1);
    assert_eq!(table.len(), 1);
}

#[test]
fn bars_bind_nine_parameters() {
    let plan = plan_file(MINUTE_NAME, MINUTE_DATA.as_bytes());
    let bars = match plan {
        FilePlan::Ingest { bars, .. } => bars,
        other => panic!("expected an ingest plan, got {:?}", other),
    };
    let params = bind_params(&bars[0]);
    assert_eq!(
        params,
        vec![
            "2020-04-01 09:30:00",
            "@vx",
            "2020-04-01",
            "30.1",
            "30.5",
            "29.9",
            "30.2",
            "42",
            "minute",
        ]
    );
}

#[test]
fn absent_contract_binds_empty_text() {
    let plan = plan_file(DAY_NAME, DAY_DATA.as_bytes());
    let bars = match plan {
        FilePlan::Ingest { bars, .. } => bars,
        other => panic!("expected an ingest plan, got {:?}", other),
    };
    let params = bind_params(&bars[0]);
    assert_eq!(params[2], "");
    assert_eq!(params.len(), 9);
}

#[test]
fn worker_reaches_drained_once() {
    let mut w = Worker::new();
    assert_eq!(w.state, WorkerState::Running);
    let plan = plan_file(DAY_NAME, DAY_DATA.as_bytes());
    w.record(outcome_of(&plan));
    let skip = plan_file("junk.csv", DAY_DATA.as_bytes());
    w.record(outcome_of(&skip));
    w.close();
    assert_eq!(w.state, WorkerState::Drained);
    assert_eq!(w.tally.processed, 1);
    assert_eq!(w.tally.skipped, 1);
    assert_eq!(w.tally.abandoned, 0);
}

#[test]
fn outcome_of_each_plan_kind() {
    let skip = plan_file("junk.csv", DAY_DATA.as_bytes());
    assert_eq!(outcome_of(&skip), FileOutcome::Skipped);
    let good = plan_file(DAY_NAME, DAY_DATA.as_bytes());
    assert_eq!(outcome_of(&good), FileOutcome::Processed);
    let bad = plan_file(DAY_NAME, "Date,Open\n1,2\n".as_bytes());
    assert_eq!(outcome_of(&bad), FileOutcome::Abandoned);
}

#[test]
fn empty_file_has_no_rows() {
    let plan = plan_file(DAY_NAME, b"");
    match plan {
        FilePlan::Ingest { bars, abandon } => {
            assert_eq!(bars.len(), 0);
            assert!(abandon.is_none());
        },
        FilePlan::Skip(_) => {},
    }
    // An InsertOutcome comparison, so the enum's equality is exercised too.
    assert_ne!(InsertOutcome::Inserted, InsertOutcome::Conflict);
}

#[test]
fn repeated_header_takes_last_column() {
    let data = "Date,Open,Open,High,Low,Close,TotalVolume\n2020-01-02,1,2,3,0,1,10\n";
    let plan = plan_file(DAY_NAME, data.as_bytes());
    let bars = match plan {
        FilePlan::Ingest { bars, .. } => bars,
        other => panic!("expected an ingest plan, got {:?}", other),
    };
    assert_eq!(bars[0].open_text, "2");
}
