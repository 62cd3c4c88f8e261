use csv_to_postgresql::symbol::{
    cme_month_letter_to_number, complete_short_year, decompose_symbol, format_contract_date,
    ContractInfo, SymbolError,
};

#[test]
fn decompose_futures_symbol() {
    let d = decompose_symbol("@VXJ20").unwrap();
    assert_eq!(d.root, "@VX");
    let ci = d.contract.expect("futures symbol must carry a contract");
    assert_eq!(ci.month, 4);
    assert_eq!(ci.year, 2020);
    assert_eq!(format_contract_date(&ci), "2020-04-01");
}

#[test]
fn decompose_lowercase_symbol() {
    let d = decompose_symbol("esz20").unwrap();
    assert_eq!(d.root, "es");
    let ci = d.contract.unwrap();
    assert_eq!(ci.month, 12);
    assert_eq!(ci.year, 2020);
    assert_eq!(format_contract_date(&ci), "2020-12-01");
}

#[test]
fn decompose_pivot_years() {
    let at_pivot = decompose_symbol("@VXJ40").unwrap().contract.unwrap();
    assert_eq!(at_pivot.year, 1940);
    let below_pivot = decompose_symbol("@VXJ39").unwrap().contract.unwrap();
    assert_eq!(below_pivot.year, 2039);
    let old_year = decompose_symbol("@VXJ65").unwrap().contract.unwrap();
    assert_eq!(old_year.year, 1965);
    let zero = decompose_symbol("@VXJ0").unwrap().contract.unwrap();
    assert_eq!(zero.year, 2000);
}

#[test]
fn decompose_non_futures_passthrough() {
    for sym in ["es", "ES", "@VX", "123", "j20", "es-z20", "@vx.j20", "", "x@j20", "@j20", "e@sz20"] {
        let d = decompose_symbol(sym).unwrap();
        assert_eq!(d.root, sym);
        assert!(d.contract.is_none());
    }
}

#[test]
fn decompose_year_out_of_range() {
    let r = decompose_symbol("@vxj1234567890");
    assert!(matches!(r, Err(SymbolError::YearOutOfRange)));
    let nine_digits = decompose_symbol("@vxj123456789").unwrap();
    assert_eq!(nine_digits.contract.unwrap().year, 123456789 + 1900);
}

#[test]
fn month_letter_table() {
    let table = [
        ("f", 1),
        ("g", 2),
        ("h", 3),
        ("j", 4),
        ("k", 5),
        ("m", 6),
        ("n", 7),
        ("q", 8),
        ("u", 9),
        ("v", 10),
        ("x", 11),
        ("z", 12),
    ];
    for (letter, number) in table {
        assert_eq!(cme_month_letter_to_number(letter).unwrap(), number);
    }
}

#[test]
fn month_letter_rejects_outsiders() {
    let err = cme_month_letter_to_number("a").unwrap_err();
    assert_eq!(err, "Invalid contract month: 'a'");
    let err = cme_month_letter_to_number("F").unwrap_err();
    assert_eq!(err, "Invalid contract month: 'F'");
    let err = cme_month_letter_to_number("fg").unwrap_err();
    assert_eq!(err, "Invalid contract month: 'fg'");
    let err = cme_month_letter_to_number("").unwrap_err();
    assert_eq!(err, "Invalid contract month: ''");
}

#[test]
fn short_year_completion() {
    assert_eq!(complete_short_year(&40), 1940);
    assert_eq!(complete_short_year(&39), 2039);
    assert_eq!(complete_short_year(&0), 2000);
    assert_eq!(complete_short_year(&99), 1999);
    assert_eq!(complete_short_year(&2020), 3920);
}

#[test]
fn contract_date_pads_month() {
    let january = ContractInfo { month: 1, year: 2021 };
    assert_eq!(format_contract_date(&january), "2021-01-01");
    let december = ContractInfo { month: 12, year: 1999 };
    assert_eq!(format_contract_date(&december), "1999-12-01");
}
