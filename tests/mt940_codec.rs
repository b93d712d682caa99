use fin_parser::adapter::adapter::Adapter;
use fin_parser::adapter::errors::AdapterError;
use fin_parser::adapter::statement::{Balance, DebitCredit, Entry, Statement};
use fin_parser::format::mt940::{balance_to_str, FormatMt940};
use fin_parser::{convert, FormatType};

const SAMPLE: &str = "
:20:STATEMENT1
:25:DE0012345678
:60F:C251001EUR1000,00
:61:2510011001C100,00NTRFNONREF
:86:Salary October
:62F:C251031EUR1100,00
";

fn parse_error(text: &str) -> String {
    match FormatMt940::read_from(text) {
        Err(AdapterError::ParseError(m)) => m,
        other => panic!("expected a parse error, got {other:?}"),
    }
}

#[test]
fn reads_the_sample_statement() {
    let st = FormatMt940::read_from(SAMPLE).unwrap();
    assert_eq!(st.id, "STATEMENT1");
    assert_eq!(st.account_id, "DE0012345678");
    let open = st.opening_balance.as_ref().unwrap();
    assert_eq!(open.kind, DebitCredit::Credit);
    assert_eq!(open.date_yyymmdd, "251001");
    assert_eq!(open.currency, "EUR");
    assert_eq!(open.amount, "1000,00");
    assert_eq!(st.closing_balance.as_ref().unwrap().amount, "1100,00");
    assert_eq!(st.entries.len(), 1);
    let e = &st.entries[0];
    assert_eq!(e.value_date, "251001");
    assert_eq!(e.booking_date, "251001");
    assert_eq!(e.amount, "100,00");
    assert_eq!(e.currency, "EUR");
    assert_eq!(e.kind, DebitCredit::Credit);
    assert_eq!(e.description, "Salary October");
    assert_eq!(e.reference.as_deref(), Some(""));
}

#[test]
fn reference_follows_the_type_code() {
    let text = ":20:X\n:25:Y\n:60F:D251001EUR5\n:61:2510011002D7.5NTRF/REF 1\n:86:  Fee  \n:86:ignored\n:62F:D251031EUR12,5\n";
    let st = FormatMt940::read_from(text).unwrap();
    let e = &st.entries[0];
    assert_eq!(e.booking_date, "251002");
    assert_eq!(e.amount, "7.5");
    assert_eq!(e.kind, DebitCredit::Debit);
    assert_eq!(e.reference.as_deref(), Some("/REF 1"));
    assert_eq!(e.description, "Fee");
    assert_eq!(st.opening_balance.unwrap().kind, DebitCredit::Debit);
}

#[test]
fn missing_amount_is_a_parse_error() {
    let text = ":20:X\n:25:Y\n:60F:C251001EUR1\n:61:251001C NTRFREF\n:62F:C251031EUR1\n";
    let m = parse_error(text);
    assert!(m.starts_with(":61: "), "{m}");
}

#[test]
fn missing_amount_run_is_reported() {
    let text = ":20:X\n:25:Y\n:60F:C251001EUR1\n:61:2510011001CNTRF\n:62F:C251031EUR1\n";
    assert_eq!(parse_error(text), ":61: amount missing in `2510011001CNTRF`");
}

#[test]
fn missing_type_code_is_reported() {
    let text = ":20:X\n:25:Y\n:60F:C251001EUR1\n:61:2510011001C10,00/REF\n:62F:C251031EUR1\n";
    assert_eq!(parse_error(text), ":61: type code missing in `2510011001C10,00/REF`");
}

#[test]
fn bad_sign_is_reported() {
    let text = ":20:X\n:25:Y\n:60F:X251001EUR1\n";
    assert_eq!(parse_error(text), "unknown balance sign `X`");
    let text = ":20:X\n:25:Y\n:60F:C251001EUR1\n:61:2510011001X10,00NTRF\n";
    assert_eq!(parse_error(text), ":61: bad sign `X`");
}

#[test]
fn short_fields_are_reported() {
    assert_eq!(parse_error(":60F:C2510\n"), "balance too short: `C2510`");
    assert_eq!(parse_error(":20:X\n:61:2510011001C\n"), ":61: too short: `2510011001C`");
}

#[test]
fn required_tags_are_checked() {
    assert_eq!(parse_error(":20:X\n:25:Y\n:62F:C251031EUR1\n"), "missing :60F: opening balance");
    assert_eq!(parse_error(":20:X\n:25:Y\n:60F:C251031EUR1\n"), "missing :62F: closing balance");
    assert_eq!(parse_error(":25:Y\n:60F:C251001EUR1\n:62F:C251031EUR1\n"), "missing :20: reference");
    assert_eq!(parse_error(":20:X\n:60F:C251001EUR1\n:62F:C251031EUR1\n"), "missing :25: account id");
}

#[test]
fn writes_tags_in_fixed_order() {
    let st = FormatMt940::read_from(SAMPLE).unwrap();
    let out = FormatMt940::write_to(&st).unwrap();
    assert_eq!(
        out,
        ":20:STATEMENT1\n:25:DE0012345678\n:60F:C251001EUR1000,00\n:61:2510011001C100,00NTRF\n:86:Salary October\n:62F:C251031EUR1100,00\n"
    );
}

#[test]
fn balance_amount_gets_comma_and_two_decimals() {
    let b = |amount: &str, date: &str| Balance {
        kind: DebitCredit::Debit,
        date_yyymmdd: date.to_string(),
        currency: "USD".to_string(),
        amount: amount.to_string(),
    };
    assert_eq!(balance_to_str(&b("12.5", "20251001")).unwrap(), "D251001USD12,50");
    assert_eq!(balance_to_str(&b("7", "251001")).unwrap(), "D251001USD7,00");
    assert_eq!(balance_to_str(&b("7,", "251001")).unwrap(), "D251001USD7,00");
    assert_eq!(balance_to_str(&b("7.25", "251001")).unwrap(), "D251001USD7,25");
    assert_eq!(balance_to_str(&b("1,234", "251001")), None);
}

#[test]
fn round_trip_keeps_entries() {
    let text = ":20:A\n:25:B\n:60F:C251001EUR10.5\n:61:2510011001C100,00NTRF/X\n:86:one\n:61:2510021002D3.25NMSC\n:62F:D251031EUR1\n";
    let first = FormatMt940::read_from(text).unwrap();
    let written = FormatMt940::write_to(&first).unwrap();
    let second = FormatMt940::read_from(&written).unwrap();
    assert_eq!(first.entries, second.entries);
    assert_eq!(second.opening_balance.as_ref().unwrap().amount, "10,50");
    let again = FormatMt940::write_to(&second).unwrap();
    assert_eq!(FormatMt940::read_from(&again).unwrap(), second);
}

#[test]
fn written_statement_without_balances() {
    let st = Statement {
        id: "I".to_string(),
        account_id: "A".to_string(),
        opening_balance: None,
        entries: vec![Entry {
            booking_date: "2025-10-01".to_string(),
            value_date: "251001".to_string(),
            amount: "1".to_string(),
            currency: "EUR".to_string(),
            kind: DebitCredit::Debit,
            description: String::new(),
            reference: Some("/R".to_string()),
        }],
        closing_balance: None,
    };
    assert_eq!(FormatMt940::write_to(&st).unwrap(), ":20:I\n:25:A\n:61:2510010-01D1NTRF/R\n:86:\n");
}

#[test]
fn mt940_to_camt053_smoke() {
    let xml = convert(SAMPLE, FormatType::MT940, FormatType::CAMT053).unwrap();
    assert!(xml.contains("<Document"));
    assert!(xml.contains("BkToCstmrStmt"));
    assert!(xml.contains("<Stmt>"));
    assert!(xml.contains("<Ntry>"));
}

#[test]
fn mt940_to_camt053_entry() {
    let xml = convert(SAMPLE, FormatType::MT940, FormatType::CAMT053).unwrap();
    assert_eq!(xml.matches("<Ntry>").count(), 1);
    assert!(xml.contains("<CdtDbtInd>CRDT</CdtDbtInd>"));
    assert!(xml.contains("<Amt Ccy=\"EUR\">100,00</Amt>"));
    assert!(xml.contains("<AddtlNtryInf>Salary October</AddtlNtryInf>"));
}

#[test]
fn format_tags() {
    assert_eq!(FormatType::from_tag("csv").unwrap(), FormatType::CSV);
    assert_eq!(FormatType::from_tag("mt940").unwrap(), FormatType::MT940);
    assert_eq!(FormatType::from_tag("camt053").unwrap(), FormatType::CAMT053);
    assert!(FormatType::from_tag("xml").is_err());
}

#[test]
fn conversion_stops_at_a_read_error() {
    match convert(":20:X\n", FormatType::MT940, FormatType::CSV) {
        Err(AdapterError::ParseError(m)) => assert_eq!(m, "missing :60F: opening balance"),
        other => panic!("unexpected {other:?}"),
    }
}

#[test]
fn balance_with_more_than_two_decimals_is_a_write_error() {
    let text = ":20:X\n:25:Y\n:60F:C251001EUR1.555\n:62F:C251031EUR1\n";
    let st = FormatMt940::read_from(text).unwrap();
    assert!(matches!(FormatMt940::write_to(&st), Err(AdapterError::WriteError(_))));
    assert!(matches!(
        convert(text, FormatType::MT940, FormatType::MT940),
        Err(AdapterError::WriteError(_))
    ));
}
