use fin_parser::adapter::adapter::Adapter;
use fin_parser::adapter::errors::AdapterError;
use fin_parser::adapter::statement::{Balance, DebitCredit, Entry, Statement};
use fin_parser::format::camt::{attr_value, read_text, CAMT};

fn statement() -> Statement {
    Statement {
        id: "ST-1".to_string(),
        account_id: "DE0012345678".to_string(),
        opening_balance: Some(Balance {
            kind: DebitCredit::Credit,
            date_yyymmdd: "2025-10-01".to_string(),
            currency: "EUR".to_string(),
            amount: "1000.00".to_string(),
        }),
        entries: vec![
            Entry {
                booking_date: "2025-10-02".to_string(),
                value_date: "2025-10-01".to_string(),
                amount: "100.00".to_string(),
                currency: "EUR".to_string(),
                kind: DebitCredit::Credit,
                description: "Tom & Jerry <3>".to_string(),
                reference: Some("REF1".to_string()),
            },
            Entry {
                booking_date: "2025-10-03".to_string(),
                value_date: "2025-10-03".to_string(),
                amount: "5.00".to_string(),
                currency: "USD".to_string(),
                kind: DebitCredit::Debit,
                description: String::new(),
                reference: None,
            },
        ],
        closing_balance: Some(Balance {
            kind: DebitCredit::Credit,
            date_yyymmdd: "2025-10-31".to_string(),
            currency: "EUR".to_string(),
            amount: "1095.00".to_string(),
        }),
    }
}

#[test]
fn test_read_text_plain() {
    let result = read_text("Hello World").unwrap();
    assert_eq!(result, "Hello World");
}

#[test]
fn test_read_text_with_escape() {
    let result = read_text("Tom &amp; Jerry &lt;3").unwrap();
    assert_eq!(result, "Tom & Jerry <3");
}

#[test]
fn read_text_rejects_unknown_entity() {
    assert!(matches!(read_text("a &bogus; b"), Err(AdapterError::ParseError(_))));
}

fn attrs(pairs: &[(&str, &str)]) -> Vec<(String, String)> {
    pairs.iter().map(|(k, v)| (k.to_string(), v.to_string())).collect()
}

#[test]
fn attr_value_found() {
    let el = attrs(&[("Ccy", "EUR"), ("Scale", "2")]);
    let val = attr_value(&el, "Ccy");
    assert_eq!(val.as_deref(), Some("EUR"));
}

#[test]
fn attr_value_not_found() {
    let el = attrs(&[("Ccy", "EUR")]);
    let val = attr_value(&el, "Missing");
    assert!(val.is_none());
}

#[test]
fn attr_value_multiple_attrs() {
    let el = attrs(&[("Scale", "2"), ("Ccy", "USD"), ("Note", "net")]);
    let val = attr_value(&el, "Ccy");
    assert_eq!(val.as_deref(), Some("USD"));
}

#[test]
fn writes_a_pretty_printed_document() {
    let xml = CAMT::write_to(&statement()).unwrap();
    assert!(xml.starts_with("<?xml version=\"1.0\" encoding=\"UTF-8\"?>"));
    assert!(xml.contains("\n<Document xmlns=\"urn:iso:std:iso:20022:tech:xsd:camt.053.001.02\">"));
    assert!(xml.contains("\n  <BkToCstmrStmt>\n    <Stmt>\n      <Id>ST-1</Id>"));
    assert!(xml.contains("<IBAN>DE0012345678</IBAN>"));
    assert!(xml.contains("<Cd>OPBD</Cd>"));
    assert!(xml.contains("<Cd>CLBD</Cd>"));
    assert!(xml.contains("<AddtlNtryInf>Tom &amp; Jerry &lt;3&gt;</AddtlNtryInf>"));
    assert!(xml.contains("<NtryRef>REF1</NtryRef>"));
    assert!(xml.contains("<CdtDbtInd>DBIT</CdtDbtInd>"));
    assert_eq!(xml.matches("<Ntry>").count(), 2);
    assert!(xml.find("OPBD").unwrap() < xml.find("CLBD").unwrap());
    assert!(xml.find("CLBD").unwrap() < xml.find("<Ntry>").unwrap());
}

#[test]
fn reads_back_its_own_output() {
    let st = statement();
    let xml = CAMT::write_to(&st).unwrap();
    let back = CAMT::read_from(&xml).unwrap();
    assert_eq!(back, st);
}

#[test]
fn entries_keep_document_order() {
    let xml = "<Document><BkToCstmrStmt><Stmt>\
        <Ntry><Amt Ccy=\"EUR\">1</Amt><CdtDbtInd>DBIT</CdtDbtInd></Ntry>\
        <Ntry><Amt>2</Amt><NtryRef></NtryRef></Ntry>\
        <Ntry><Amt Ccy=\"CHF\">3</Amt></Ntry>\
        </Stmt></BkToCstmrStmt></Document>";
    let st = CAMT::read_from(xml).unwrap();
    assert_eq!(st.entries.len(), 3);
    assert_eq!(st.entries[0].amount, "1");
    assert_eq!(st.entries[0].kind, DebitCredit::Debit);
    assert_eq!(st.entries[1].amount, "2");
    assert_eq!(st.entries[1].currency, "XXX");
    assert_eq!(st.entries[1].kind, DebitCredit::Credit);
    assert_eq!(st.entries[1].reference, None);
    assert_eq!(st.entries[2].currency, "CHF");
    assert_eq!(st.id, "none");
    assert!(st.opening_balance.is_none());
}

#[test]
fn unknown_indicator_is_a_parse_error() {
    let xml = "<Document><Stmt><Ntry><CdtDbtInd>BOTH</CdtDbtInd></Ntry></Stmt></Document>";
    match CAMT::read_from(xml) {
        Err(AdapterError::ParseError(m)) => assert_eq!(m, "Unexpected CdtDbtInd `BOTH`"),
        other => panic!("unexpected {other:?}"),
    }
}

#[test]
fn first_statement_id_and_iban_win() {
    let xml = "<Stmt><Id>S1</Id><Acct><Id><IBAN>I1</IBAN></Id></Acct><Id>S2</Id><IBAN>I2</IBAN></Stmt>";
    let st = CAMT::read_from(xml).unwrap();
    assert_eq!(st.id, "S1");
    assert_eq!(st.account_id, "I1");
}

#[test]
fn malformed_document_is_a_parse_error() {
    assert!(matches!(CAMT::read_from("<a><b></a>"), Err(AdapterError::ParseError(_))));
}


#[test]
fn unknown_indicator_outside_an_entry_is_a_parse_error() {
    let xml = "<Stmt><Bal><CdtDbtInd>XYZ</CdtDbtInd></Bal></Stmt>";
    match CAMT::read_from(xml) {
        Err(AdapterError::ParseError(m)) => assert_eq!(m, "Unexpected CdtDbtInd `XYZ`"),
        other => panic!("unexpected {other:?}"),
    }
    assert!(CAMT::read_from("<Stmt><Bal><CdtDbtInd>DBIT</CdtDbtInd></Bal></Stmt>").is_ok());
}

#[test]
fn statement_id_is_the_stmt_own_id() {
    let xml = "<Stmt><Acct><Id><Othr><Id>A</Id></Othr></Id></Acct><Id>S</Id></Stmt>";
    let st = CAMT::read_from(xml).unwrap();
    assert_eq!(st.id, "S");
    let nested = "<Stmt><Ntry><Refs><Id>X</Id></Refs></Ntry></Stmt>";
    assert_eq!(CAMT::read_from(nested).unwrap().id, "none");
}

#[test]
fn reads_balances() {
    let st = CAMT::read_from(&CAMT::write_to(&statement()).unwrap()).unwrap();
    let open = st.opening_balance.unwrap();
    assert_eq!(open.amount, "1000.00");
    assert_eq!(open.currency, "EUR");
    assert_eq!(open.date_yyymmdd, "2025-10-01");
    assert_eq!(st.closing_balance.unwrap().amount, "1095.00");
}
