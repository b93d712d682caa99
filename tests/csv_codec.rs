use fin_parser::adapter::adapter::Adapter;
use fin_parser::adapter::errors::AdapterError;
use fin_parser::adapter::statement::{DebitCredit, Entry, Statement};
use fin_parser::format::csv::{get, parse_bik_and_bank, parse_counterparty, parse_row, CSV};
use fin_parser::{convert, FormatType};

fn row(cells: &[(usize, &str)]) -> Vec<String> {
    let mut r = vec![String::new(); 21];
    for (i, v) in cells {
        r[*i] = v.to_string();
    }
    r
}

fn csv_line(r: &[String]) -> String {
    let quoted: Vec<String> = r.iter().map(|f| format!("\"{}\"", f.replace('"', "\"\""))).collect();
    quoted.join(",")
}

#[test]
fn test_parse_bik_and_bank_basic() {
    let input = "БИК 042202603 ВОЛГО-ВЯТСКИЙ БАНК ПАО СБЕРБАНК, г.Нижний Новгород";
    let result = parse_bik_and_bank(input);
    assert!(result.is_some());

    let (bik, bank) = result.unwrap();
    assert_eq!(bik, "042202603");
    assert_eq!(bank, "ВОЛГО-ВЯТСКИЙ БАНК ПАО СБЕРБАНК, г.Нижний Новгород");
}

#[test]
fn parse_bik_and_bank_trims_the_name() {
    let (bik, bank) = parse_bik_and_bank("БИК   123456789   БАНК   ").unwrap();
    assert_eq!(bik, "123456789");
    assert_eq!(bank, "БАНК");
}

#[test]
fn parse_bik_and_bank_without_code() {
    assert!(parse_bik_and_bank("Банк без кода").is_none());
    assert!(parse_bik_and_bank("БИК 12345 БАНК").is_none());
}

#[test]
fn test_parse_counterparty() {
    let input = "40702810440000030888
7735602068
ООО РОМАШКА
";
    let result = parse_counterparty(input);

    assert!(result.0.is_some());
    assert!(result.1.is_some());
    assert!(result.2.is_some());

    assert_eq!(result.0.unwrap(), "40702810440000030888");
    assert_eq!(result.1.unwrap(), "7735602068");
    assert_eq!(result.2.unwrap(), "ООО РОМАШКА");
}

#[test]
fn parse_counterparty_skips_blank_lines() {
    let (a, b, c) = parse_counterparty("\n  4070  \r\n\n  7735\n");
    assert_eq!(a.as_deref(), Some("4070"));
    assert_eq!(b.as_deref(), Some("7735"));
    assert_eq!(c, None);
}

#[test]
fn get_trims_and_drops_blank_cells() {
    let r = vec![" a ".to_string(), "   ".to_string()];
    assert_eq!(get(&r, 0).as_deref(), Some("a"));
    assert_eq!(get(&r, 1), None);
    assert_eq!(get(&r, 5), None);
}

#[test]
fn parse_row_reads_the_bank_export_columns() {
    let r = row(&[
        (1, "01.10.2025"),
        (4, "40702810440000030888\n7735602068\nООО РОМАШКА"),
        (9, "1500.00"),
        (14, "17"),
        (17, "БИК 042202603 СБЕРБАНК"),
        (20, "Оплата"),
    ]);
    let item = parse_row(&r).unwrap().unwrap();
    assert_eq!(item.tx_data, "01.10.2025");
    assert_eq!(item.debit_account_number, "40702810440000030888");
    assert_eq!(item.debit_inn, "7735602068");
    assert_eq!(item.debit_account_name, "ООО РОМАШКА");
    assert_eq!(item.debit_amount, "1500.00");
    assert_eq!(item.credit_amount, "");
    assert_eq!(item.tx_number, "17");
    assert_eq!(item.bank_bik, "042202603");
    assert_eq!(item.bank_name, "СБЕРБАНК");
    assert_eq!(item.tx_description, "Оплата");
}

#[test]
fn parse_row_without_amounts_is_a_report_line() {
    let r = row(&[(1, "01.10.2025"), (20, "Итого")]);
    assert!(parse_row(&r).unwrap().is_none());
}

#[test]
fn rows_with_an_empty_date_are_skipped() {
    let header = csv_line(&row(&[(1, "Дата")]));
    let no_date = csv_line(&row(&[(9, "10.00"), (20, "no date")]));
    let good = csv_line(&row(&[(1, "02.10.2025"), (13, "250.00"), (14, "5"), (20, "Поступление")]));
    let text = format!("{header}\n{no_date}\n{good}\n");
    let st = CSV::read_from(&text).unwrap();
    assert_eq!(st.entries.len(), 1);
    let e = &st.entries[0];
    assert_eq!(e.booking_date, "02.10.2025");
    assert_eq!(e.value_date, "02.10.2025");
    assert_eq!(e.amount, "250.00");
    assert_eq!(e.kind, DebitCredit::Credit);
    assert_eq!(e.currency, "RUB");
    assert_eq!(e.reference.as_deref(), Some("5"));
    assert_eq!(e.description, "Поступление");
    assert_eq!(st.id, "undefined");
    assert_eq!(st.account_id, "undefined");
    assert!(st.opening_balance.is_none());
}

#[test]
fn malformed_record_reports_its_row() {
    let text = "a,b,c\n1,2,3\n1,2\n";
    match CSV::read_from(text) {
        Err(AdapterError::ParseError(m)) => assert!(m.starts_with("row 2: "), "{m}"),
        other => panic!("unexpected {other:?}"),
    }
}

#[test]
fn csv_write_places_amount_by_kind() {
    let st = Statement {
        id: "S".to_string(),
        account_id: "A".to_string(),
        opening_balance: None,
        entries: vec![
            Entry {
                booking_date: "2025-10-01".to_string(),
                value_date: "2025-10-01".to_string(),
                amount: "5.00".to_string(),
                currency: "EUR".to_string(),
                kind: DebitCredit::Debit,
                description: "Fee, monthly".to_string(),
                reference: None,
            },
        ],
        closing_balance: None,
    };
    let out = CSV::write_to(&st).unwrap();
    let mut lines = out.lines();
    assert_eq!(
        lines.next().unwrap(),
        ",posting_date,,,account_debit,,,,account_credit,debit_amount,,,,credit_amount,doc_number,,,bank_info,,,purpose"
    );
    let u = "undefined";
    let expected = format!(
        "{u},2025-10-01,{u},{u},{u},{u},{u},{u},{u},5.00,{u},{u},{u},,none,{u},{u},{u},{u},{u},\"Fee, monthly\""
    );
    assert_eq!(lines.next().unwrap(), expected);
    assert_eq!(CSV::undefined(), "undefined");
}

#[test]
fn csv_write_of_no_entries_is_empty() {
    let st = Statement {
        id: "S".to_string(),
        account_id: "A".to_string(),
        opening_balance: None,
        entries: vec![],
        closing_balance: None,
    };
    assert_eq!(CSV::write_to(&st).unwrap(), "");
}

#[test]
fn camt053_to_csv_smoke() {
    let camt = r#"
<?xml version="1.0" encoding="UTF-8"?>
<Document xmlns="urn:iso:std:iso:20022:tech:xsd:camt.053.001.02">
  <BkToCstmrStmt>
    <Stmt>
      <Id>STATEMENT1</Id>
      <Acct><Id><IBAN>DE0012345678</IBAN></Id></Acct>
      <Bal>
        <Tp><CdOrPrtry><Cd>OPBD</Cd></CdOrPrtry></Tp>
        <Amt Ccy="EUR">1000.00</Amt>
        <Dt><Dt>2025-10-01</Dt></Dt>
      </Bal>
      <Ntry>
        <Amt Ccy="EUR">100.00</Amt>
        <CdtDbtInd>CRDT</CdtDbtInd>
        <ValDt><Dt>2025-10-01</Dt></ValDt>
        <BookgDt><Dt>2025-10-01</Dt></BookgDt>
        <AddtlNtryInf>Salary October</AddtlNtryInf>
      </Ntry>
      <Bal>
        <Tp><CdOrPrtry><Cd>CLBD</Cd></CdOrPrtry></Tp>
        <Amt Ccy="EUR">1100.00</Amt>
        <Dt><Dt>2025-10-31</Dt></Dt>
      </Bal>
    </Stmt>
  </BkToCstmrStmt>
</Document>
"#;
    let csv = convert(camt.trim_start(), FormatType::CAMT053, FormatType::CSV).unwrap();
    assert!(csv.contains("Salary October"));
    assert!(csv.contains("100"));
    assert!(csv.contains("2025-10-01"));
}

fn shaped_statement() -> Statement {
    let entry = |date: &str, amount: &str, kind: DebitCredit, r: &str, d: &str| Entry {
        booking_date: date.to_string(),
        value_date: date.to_string(),
        amount: amount.to_string(),
        currency: "RUB".to_string(),
        kind,
        description: d.to_string(),
        reference: Some(r.to_string()),
    };
    Statement {
        id: "undefined".to_string(),
        account_id: "undefined".to_string(),
        opening_balance: None,
        entries: vec![
            entry("01.10.2025", "1500.00", DebitCredit::Debit, "17", "Оплата, счёт 5"),
            entry("02.10.2025", "250.00", DebitCredit::Credit, "18", "Поступление\nвторая строка"),
        ],
        closing_balance: None,
    }
}

#[test]
fn csv_reads_back_its_own_output() {
    let st = shaped_statement();
    let out = CSV::write_to(&st).unwrap();
    assert_eq!(CSV::read_from(&out).unwrap(), st);
}

#[test]
fn csv_read_write_read_is_stable() {
    let header = csv_line(&row(&[(1, "Дата")]));
    let good = csv_line(&row(&[(1, " 02.10.2025 "), (9, "10.00"), (14, "5"), (20, "Списание")]));
    let text = format!("{header}\n{good}\n");
    let first = CSV::read_from(&text).unwrap();
    let second = CSV::read_from(&CSV::write_to(&first).unwrap()).unwrap();
    assert_eq!(first, second);
}
