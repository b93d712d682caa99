use crate::adapter::adapter::Adapter;
use crate::adapter::errors::AdapterError;
use crate::adapter::statement::{
    entries_view, DebitCredit, Entry, EntryView, Statement, StatementView,
};
use crate::text::{
    chars_of, decimal, is_trimmed, lemma_trim_is_trimmed, lemma_trim_of_trimmed, lines_view,
    push_decimal, push_str, split_lines, string_of, text_lines, trim, trim_chars,
};
use vstd::prelude::*;

verus! {

/// The records of a CSV text after its header row, as the `csv` crate reads them,
/// or the position (from 0, header not counted) and message of the first
/// malformed record.
pub uninterp spec fn csv_records_of(text: Seq<char>) -> Result<
    Seq<Seq<Seq<char>>>,
    (int, Seq<char>),
>;

pub open spec fn row_view(r: Seq<String>) -> Seq<Seq<char>> {
    r.map_values(|f: String| f@)
}

pub open spec fn rows_view(rows: Seq<Vec<String>>) -> Seq<Seq<Seq<char>>> {
    rows.map_values(|r: Vec<String>| row_view(r@))
}

/// Relies on `csv::ReaderBuilder` with a header row and `Reader::records`:
/// the fields of each record after the header, or the first error.
#[verifier::external_body]
fn csv_records(text: &str) -> (r: Result<Vec<Vec<String>>, (usize, String)>)
    ensures
        match csv_records_of(text@) {
            Ok(rows) => r matches Ok(v) && rows_view(v@) == rows,
            Err((i, m)) => r matches Err((j, x)) && j == i && x@ == m,
        },
{
    let mut reader = csv::ReaderBuilder::new().has_headers(true).from_reader(text.as_bytes());
    let mut rows = Vec::new();
    for (i, rec) in reader.records().enumerate() {
        match rec {
            Ok(fields) => rows.push(fields.iter().map(|f| f.to_string()).collect()),
            Err(e) => return Err((i, e.to_string())),
        }
    }
    Ok(rows)
}

/// The CSV text that `csv::Writer` makes of these records.
pub uninterp spec fn csv_text_of(rows: Seq<Seq<Seq<char>>>) -> Seq<char>;

/// Relies on `csv::Writer::write_record` and `Writer::into_inner`: each row
/// written as one record, in order. Over a `Vec<u8>` the only error is a record
/// whose length differs from the first one's, so rows of one length always
/// succeed; the output is UTF-8 since every field is a `str`.
#[verifier::external_body]
fn csv_write(rows: &Vec<Vec<String>>) -> (r: Result<String, String>)
    ensures
        (forall|i: int|
            0 <= i < rows@.len() ==> (#[trigger] rows_view(rows@)[i]).len() == rows_view(
                rows@,
            )[0].len()) ==> r is Ok,
        r matches Ok(t) ==> t@ == csv_text_of(rows_view(rows@)),
{
    let mut w = csv::Writer::from_writer(Vec::new());
    for row in rows {
        w.write_record(row).map_err(|e| e.to_string())?;
    }
    let bytes = w.into_inner().map_err(|e| e.to_string())?;
    String::from_utf8(bytes).map_err(|e| e.to_string())
}

/// Capture groups 1 and 2 of the first match of a regular expression in a
/// text (`None` when it does not match or either group took no part), or the
/// error of a pattern that does not compile.
pub uninterp spec fn regex_captures_of(pattern: Seq<char>, line: Seq<char>) -> Result<
    Option<(Seq<char>, Seq<char>)>,
    Seq<char>,
>;

/// Relies on `regex::Regex::new` and `Regex::captures`: groups 1 and 2 of the
/// first match, when both took part in it.
#[verifier::external_body]
fn regex_captures(pattern: &str, line: &str) -> (r: Result<Option<(String, String)>, String>)
    ensures
        match regex_captures_of(pattern@, line@) {
            Ok(Some((a, b))) => r matches Ok(Some((x, y))) && x@ == a && y@ == b,
            Ok(None) => r matches Ok(None),
            Err(m) => r matches Err(x) && x@ == m,
        },
{
    let re = regex::Regex::new(pattern).map_err(|e| e.to_string())?;
    Ok(re.captures(line).and_then(|c| Some((c.get(1)?.as_str().to_string(), c.get(2)?.as_str().to_string()))))
}

/// The pattern of a bank line: `БИК`, a nine-digit bank code, and the bank's name.
pub open spec fn bik_pattern() -> Seq<char> {
    "БИК\\s+(\\d{9})\\s+(.+)"@
}

/// The bank code and the trimmed bank name of a bank line.
pub open spec fn bik_and_bank_of(line: Seq<char>) -> Option<(Seq<char>, Seq<char>)> {
    match regex_captures_of(bik_pattern(), line) {
        Ok(Some((bik, bank))) => Some((bik, trim(bank))),
        _ => None,
    }
}

/// The bank code and bank name of a bank line such as
/// `БИК 042202603 ВОЛГО-ВЯТСКИЙ БАНК ПАО СБЕРБАНК`.
pub fn parse_bik_and_bank(line: &str) -> (r: Option<(String, String)>)
    ensures
        match bik_and_bank_of(line@) {
            Some((bik, bank)) => r matches Some((x, y)) && x@ == bik && y@ == bank,
            None => r is None,
        },
{
    match regex_captures(bik_pattern_text(), line) {
        Ok(Some((bik, bank))) => {
            let b = chars_of(bank.as_str());
            let t = trim_chars(&b);
            Some((bik, string_of(&t)))
        },
        _ => None,
    }
}

fn bik_pattern_text() -> (r: &'static str)
    ensures
        r@ == bik_pattern(),
{
    "БИК\\s+(\\d{9})\\s+(.+)"
}

/// Each line trimmed.
pub open spec fn trimmed_lines(ls: Seq<Seq<char>>) -> Seq<Seq<char>> {
    ls.map_values(|l: Seq<char>| trim(l))
}

/// The lines that are not empty.
pub open spec fn non_blank(ls: Seq<Seq<char>>) -> Seq<Seq<char>> {
    ls.filter(|l: Seq<char>| l.len() > 0)
}

/// The non-blank lines of a block, trimmed.
pub open spec fn block_lines(block: Seq<char>) -> Seq<Seq<char>> {
    non_blank(trimmed_lines(text_lines(block)))
}

pub open spec fn nth_line(ls: Seq<Seq<char>>, i: int) -> Option<Seq<char>> {
    if 0 <= i < ls.len() {
        Some(ls[i])
    } else {
        None
    }
}

pub open spec fn opt_string_view(o: Option<String>) -> Option<Seq<char>> {
    match o {
        Some(s) => Some(s@),
        None => None,
    }
}

/// Splits a counterparty block (`account number / tax id / name`, one per
/// line) into its first three non-blank lines.
pub fn parse_counterparty(block: &str) -> (r: (Option<String>, Option<String>, Option<String>))
    ensures
        opt_string_view(r.0) == nth_line(block_lines(block@), 0),
        opt_string_view(r.1) == nth_line(block_lines(block@), 1),
        opt_string_view(r.2) == nth_line(block_lines(block@), 2),
{
    let cs = chars_of(block);
    let lines = split_lines(&cs);
    let ghost all = trimmed_lines(text_lines(block@));
    let mut kept: Vec<Vec<char>> = Vec::new();
    let mut i: usize = 0;
    while i < lines.len()
        invariant
            i <= lines@.len(),
            lines_view(lines@) == text_lines(block@),
            all == trimmed_lines(text_lines(block@)),
            lines_view(kept@) == non_blank(all.subrange(0, i as int)),
        decreases lines@.len() - i,
    {
        let t = trim_chars(&lines[i]);
        let ghost before = kept@;
        let ghost next = all.subrange(0, i + 1);
        assert(next.drop_last() =~= all.subrange(0, i as int));
        assert(t@ == all[i as int]);
        assert(next.last() == t@);
        reveal(Seq::filter);
        if t.len() > 0 {
            kept.push(t);
            assert(non_blank(next) == non_blank(all.subrange(0, i as int)).push(t@));
            assert(lines_view(kept@) =~= lines_view(before).push(t@));
        } else {
            assert(non_blank(next) == non_blank(all.subrange(0, i as int)));
        }
        i = i + 1;
    }
    assert(all.subrange(0, lines@.len() as int) =~= all);
    let account = if kept.len() > 0 { Some(string_of(&kept[0])) } else { None };
    let inn = if kept.len() > 1 { Some(string_of(&kept[1])) } else { None };
    let name = if kept.len() > 2 { Some(string_of(&kept[2])) } else { None };
    (account, inn, name)
}

/// One row of the bank export.
pub struct ItemCsv {
    pub tx_data: String,
    pub tx_number: String,
    pub tx_description: String,
    pub debit_account_number: String,
    pub debit_inn: String,
    pub debit_account_name: String,
    pub debit_amount: String,
    pub credit_account_number: String,
    pub credit_inn: String,
    pub credit_account_name: String,
    pub credit_amount: String,
    pub bank_bik: String,
    pub bank_name: String,
}

pub struct ItemCsvView {
    pub tx_data: Seq<char>,
    pub tx_number: Seq<char>,
    pub tx_description: Seq<char>,
    pub debit_account_number: Seq<char>,
    pub debit_inn: Seq<char>,
    pub debit_account_name: Seq<char>,
    pub debit_amount: Seq<char>,
    pub credit_account_number: Seq<char>,
    pub credit_inn: Seq<char>,
    pub credit_account_name: Seq<char>,
    pub credit_amount: Seq<char>,
    pub bank_bik: Seq<char>,
    pub bank_name: Seq<char>,
}

impl View for ItemCsv {
    type V = ItemCsvView;

    open spec fn view(&self) -> ItemCsvView {
        ItemCsvView {
            tx_data: self.tx_data@,
            tx_number: self.tx_number@,
            tx_description: self.tx_description@,
            debit_account_number: self.debit_account_number@,
            debit_inn: self.debit_inn@,
            debit_account_name: self.debit_account_name@,
            debit_amount: self.debit_amount@,
            credit_account_number: self.credit_account_number@,
            credit_inn: self.credit_inn@,
            credit_account_name: self.credit_account_name@,
            credit_amount: self.credit_amount@,
            bank_bik: self.bank_bik@,
            bank_name: self.bank_name@,
        }
    }
}

/// The trimmed text of a cell; empty where the row is too short.
pub open spec fn cell(row: Seq<Seq<char>>, i: int) -> Seq<char> {
    if 0 <= i < row.len() {
        trim(row[i])
    } else {
        Seq::empty()
    }
}

/// The trimmed text of a cell, if it is not blank.
pub open spec fn get_spec(row: Seq<Seq<char>>, i: int) -> Option<Seq<char>> {
    if cell(row, i).len() > 0 {
        Some(cell(row, i))
    } else {
        None
    }
}

/// The trimmed text of cell `idx`, if there is one and it is not blank.
pub fn get(rec: &Vec<String>, idx: usize) -> (r: Option<String>)
    ensures
        opt_string_view(r) == get_spec(row_view(rec@), idx as int),
{
    if idx >= rec.len() {
        return None;
    }
    let cs = chars_of(rec[idx].as_str());
    let t = trim_chars(&cs);
    if t.len() == 0 {
        None
    } else {
        Some(string_of(&t))
    }
}

fn cell_text(rec: &Vec<String>, idx: usize) -> (r: String)
    ensures
        r@ == cell(row_view(rec@), idx as int),
{
    match get(rec, idx) {
        Some(s) => s,
        None => String::new(),
    }
}

pub open spec fn or_empty(o: Option<Seq<char>>) -> Seq<char> {
    match o {
        Some(s) => s,
        None => Seq::empty(),
    }
}

fn or_empty_string(o: Option<String>) -> (r: String)
    ensures
        r@ == or_empty(opt_string_view(o)),
{
    match o {
        Some(s) => s,
        None => String::new(),
    }
}

/// The item of a bank-export row: date in cell 1, debit block in 4, credit
/// block in 8, debit amount in 9, credit amount in 13, number in 14, bank in
/// 17, purpose in 20. A row without a date, or without either amount, is a
/// report line and has no item.
pub open spec fn row_item(row: Seq<Seq<char>>) -> Option<ItemCsvView> {
    let tx_data = cell(row, 1);
    let debit_amount = cell(row, 9);
    let credit_amount = cell(row, 13);
    if tx_data.len() == 0 || (debit_amount.len() == 0 && credit_amount.len() == 0) {
        None
    } else {
        let debit = block_lines(cell(row, 4));
        let credit = block_lines(cell(row, 8));
        let bank = bik_and_bank_of(cell(row, 17));
        Some(
            ItemCsvView {
                tx_data,
                tx_number: cell(row, 14),
                tx_description: cell(row, 20),
                debit_account_number: or_empty(nth_line(debit, 0)),
                debit_inn: or_empty(nth_line(debit, 1)),
                debit_account_name: or_empty(nth_line(debit, 2)),
                debit_amount,
                credit_account_number: or_empty(nth_line(credit, 0)),
                credit_inn: or_empty(nth_line(credit, 1)),
                credit_account_name: or_empty(nth_line(credit, 2)),
                credit_amount,
                bank_bik: match bank {
                    Some((b, _)) => b,
                    None => Seq::empty(),
                },
                bank_name: match bank {
                    Some((_, n)) => n,
                    None => Seq::empty(),
                },
            },
        )
    }
}

/// Reads one bank-export row; report lines give `None`.
pub fn parse_row(row: &Vec<String>) -> (r: Result<Option<ItemCsv>, AdapterError>)
    ensures
        r matches Ok(o) && match row_item(row_view(row@)) {
            Some(it) => o matches Some(x) && x@ == it,
            None => o is None,
        },
{
    let tx_data = cell_text(row, 1);
    let tx_number = cell_text(row, 14);
    let tx_description = cell_text(row, 20);
    let debit = cell_text(row, 4);
    let (account, inn, name) = parse_counterparty(debit.as_str());
    let debit_account_number = or_empty_string(account);
    let debit_inn = or_empty_string(inn);
    let debit_account_name = or_empty_string(name);
    let debit_amount = cell_text(row, 9);
    let credit = cell_text(row, 8);
    let (account, inn, name) = parse_counterparty(credit.as_str());
    let credit_account_number = or_empty_string(account);
    let credit_inn = or_empty_string(inn);
    let credit_account_name = or_empty_string(name);
    let credit_amount = cell_text(row, 13);
    let bank = cell_text(row, 17);
    let mut bank_bik = String::new();
    let mut bank_name = String::new();
    if let Some((bik, b)) = parse_bik_and_bank(bank.as_str()) {
        bank_bik = bik;
        bank_name = b;
    }
    if tx_data.as_str().is_empty() || (debit_amount.as_str().is_empty()
        && credit_amount.as_str().is_empty()) {
        return Ok(None);
    }
    Ok(
        Some(
            ItemCsv {
                tx_data,
                tx_number,
                tx_description,
                debit_account_number,
                debit_inn,
                debit_account_name,
                debit_amount,
                credit_account_number,
                credit_inn,
                credit_account_name,
                credit_amount,
                bank_bik,
                bank_name,
            },
        ),
    )
}

/// The sentinel for data that a format does not carry.
pub open spec fn undefined_text() -> Seq<char> {
    "undefined"@
}

/// The entry of a row item: the credit amount if there is one, else the debit amount.
pub open spec fn entry_of_item(it: ItemCsvView) -> EntryView {
    EntryView {
        booking_date: it.tx_data,
        value_date: it.tx_data,
        amount: if it.credit_amount.len() == 0 {
            it.debit_amount
        } else {
            it.credit_amount
        },
        currency: "RUB"@,
        kind: if it.credit_amount.len() == 0 {
            DebitCredit::Debit
        } else {
            DebitCredit::Credit
        },
        description: it.tx_description,
        reference: Some(it.tx_number),
    }
}

/// The entries of the rows that are transactions, in row order.
pub open spec fn rows_entries(rows: Seq<Seq<Seq<char>>>) -> Seq<EntryView>
    decreases rows.len(),
{
    if rows.len() == 0 {
        Seq::empty()
    } else {
        match row_item(rows.last()) {
            Some(it) => rows_entries(rows.drop_last()).push(entry_of_item(it)),
            None => rows_entries(rows.drop_last()),
        }
    }
}

pub open spec fn csv_statement(rows: Seq<Seq<Seq<char>>>) -> StatementView {
    StatementView {
        id: undefined_text(),
        account_id: undefined_text(),
        opening_balance: None,
        entries: rows_entries(rows),
        closing_balance: None,
    }
}

/// The message of a malformed record, with its row number counted from 1.
pub open spec fn row_error(i: int, m: Seq<char>) -> Seq<char> {
    "row "@ + decimal((i + 1) as nat) + ": "@ + m
}

/// The statement that a bank-export CSV text holds, or the reason it holds none.
pub open spec fn csv_read(text: Seq<char>) -> Result<StatementView, Seq<char>> {
    match csv_records_of(text) {
        Ok(rows) => Ok(csv_statement(rows)),
        Err((i, m)) => Err(row_error(i, m)),
    }
}

fn entry_from_item(it: ItemCsv) -> (e: Entry)
    ensures
        e@ == entry_of_item(it@),
{
    let credit = !it.credit_amount.as_str().is_empty();
    Entry {
        booking_date: it.tx_data.clone(),
        value_date: it.tx_data,
        amount: if credit {
            it.credit_amount
        } else {
            it.debit_amount
        },
        currency: "RUB".to_owned(),
        kind: if credit {
            DebitCredit::Credit
        } else {
            DebitCredit::Debit
        },
        description: it.tx_description,
        reference: Some(it.tx_number),
    }
}

/// The statement of the records of a bank export.
pub fn statement_from_rows(rows: &Vec<Vec<String>>) -> (st: Statement)
    ensures
        st@ == csv_statement(rows_view(rows@)),
{
    let ghost rv = rows_view(rows@);
    let mut entries: Vec<Entry> = Vec::new();
    let mut i: usize = 0;
    assert(rv.subrange(0, 0) =~= Seq::<Seq<Seq<char>>>::empty());
    while i < rows.len()
        invariant
            i <= rows@.len(),
            rv == rows_view(rows@),
            entries_view(entries@) == rows_entries(rv.subrange(0, i as int)),
        decreases rows@.len() - i,
    {
        let ghost next = rv.subrange(0, i + 1);
        assert(next.drop_last() =~= rv.subrange(0, i as int));
        assert(next.last() == row_view(rows@[i as int]@));
        let ghost before = entries@;
        match parse_row(&rows[i]) {
            Ok(Some(item)) => {
                entries.push(entry_from_item(item));
                assert(entries_view(entries@) =~= entries_view(before).push(entries@.last()@));
            },
            _ => {},
        }
        i = i + 1;
    }
    assert(rv.subrange(0, rows@.len() as int) =~= rv);
    Statement {
        id: "undefined".to_owned(),
        account_id: "undefined".to_owned(),
        opening_balance: None,
        entries,
        closing_balance: None,
    }
}

/// The header row of the CSV output, naming the bank-export columns that
/// carry data.
pub open spec fn csv_header() -> Seq<Seq<char>> {
    let n = Seq::<char>::empty();
    seq![
        n,
        "posting_date"@,
        n,
        n,
        "account_debit"@,
        n,
        n,
        n,
        "account_credit"@,
        "debit_amount"@,
        n,
        n,
        n,
        "credit_amount"@,
        "doc_number"@,
        n,
        n,
        "bank_info"@,
        n,
        n,
        "purpose"@,
    ]
}

/// The CSV row of an entry, in the bank-export layout that the reader takes:
/// date in cell 1, the amount in the debit (9) or the credit (13) cell, the
/// other left blank, the reference in 14 (`none` if there is none), the
/// description in 20; every other cell is `undefined`.
pub open spec fn csv_row_of(e: EntryView) -> Seq<Seq<char>> {
    let u = undefined_text();
    let r = match e.reference {
        Some(t) => t,
        None => "none"@,
    };
    let credit = e.kind == DebitCredit::Credit;
    seq![
        u,
        e.booking_date,
        u,
        u,
        u,
        u,
        u,
        u,
        u,
        if credit { Seq::empty() } else { e.amount },
        u,
        u,
        u,
        if credit { e.amount } else { Seq::empty() },
        r,
        u,
        u,
        u,
        u,
        u,
        e.description,
    ]
}

pub open spec fn csv_entry_rows(es: Seq<EntryView>) -> Seq<Seq<Seq<char>>> {
    es.map_values(|e: EntryView| csv_row_of(e))
}

/// The records of a statement's CSV output: a header and one row per entry,
/// or nothing at all for a statement without entries.
pub open spec fn csv_rows(st: StatementView) -> Seq<Seq<Seq<char>>> {
    if st.entries.len() == 0 {
        Seq::empty()
    } else {
        seq![csv_header()] + csv_entry_rows(st.entries)
    }
}

fn header_row() -> (r: Vec<String>)
    ensures
        row_view(r@) == csv_header(),
{
    let mut r: Vec<String> = Vec::new();
    r.push(String::new());
    r.push("posting_date".to_owned());
    r.push(String::new());
    r.push(String::new());
    r.push("account_debit".to_owned());
    r.push(String::new());
    r.push(String::new());
    r.push(String::new());
    r.push("account_credit".to_owned());
    r.push("debit_amount".to_owned());
    r.push(String::new());
    r.push(String::new());
    r.push(String::new());
    r.push("credit_amount".to_owned());
    r.push("doc_number".to_owned());
    r.push(String::new());
    r.push(String::new());
    r.push("bank_info".to_owned());
    r.push(String::new());
    r.push(String::new());
    r.push("purpose".to_owned());
    assert(row_view(r@) =~= csv_header());
    r
}

/// The CSV row of an entry.
pub fn csv_record(e: &Entry) -> (r: Vec<String>)
    ensures
        row_view(r@) == csv_row_of(e@),
{
    let reference = match &e.reference {
        Some(t) => t.clone(),
        None => "none".to_owned(),
    };
    let credit = e.kind == DebitCredit::Credit;
    let mut r: Vec<String> = Vec::new();
    r.push("undefined".to_owned());
    r.push(e.booking_date.clone());
    r.push("undefined".to_owned());
    r.push("undefined".to_owned());
    r.push("undefined".to_owned());
    r.push("undefined".to_owned());
    r.push("undefined".to_owned());
    r.push("undefined".to_owned());
    r.push("undefined".to_owned());
    r.push(if credit { String::new() } else { e.amount.clone() });
    r.push("undefined".to_owned());
    r.push("undefined".to_owned());
    r.push("undefined".to_owned());
    r.push(if credit { e.amount.clone() } else { String::new() });
    r.push(reference);
    r.push("undefined".to_owned());
    r.push("undefined".to_owned());
    r.push("undefined".to_owned());
    r.push("undefined".to_owned());
    r.push("undefined".to_owned());
    r.push(e.description.clone());
    assert(row_view(r@) =~= csv_row_of(e@));
    r
}

/// The bank-export CSV adapter.
pub struct CSV;

impl CSV {
    /// The sentinel for data that a format does not carry.
    pub fn undefined() -> (r: String)
        ensures
            r@ == undefined_text(),
    {
        "undefined".to_owned()
    }
}

impl Adapter for CSV {
    /// The statement that a bank-export CSV text holds. Report lines are skipped.
    fn read_from(input: &str) -> (r: Result<Statement, AdapterError>)
        ensures
            match csv_read(input@) {
                Ok(st) => r matches Ok(x) && x@ == st,
                Err(m) => r matches Err(AdapterError::ParseError(x)) && x@ == m,
            },
    {
        match csv_records(input) {
            Ok(rows) => Ok(statement_from_rows(&rows)),
            Err((i, m)) => {
                let mut out: Vec<char> = Vec::new();
                push_str(&mut out, "row ");
                push_decimal(&mut out, i as u128 + 1);
                push_str(&mut out, ": ");
                push_str(&mut out, m.as_str());
                Err(AdapterError::ParseError(string_of(&out)))
            },
        }
    }

    /// The CSV text of a statement.
    fn write_to(st: &Statement) -> (r: Result<String, AdapterError>)
        ensures
            r matches Ok(t) && t@ == csv_text_of(csv_rows(st@)),
    {
        let mut rows: Vec<Vec<String>> = Vec::new();
        if st.entries.len() > 0 {
            rows.push(header_row());
            let mut i: usize = 0;
            while i < st.entries.len()
                invariant
                    i <= st.entries@.len(),
                    st.entries@.len() > 0,
                    rows_view(rows@) == seq![csv_header()] + csv_entry_rows(
                        st@.entries.subrange(0, i as int),
                    ),
                decreases st.entries@.len() - i,
            {
                let rec = csv_record(&st.entries[i]);
                let ghost before = rows@;
                let ghost old_want = seq![csv_header()] + csv_entry_rows(
                    st@.entries.subrange(0, i as int),
                );
                assert(st@.entries[i as int] == st.entries@[i as int]@);
                rows.push(rec);
                i = i + 1;
                let ghost want = seq![csv_header()] + csv_entry_rows(
                    st@.entries.subrange(0, i as int),
                );
                assert(rows_view(before).len() == old_want.len());
                assert forall|k: int| 0 <= k < rows@.len() implies #[trigger] rows_view(rows@)[k]
                    == want[k] by {
                    if k < before.len() {
                        assert(rows_view(before)[k] == old_want[k]);
                        assert(rows@[k] == before[k]);
                        if k > 0 {
                            assert(want[k] == csv_row_of(st@.entries[k - 1]));
                            assert(old_want[k] == csv_row_of(st@.entries[k - 1]));
                        }
                    }
                }
                assert(rows_view(rows@) =~= want);
            }
            assert(st@.entries.subrange(0, st.entries@.len() as int) =~= st@.entries);
        }
        assert(rows_view(rows@) =~= csv_rows(st@));
        assert forall|i: int| 0 <= i < rows@.len() implies (#[trigger] rows_view(rows@)[i]).len()
            == rows_view(rows@)[0].len() by {
            if i > 0 {
                assert(rows_view(rows@)[i] == csv_row_of(st@.entries[i - 1]));
            }
        }
        match csv_write(&rows) {
            Ok(t) => Ok(t),
            Err(m) => Err(AdapterError::WriteError(m)),
        }
    }
}

/// A bank-export row whose date cell is blank is a report line: it is
/// skipped, adds no entry and raises no error.
pub proof fn lemma_blank_date_row_skipped(rows: Seq<Seq<Seq<char>>>, row: Seq<Seq<char>>)
    requires
        cell(row, 1).len() == 0,
    ensures
        row_item(row) is None,
        rows_entries(rows.push(row)) == rows_entries(rows),
        csv_statement(rows.push(row)) == csv_statement(rows),
{
    assert(rows.push(row).drop_last() =~= rows);
}

/// An entry as the CSV reader yields it.
pub open spec fn csv_shaped_entry(e: EntryView) -> bool {
    &&& e.booking_date.len() > 0
    &&& is_trimmed(e.booking_date)
    &&& e.value_date == e.booking_date
    &&& e.amount.len() > 0
    &&& is_trimmed(e.amount)
    &&& e.currency == "RUB"@
    &&& e.reference is Some
    &&& is_trimmed(e.reference->0)
    &&& is_trimmed(e.description)
}

/// A statement as the CSV reader yields it.
pub open spec fn csv_shaped(st: StatementView) -> bool {
    &&& st.id == undefined_text()
    &&& st.account_id == undefined_text()
    &&& st.opening_balance is None
    &&& st.closing_balance is None
    &&& forall|i: int| 0 <= i < st.entries.len() ==> csv_shaped_entry(#[trigger] st.entries[i])
}

proof fn lemma_read_written_row(e: EntryView)
    requires
        csv_shaped_entry(e),
    ensures
        row_item(csv_row_of(e)) is Some,
        entry_of_item(row_item(csv_row_of(e))->0) == e,
{
    let row = csv_row_of(e);
    lemma_trim_of_trimmed(e.booking_date);
    lemma_trim_of_trimmed(e.amount);
    lemma_trim_of_trimmed(e.reference->0);
    lemma_trim_of_trimmed(e.description);
    lemma_trim_of_trimmed(Seq::<char>::empty());
    assert(cell(row, 1) == e.booking_date);
    assert(cell(row, 14) == e.reference->0);
    assert(cell(row, 20) == e.description);
    if e.kind == DebitCredit::Credit {
        assert(cell(row, 13) == e.amount);
        assert(cell(row, 9) == Seq::<char>::empty());
    } else {
        assert(cell(row, 9) == e.amount);
        assert(cell(row, 13) == Seq::<char>::empty());
    }
}

proof fn lemma_read_written_rows(es: Seq<EntryView>)
    requires
        forall|i: int| 0 <= i < es.len() ==> csv_shaped_entry(#[trigger] es[i]),
    ensures
        rows_entries(csv_entry_rows(es)) == es,
    decreases es.len(),
{
    if es.len() > 0 {
        let prev = es.drop_last();
        assert forall|i: int| 0 <= i < prev.len() implies csv_shaped_entry(#[trigger] prev[i]) by {
            assert(prev[i] == es[i]);
        }
        lemma_read_written_rows(prev);
        assert(csv_entry_rows(es).drop_last() =~= csv_entry_rows(prev));
        assert(csv_shaped_entry(es[es.len() - 1]));
        lemma_read_written_row(es.last());
        assert(prev.push(es.last()) =~= es);
    }
}

/// The data records that the CSV writer emits for a statement of the CSV
/// reader's shape (the header row, which the reader skips, aside) read back
/// as the same statement.
pub proof fn lemma_csv_round_trip(st: StatementView)
    requires
        csv_shaped(st),
    ensures
        csv_statement(csv_entry_rows(st.entries)) == st,
        st.entries.len() > 0 ==> csv_rows(st) == seq![csv_header()] + csv_entry_rows(st.entries),
{
    lemma_read_written_rows(st.entries);
}

/// Every statement that the CSV reader yields has the reader's shape, so
/// writing it and reading the records back gives it again.
pub proof fn lemma_csv_read_shaped(rows: Seq<Seq<Seq<char>>>)
    ensures
        csv_shaped(csv_statement(rows)),
        csv_statement(csv_entry_rows(csv_statement(rows).entries)) == csv_statement(rows),
    decreases rows.len(),
{
    if rows.len() > 0 {
        lemma_csv_read_shaped(rows.drop_last());
        let row = rows.last();
        lemma_trim_is_trimmed(cell_raw(row, 1));
        lemma_trim_is_trimmed(cell_raw(row, 9));
        lemma_trim_is_trimmed(cell_raw(row, 13));
        lemma_trim_is_trimmed(cell_raw(row, 14));
        lemma_trim_is_trimmed(cell_raw(row, 20));
        let prev = rows_entries(rows.drop_last());
        let all = rows_entries(rows);
        assert forall|i: int| 0 <= i < all.len() implies csv_shaped_entry(#[trigger] all[i]) by {
            if i < prev.len() {
                assert(all[i] == prev[i]);
                assert(csv_shaped_entry(csv_statement(rows.drop_last()).entries[i]));
            }
        }
    }
    lemma_csv_round_trip(csv_statement(rows));
}

/// A cell's text before trimming; empty where the row is too short.
pub open spec fn cell_raw(row: Seq<Seq<char>>, i: int) -> Seq<char> {
    if 0 <= i < row.len() {
        row[i]
    } else {
        Seq::empty()
    }
}

} // verus!
