use crate::adapter::adapter::Adapter;
use crate::adapter::errors::AdapterError;
use crate::adapter::statement::{
    entries_view, kind_of, Balance, BalanceView, DebitCredit, Entry, EntryView, Statement,
    StatementView,
};
use crate::text::{
    chars_of, has_prefix, lines_view, push_all, push_range, push_str, split_lines, string_of,
    strip_prefix,
    sub_chars, text_lines, trim, trim_chars,
};
use vstd::prelude::*;

verus! {

/// A balance field (`:60F:` or `:62F:`) as read.
pub struct Mt940Balance {
    pub credit: bool,
    pub date_yyymmdd: Vec<char>,
    pub currency: Vec<char>,
    pub amount: Vec<char>,
}

pub struct Mt940BalanceView {
    pub credit: bool,
    pub date: Seq<char>,
    pub currency: Seq<char>,
    pub amount: Seq<char>,
}

impl View for Mt940Balance {
    type V = Mt940BalanceView;

    open spec fn view(&self) -> Mt940BalanceView {
        Mt940BalanceView {
            credit: self.credit,
            date: self.date_yyymmdd@,
            currency: self.currency@,
            amount: self.amount@,
        }
    }
}

/// One `:61:` transaction, with the text of the `:86:` line that follows it.
pub struct Transaction {
    pub date_yyymmdd: Vec<char>,
    pub entry_mmdd: Vec<char>,
    pub is_credit: bool,
    pub amount: Vec<char>,
    pub type_code: Vec<char>,
    pub reference: Vec<char>,
    pub description: Vec<char>,
}

pub struct TransactionView {
    pub date: Seq<char>,
    pub entry_mmdd: Seq<char>,
    pub is_credit: bool,
    pub amount: Seq<char>,
    pub type_code: Seq<char>,
    pub reference: Seq<char>,
    pub description: Seq<char>,
}

impl View for Transaction {
    type V = TransactionView;

    open spec fn view(&self) -> TransactionView {
        TransactionView {
            date: self.date_yyymmdd@,
            entry_mmdd: self.entry_mmdd@,
            is_credit: self.is_credit,
            amount: self.amount@,
            type_code: self.type_code@,
            reference: self.reference@,
            description: self.description@,
        }
    }
}

pub open spec fn txs_view(v: Seq<Transaction>) -> Seq<TransactionView> {
    v.map_values(|t: Transaction| t@)
}

pub open spec fn mt_balance_opt_view(o: Option<Mt940Balance>) -> Option<Mt940BalanceView> {
    match o {
        Some(b) => Some(b@),
        None => None,
    }
}

/// A whole MT940 message as read.
pub struct Mt940Statement {
    pub reference: Vec<char>,
    pub account_id: Vec<char>,
    pub opening_balance: Mt940Balance,
    pub transactions: Vec<Transaction>,
    pub closing_balance: Mt940Balance,
}

pub struct Mt940StatementView {
    pub reference: Seq<char>,
    pub account_id: Seq<char>,
    pub opening: Mt940BalanceView,
    pub transactions: Seq<TransactionView>,
    pub closing: Mt940BalanceView,
}

impl View for Mt940Statement {
    type V = Mt940StatementView;

    open spec fn view(&self) -> Mt940StatementView {
        Mt940StatementView {
            reference: self.reference@,
            account_id: self.account_id@,
            opening: self.opening_balance@,
            transactions: txs_view(self.transactions@),
            closing: self.closing_balance@,
        }
    }
}

/// What the tag scanner has collected after some lines.
pub struct ScanState {
    pub reference: Seq<char>,
    pub account_id: Seq<char>,
    pub opening: Option<Mt940BalanceView>,
    pub closing: Option<Mt940BalanceView>,
    pub transactions: Seq<TransactionView>,
    /// The last `:61:` has not had its `:86:` line yet.
    pub needs_86: bool,
}

/// The tag scanner's state while it reads lines.
pub struct Mt940Scan {
    pub reference: Vec<char>,
    pub account_id: Vec<char>,
    pub opening: Option<Mt940Balance>,
    pub closing: Option<Mt940Balance>,
    pub transactions: Vec<Transaction>,
    pub needs_86: bool,
}

impl View for Mt940Scan {
    type V = ScanState;

    open spec fn view(&self) -> ScanState {
        ScanState {
            reference: self.reference@,
            account_id: self.account_id@,
            opening: mt_balance_opt_view(self.opening),
            closing: mt_balance_opt_view(self.closing),
            transactions: txs_view(self.transactions@),
            needs_86: self.needs_86,
        }
    }
}

/// An error message that quotes the offending fragment in backticks.
pub open spec fn quoted(prefix: Seq<char>, s: Seq<char>) -> Seq<char> {
    prefix + s + "`"@
}

/// A balance field: `<sign:1><date:6><currency:3><amount:rest>`, sign `C` or `D`.
pub open spec fn parse_balance_spec(s: Seq<char>) -> Result<Mt940BalanceView, Seq<char>> {
    if s.len() < 10 {
        Err(quoted("balance too short: `"@, s))
    } else if s[0] != 'C' && s[0] != 'D' {
        Err(quoted("unknown balance sign `"@, s.subrange(0, 1)))
    } else {
        Ok(
            Mt940BalanceView {
                credit: s[0] == 'C',
                date: s.subrange(1, 7),
                currency: s.subrange(7, 10),
                amount: s.subrange(10, s.len() as int),
            },
        )
    }
}

/// A character that an amount may hold: an ASCII digit, a comma or a dot.
pub open spec fn is_amount_char(c: char) -> bool {
    (48 <= c as u32 <= 57) || c == ',' || c == '.'
}

/// An ASCII letter.
pub open spec fn is_ascii_letter(c: char) -> bool {
    (65 <= c as u32 <= 90) || (97 <= c as u32 <= 122)
}

/// The end of the longest run of amount characters that starts at `i`.
pub open spec fn amount_end(s: Seq<char>, i: int) -> int
    decreases s.len() - i,
{
    if 0 <= i < s.len() && is_amount_char(s[i]) {
        amount_end(s, i + 1)
    } else {
        i
    }
}

/// The end of the longest run of ASCII letters that starts at `i`.
pub open spec fn letters_end(s: Seq<char>, i: int) -> int
    decreases s.len() - i,
{
    if 0 <= i < s.len() && is_ascii_letter(s[i]) {
        letters_end(s, i + 1)
    } else {
        i
    }
}

/// A `:61:` field: `<date:6><entry_mmdd:4><sign:1><amount><type code><reference>`.
pub open spec fn parse_tx_spec(s: Seq<char>) -> Result<TransactionView, Seq<char>> {
    if s.len() < 12 {
        Err(quoted(":61: too short: `"@, s))
    } else if s[10] != 'C' && s[10] != 'D' {
        Err(quoted(":61: bad sign `"@, s.subrange(10, 11)))
    } else if amount_end(s, 11) == 11 {
        Err(quoted(":61: amount missing in `"@, s))
    } else if letters_end(s, amount_end(s, 11)) == amount_end(s, 11) {
        Err(quoted(":61: type code missing in `"@, s))
    } else {
        let a = amount_end(s, 11);
        let t = letters_end(s, a);
        Ok(
            TransactionView {
                date: s.subrange(0, 6),
                entry_mmdd: s.subrange(6, 10),
                is_credit: s[10] == 'C',
                amount: s.subrange(11, a),
                type_code: s.subrange(a, t),
                reference: s.subrange(t, s.len() as int),
                description: Seq::empty(),
            },
        )
    }
}

pub proof fn lemma_amount_end(s: Seq<char>, i: int)
    requires
        0 <= i <= s.len(),
    ensures
        i <= amount_end(s, i) <= s.len(),
        forall|k: int| i <= k < amount_end(s, i) ==> is_amount_char(#[trigger] s[k]),
        amount_end(s, i) < s.len() ==> !is_amount_char(s[amount_end(s, i)]),
    decreases s.len() - i,
{
    if i < s.len() && is_amount_char(s[i]) {
        lemma_amount_end(s, i + 1);
    }
}

pub proof fn lemma_letters_end(s: Seq<char>, i: int)
    requires
        0 <= i <= s.len(),
    ensures
        i <= letters_end(s, i) <= s.len(),
        forall|k: int| i <= k < letters_end(s, i) ==> is_ascii_letter(#[trigger] s[k]),
        letters_end(s, i) < s.len() ==> !is_ascii_letter(s[letters_end(s, i)]),
    decreases s.len() - i,
{
    if i < s.len() && is_ascii_letter(s[i]) {
        lemma_letters_end(s, i + 1);
    }
}

pub open spec fn initial_scan() -> ScanState {
    ScanState {
        reference: Seq::empty(),
        account_id: Seq::empty(),
        opening: None,
        closing: None,
        transactions: Seq::empty(),
        needs_86: false,
    }
}

/// What follows the tag on a line, trimmed.
pub open spec fn tag_rest(line: Seq<char>, tag: Seq<char>) -> Seq<char> {
    trim(line.subrange(tag.len() as int, line.len() as int))
}

/// A description with more text joined to it by a space.
pub open spec fn join_description(d: Seq<char>, more: Seq<char>) -> Seq<char> {
    if d.len() == 0 {
        more
    } else {
        d + seq![' '] + more
    }
}

/// The transactions with `more` joined to the description of the last one.
pub open spec fn describe_last(txs: Seq<TransactionView>, more: Seq<char>) -> Seq<
    TransactionView,
> {
    if txs.len() == 0 {
        txs
    } else {
        let last = txs.last();
        txs.update(
            txs.len() - 1,
            TransactionView { description: join_description(last.description, more), ..last },
        )
    }
}

/// The scanner's step on one line.
pub open spec fn scan_step(st: ScanState, line: Seq<char>) -> Result<ScanState, Seq<char>> {
    if line.len() == 0 {
        Ok(st)
    } else if has_prefix(line, ":20:"@) {
        Ok(ScanState { reference: tag_rest(line, ":20:"@), ..st })
    } else if has_prefix(line, ":25:"@) {
        Ok(ScanState { account_id: tag_rest(line, ":25:"@), ..st })
    } else if has_prefix(line, ":60F:"@) {
        match parse_balance_spec(tag_rest(line, ":60F:"@)) {
            Ok(b) => Ok(ScanState { opening: Some(b), ..st }),
            Err(e) => Err(e),
        }
    } else if has_prefix(line, ":61:"@) {
        match parse_tx_spec(tag_rest(line, ":61:"@)) {
            Ok(t) => Ok(ScanState { transactions: st.transactions.push(t), needs_86: true, ..st }),
            Err(e) => Err(e),
        }
    } else if has_prefix(line, ":86:"@) {
        if st.needs_86 {
            Ok(
                ScanState {
                    transactions: describe_last(st.transactions, tag_rest(line, ":86:"@)),
                    needs_86: false,
                    ..st
                },
            )
        } else {
            Ok(st)
        }
    } else if has_prefix(line, ":62F:"@) {
        match parse_balance_spec(tag_rest(line, ":62F:"@)) {
            Ok(b) => Ok(ScanState { closing: Some(b), ..st }),
            Err(e) => Err(e),
        }
    } else {
        Ok(st)
    }
}

/// The scanner's state after the lines, or the first error.
pub open spec fn scan_lines(ls: Seq<Seq<char>>) -> Result<ScanState, Seq<char>>
    decreases ls.len(),
{
    if ls.len() == 0 {
        Ok(initial_scan())
    } else {
        match scan_lines(ls.drop_last()) {
            Ok(st) => scan_step(st, ls.last()),
            Err(e) => Err(e),
        }
    }
}

/// The required tags are checked once every line is read.
pub open spec fn finish_scan(st: ScanState) -> Result<Mt940StatementView, Seq<char>> {
    if st.opening is None {
        Err("missing :60F: opening balance"@)
    } else if st.closing is None {
        Err("missing :62F: closing balance"@)
    } else if st.reference.len() == 0 {
        Err("missing :20: reference"@)
    } else if st.account_id.len() == 0 {
        Err("missing :25: account id"@)
    } else {
        Ok(
            Mt940StatementView {
                reference: st.reference,
                account_id: st.account_id,
                opening: st.opening->0,
                transactions: st.transactions,
                closing: st.closing->0,
            },
        )
    }
}

/// The MT940 message that a text holds, or the reason it holds none.
pub open spec fn parse_mt940_spec(text: Seq<char>) -> Result<Mt940StatementView, Seq<char>> {
    match scan_lines(text_lines(text)) {
        Ok(st) => finish_scan(st),
        Err(e) => Err(e),
    }
}

proof fn lemma_scan_error_stays(ls: Seq<Seq<char>>, i: int)
    requires
        0 <= i <= ls.len(),
        scan_lines(ls.subrange(0, i)) is Err,
    ensures
        scan_lines(ls) == scan_lines(ls.subrange(0, i)),
    decreases ls.len() - i,
{
    if i < ls.len() {
        assert(ls.subrange(0, i + 1).drop_last() =~= ls.subrange(0, i));
        lemma_scan_error_stays(ls, i + 1);
    } else {
        assert(ls.subrange(0, i) =~= ls);
    }
}

fn quoted_error(prefix: &str, s: &[char]) -> (r: String)
    ensures
        r@ == quoted(prefix@, s@),
{
    let mut out: Vec<char> = Vec::new();
    push_str(&mut out, prefix);
    push_all(&mut out, s);
    push_str(&mut out, "`");
    string_of(&out)
}

fn message(m: &str) -> (r: String)
    ensures
        r@ == m@,
{
    let cs = chars_of(m);
    string_of(&cs)
}

/// Parses a balance field (`:60F:` or `:62F:` without the tag).
pub fn parse_balance_field(s: &[char]) -> (r: Result<Mt940Balance, String>)
    ensures
        match parse_balance_spec(s@) {
            Ok(b) => r matches Ok(x) && x@ == b,
            Err(e) => r matches Err(m) && m@ == e,
        },
{
    if s.len() < 1 + 6 + 3 {
        return Err(quoted_error("balance too short: `", s));
    }
    let credit = if s[0] == 'C' {
        true
    } else if s[0] == 'D' {
        false
    } else {
        let sign = sub_chars(s, 0, 1);
        return Err(quoted_error("unknown balance sign `", &sign));
    };
    Ok(
        Mt940Balance {
            credit,
            date_yyymmdd: sub_chars(s, 1, 1 + 6),
            currency: sub_chars(s, 1 + 6, 1 + 6 + 3),
            amount: sub_chars(s, 1 + 6 + 3, s.len()),
        },
    )
}

fn is_amount_char_exec(c: char) -> (r: bool)
    ensures
        r == is_amount_char(c),
{
    ('0' as u32 <= c as u32 && c as u32 <= '9' as u32) || c == ',' || c == '.'
}

fn is_ascii_letter_exec(c: char) -> (r: bool)
    ensures
        r == is_ascii_letter(c),
{
    let u = c as u32;
    (65 <= u && u <= 90) || (97 <= u && u <= 122)
}

/// Parses a `:61:` field (without the tag). The amount that it yields is a
/// non-empty run of digits, commas and dots.
pub fn parse_transaction_61(s: &[char]) -> (r: Result<Transaction, String>)
    ensures
        match parse_tx_spec(s@) {
            Ok(t) => r matches Ok(x) && x@ == t,
            Err(e) => r matches Err(m) && m@ == e,
        },
        r matches Ok(t) ==> t@.amount.len() > 0 && forall|k: int|
            0 <= k < t@.amount.len() ==> is_amount_char(#[trigger] t@.amount[k]),
{
    if s.len() < 6 + 4 + 1 + 1 {
        return Err(quoted_error(":61: too short: `", s));
    }
    let is_credit = if s[10] == 'C' {
        true
    } else if s[10] == 'D' {
        false
    } else {
        let sign = sub_chars(s, 10, 11);
        return Err(quoted_error(":61: bad sign `", &sign));
    };
    proof {
        lemma_amount_end(s@, 11);
    }
    let mut i: usize = 11;
    while i < s.len() && is_amount_char_exec(s[i])
        invariant
            11 <= i <= s@.len(),
            amount_end(s@, i as int) == amount_end(s@, 11),
        decreases s@.len() - i,
    {
        i = i + 1;
    }
    if i == 11 {
        return Err(quoted_error(":61: amount missing in `", s));
    }
    let start_code = i;
    proof {
        lemma_letters_end(s@, start_code as int);
    }
    while i < s.len() && is_ascii_letter_exec(s[i])
        invariant
            start_code <= i <= s@.len(),
            letters_end(s@, i as int) == letters_end(s@, start_code as int),
        decreases s@.len() - i,
    {
        i = i + 1;
    }
    if i == start_code {
        return Err(quoted_error(":61: type code missing in `", s));
    }
    let tx = Transaction {
        date_yyymmdd: sub_chars(s, 0, 6),
        entry_mmdd: sub_chars(s, 6, 10),
        is_credit,
        amount: sub_chars(s, 11, start_code),
        type_code: sub_chars(s, start_code, i),
        reference: sub_chars(s, i, s.len()),
        description: Vec::new(),
    };
    assert(tx@.amount.len() > 0 && forall|k: int|
        0 <= k < tx@.amount.len() ==> is_amount_char(#[trigger] tx@.amount[k])) by {
        assert forall|k: int| 0 <= k < tx@.amount.len() implies is_amount_char(
            #[trigger] tx@.amount[k],
        ) by {
            assert(tx@.amount[k] == s@[k + 11]);
        }
    }
    Ok(tx)
}

/// Joins `more` to the description `d`, with a space if `d` is not empty.
fn join_into(d: &mut Vec<char>, more: &[char])
    ensures
        final(d)@ == join_description(old(d)@, more@),
{
    if d.len() > 0 {
        d.push(' ');
    }
    push_all(d, more);
}

/// Every transaction date has six characters.
pub open spec fn dates_well_formed(txs: Seq<TransactionView>) -> bool {
    forall|k: int| 0 <= k < txs.len() ==> (#[trigger] txs[k]).date.len() == 6
}

/// Applies one line to the scanner.
pub fn scan_line(scan: &mut Mt940Scan, line: &[char]) -> (r: Result<(), String>)
    ensures
        match scan_step(old(scan)@, line@) {
            Ok(st) => r is Ok && final(scan)@ == st,
            Err(e) => r matches Err(m) && m@ == e,
        },
{
    if line.len() == 0 {
        return Ok(());
    }
    if let Some(rest) = strip_prefix(line, ":20:") {
        scan.reference = trim_chars(&rest);
        return Ok(());
    }
    if let Some(rest) = strip_prefix(line, ":25:") {
        scan.account_id = trim_chars(&rest);
        return Ok(());
    }
    if let Some(rest) = strip_prefix(line, ":60F:") {
        let field = trim_chars(&rest);
        let b = parse_balance_field(&field)?;
        scan.opening = Some(b);
        return Ok(());
    }
    if let Some(rest) = strip_prefix(line, ":61:") {
        let field = trim_chars(&rest);
        let tx = parse_transaction_61(&field)?;
        scan.transactions.push(tx);
        scan.needs_86 = true;
        assert(txs_view(scan.transactions@) =~= txs_view(old(scan).transactions@).push(tx@));
        return Ok(());
    }
    if let Some(rest) = strip_prefix(line, ":86:") {
        if scan.needs_86 {
            let more = trim_chars(&rest);
            let ghost before = txs_view(scan.transactions@);
            match scan.transactions.pop() {
                Some(mut last) => {
                    join_into(&mut last.description, &more);
                    scan.transactions.push(last);
                    assert(txs_view(scan.transactions@) =~= describe_last(before, more@));
                },
                None => {
                    assert(txs_view(scan.transactions@) =~= describe_last(before, more@));
                },
            }
            scan.needs_86 = false;
        }
        return Ok(());
    }
    if let Some(rest) = strip_prefix(line, ":62F:") {
        let field = trim_chars(&rest);
        let b = parse_balance_field(&field)?;
        scan.closing = Some(b);
        return Ok(());
    }
    Ok(())
}

proof fn lemma_scan_step_dates(st: ScanState, line: Seq<char>)
    requires
        dates_well_formed(st.transactions),
        scan_step(st, line) is Ok,
    ensures
        dates_well_formed(scan_step(st, line)->Ok_0.transactions),
{
    let next = scan_step(st, line)->Ok_0;
    if line.len() > 0 && !has_prefix(line, ":20:"@) && !has_prefix(line, ":25:"@) && !has_prefix(
        line,
        ":60F:"@,
    ) && has_prefix(line, ":61:"@) {
        let t = parse_tx_spec(tag_rest(line, ":61:"@))->Ok_0;
        assert(next.transactions == st.transactions.push(t));
        assert forall|k: int| 0 <= k < next.transactions.len() implies (
        #[trigger] next.transactions[k]).date.len() == 6 by {
            if k < st.transactions.len() {
                assert(next.transactions[k] == st.transactions[k]);
            }
        }
    }
}

/// Reads an MT940 message: one pass over the lines, then the required tags
/// are checked.
pub fn parse_mt940_min(input: &str) -> (r: Result<Mt940Statement, String>)
    ensures
        match parse_mt940_spec(input@) {
            Ok(m) => r matches Ok(x) && x@ == m && dates_well_formed(m.transactions),
            Err(e) => r matches Err(msg) && msg@ == e,
        },
{
    let chars = chars_of(input);
    let lines = split_lines(&chars);
    let ghost ls = lines_view(lines@);
    let mut scan = Mt940Scan {
        reference: Vec::new(),
        account_id: Vec::new(),
        opening: None,
        closing: None,
        transactions: Vec::new(),
        needs_86: false,
    };
    assert(scan@ == initial_scan()) by {
        assert(txs_view(scan.transactions@) =~= Seq::<TransactionView>::empty());
    }
    assert(ls.subrange(0, 0) =~= Seq::<Seq<char>>::empty());
    let mut i: usize = 0;
    while i < lines.len()
        invariant
            i <= lines@.len(),
            ls == lines_view(lines@),
            ls == text_lines(input@),
            scan_lines(ls.subrange(0, i as int)) == Ok::<ScanState, Seq<char>>(scan@),
            dates_well_formed(scan@.transactions),
        decreases lines@.len() - i,
    {
        let ghost before = scan@;
        assert(ls.subrange(0, i + 1).drop_last() =~= ls.subrange(0, i as int));
        assert(lines@[i as int]@ == ls[i as int]);
        let step = scan_line(&mut scan, &lines[i]);
        match step {
            Ok(()) => {
                proof {
                    lemma_scan_step_dates(before, ls[i as int]);
                }
            },
            Err(m) => {
                proof {
                    lemma_scan_error_stays(ls, i + 1);
                }
                return Err(m);
            },
        }
        i = i + 1;
    }
    assert(ls.subrange(0, lines@.len() as int) =~= ls);
    let Mt940Scan { reference, account_id, opening, closing, transactions, needs_86: _ } = scan;
    let opening_balance = match opening {
        Some(b) => b,
        None => {
            return Err(message("missing :60F: opening balance"));
        },
    };
    let closing_balance = match closing {
        Some(b) => b,
        None => {
            return Err(message("missing :62F: closing balance"));
        },
    };
    if reference.len() == 0 {
        return Err(message("missing :20: reference"));
    }
    if account_id.len() == 0 {
        return Err(message("missing :25: account id"));
    }
    Ok(Mt940Statement { reference, account_id, opening_balance, transactions, closing_balance })
}

/// The booking date: the year of the value date and the entry's month and day.
pub open spec fn booking_date_spec(value_date: Seq<char>, entry_mmdd: Seq<char>) -> Seq<char> {
    value_date.subrange(0, 2) + entry_mmdd
}

/// The statement entry of a transaction, in the statement's currency.
pub open spec fn entry_of(tx: TransactionView, currency: Seq<char>) -> EntryView {
    EntryView {
        booking_date: booking_date_spec(tx.date, tx.entry_mmdd),
        value_date: tx.date,
        amount: tx.amount,
        currency: currency,
        kind: kind_of(tx.is_credit),
        description: tx.description,
        reference: Some(tx.reference),
    }
}

pub open spec fn balance_of(b: Mt940BalanceView) -> BalanceView {
    BalanceView {
        kind: kind_of(b.credit),
        date_yyymmdd: b.date,
        currency: b.currency,
        amount: b.amount,
    }
}

pub open spec fn entries_of(txs: Seq<TransactionView>, currency: Seq<char>) -> Seq<EntryView> {
    txs.map_values(|t: TransactionView| entry_of(t, currency))
}

/// The statement of an MT940 message; entries take the opening balance's currency.
pub open spec fn statement_of(m: Mt940StatementView) -> StatementView {
    StatementView {
        id: m.reference,
        account_id: m.account_id,
        opening_balance: Some(balance_of(m.opening)),
        entries: entries_of(m.transactions, m.opening.currency),
        closing_balance: Some(balance_of(m.closing)),
    }
}

/// The statement that an MT940 text holds, or the reason it holds none.
pub open spec fn mt940_read(text: Seq<char>) -> Result<StatementView, Seq<char>> {
    match parse_mt940_spec(text) {
        Ok(m) => Ok(statement_of(m)),
        Err(e) => Err(e),
    }
}

/// The year of the value date (its first two characters) and the entry's month and day.
pub fn compose_booking_date(value_date_yymmdd: &[char], entry_mmdd: &[char]) -> (r: Vec<char>)
    requires
        value_date_yymmdd@.len() >= 2,
    ensures
        r@ == booking_date_spec(value_date_yymmdd@, entry_mmdd@),
{
    let mut r = sub_chars(value_date_yymmdd, 0, 2);
    push_all(&mut r, entry_mmdd);
    r
}

fn entry_from_transaction(tx: &Transaction, currency: &[char]) -> (e: Entry)
    requires
        tx@.date.len() >= 2,
    ensures
        e@ == entry_of(tx@, currency@),
{
    let booking = compose_booking_date(&tx.date_yyymmdd, &tx.entry_mmdd);
    Entry {
        booking_date: string_of(&booking),
        value_date: string_of(&tx.date_yyymmdd),
        amount: string_of(&tx.amount),
        currency: string_of(currency),
        kind: DebitCredit::from(tx.is_credit),
        description: string_of(&tx.description),
        reference: Some(string_of(&tx.reference)),
    }
}

fn balance_from_mt940(b: &Mt940Balance) -> (r: Balance)
    ensures
        r@ == balance_of(b@),
{
    Balance {
        kind: DebitCredit::from(b.credit),
        date_yyymmdd: string_of(&b.date_yyymmdd),
        currency: string_of(&b.currency),
        amount: string_of(&b.amount),
    }
}

/// The statement of an MT940 message.
pub fn statement_from_mt940(m: &Mt940Statement) -> (st: Statement)
    requires
        dates_well_formed(m@.transactions),
    ensures
        st@ == statement_of(m@),
{
    let mut entries: Vec<Entry> = Vec::new();
    let mut i: usize = 0;
    while i < m.transactions.len()
        invariant
            i <= m.transactions@.len(),
            dates_well_formed(m@.transactions),
            entries_view(entries@) == entries_of(m@.transactions, m@.opening.currency).subrange(
                0,
                i as int,
            ),
        decreases m.transactions@.len() - i,
    {
        assert(m@.transactions[i as int] == m.transactions@[i as int]@);
        let ghost before = entries@;
        assert(entries_view(before).len() == i);
        assert(before.len() == i);
        let e = entry_from_transaction(&m.transactions[i], &m.opening_balance.currency);
        entries.push(e);
        i = i + 1;
        let ghost all = entries_of(m@.transactions, m@.opening.currency);
        assert(all.len() == m.transactions@.len());
        let ghost want = all.subrange(0, i as int);
        assert(entries@.len() == i);
        assert(want.len() == i);
        assert forall|k: int| 0 <= k < i implies #[trigger] entries_view(entries@)[k] == want[k] by {
            if k < i - 1 {
                assert(entries_view(before)[k] == want[k]);
                assert(entries@[k] == before[k]);
            }
        }
        assert(entries_view(entries@) =~= want);
    }
    assert(entries_of(m@.transactions, m@.opening.currency).subrange(
        0,
        m.transactions@.len() as int,
    ) =~= entries_of(m@.transactions, m@.opening.currency));
    Statement {
        id: string_of(&m.reference),
        account_id: string_of(&m.account_id),
        opening_balance: Some(balance_from_mt940(&m.opening_balance)),
        entries,
        closing_balance: Some(balance_from_mt940(&m.closing_balance)),
    }
}

/// The sign letter of a kind: `C` for credit, `D` for debit.
pub open spec fn sign_text(k: DebitCredit) -> Seq<char> {
    if k == DebitCredit::Credit {
        seq!['C']
    } else {
        seq!['D']
    }
}

/// A date in the six-character form: an eight-character date loses its century.
pub open spec fn short_date(d: Seq<char>) -> Seq<char> {
    if d.len() == 8 {
        d.subrange(2, 8)
    } else {
        d
    }
}

/// The amount with a comma wherever it had a decimal point.
pub open spec fn comma_decimal(a: Seq<char>) -> Seq<char> {
    a.map_values(|c: char| if c == '.' { ',' } else { c })
}

/// The position of the first comma at or after `i`, or the length if there is none.
pub open spec fn comma_index(a: Seq<char>, i: int) -> int
    decreases a.len() - i,
{
    if 0 <= i < a.len() && a[i] != ',' {
        comma_index(a, i + 1)
    } else {
        i
    }
}

/// The amount with two digits after its decimal comma: an amount without one
/// gets `,00`, a shorter fraction is padded with zeros. (An amount with a longer
/// fraction is not written at all: see `amount_writable`.)
pub open spec fn two_decimals(a: Seq<char>) -> Seq<char> {
    let p = comma_index(a, 0);
    if p >= a.len() {
        a + seq![',', '0', '0']
    } else if a.len() - p - 1 == 0 {
        a + seq!['0', '0']
    } else if a.len() - p - 1 == 1 {
        a + seq!['0']
    } else {
        a
    }
}

/// An amount can be written with two decimals without dropping digits: after
/// its first decimal separator it has at most two characters.
pub open spec fn amount_writable(a: Seq<char>) -> bool {
    let c = comma_decimal(a);
    comma_index(c, 0) >= c.len() || c.len() - comma_index(c, 0) - 1 <= 2
}

/// Every balance of the statement has a writable amount.
pub open spec fn mt940_writable(st: StatementView) -> bool {
    &&& st.opening_balance is Some ==> amount_writable(st.opening_balance->0.amount)
    &&& st.closing_balance is Some ==> amount_writable(st.closing_balance->0.amount)
}

/// The text of a balance field: sign, short date, currency and amount.
pub open spec fn balance_text(b: BalanceView) -> Seq<char> {
    sign_text(b.kind) + short_date(b.date_yyymmdd) + b.currency + two_decimals(
        comma_decimal(b.amount),
    )
}

/// One line of output.
pub open spec fn line_text(tag: Seq<char>, body: Seq<char>) -> Seq<char> {
    tag + body + seq!['\n']
}

/// The month and day of a booking date: its last four characters.
pub open spec fn mmdd_of(d: Seq<char>) -> Seq<char> {
    if d.len() >= 4 {
        d.subrange(d.len() - 4, d.len() as int)
    } else {
        d
    }
}

/// The transaction code written for every entry.
pub open spec fn type_code_text() -> Seq<char> {
    "NTRF"@
}

pub open spec fn reference_text(r: Option<Seq<char>>) -> Seq<char> {
    match r {
        Some(t) => t,
        None => Seq::empty(),
    }
}

/// The body of an entry's `:61:` line.
pub open spec fn tx_text(e: EntryView) -> Seq<char> {
    e.value_date + mmdd_of(e.booking_date) + sign_text(e.kind) + e.amount + type_code_text()
        + reference_text(e.reference)
}

/// The `:61:` and `:86:` lines of an entry.
pub open spec fn entry_lines(e: EntryView) -> Seq<char> {
    line_text(":61:"@, tx_text(e)) + line_text(":86:"@, e.description)
}

pub open spec fn entries_text(es: Seq<EntryView>) -> Seq<char>
    decreases es.len(),
{
    if es.len() == 0 {
        Seq::empty()
    } else {
        entries_text(es.drop_last()) + entry_lines(es.last())
    }
}

pub open spec fn balance_line(tag: Seq<char>, b: Option<BalanceView>) -> Seq<char> {
    match b {
        Some(x) => line_text(tag, balance_text(x)),
        None => Seq::empty(),
    }
}

/// The MT940 text of a statement: the tags in fixed order.
pub open spec fn mt940_write(st: StatementView) -> Seq<char> {
    line_text(":20:"@, st.id) + line_text(":25:"@, st.account_id) + balance_line(
        ":60F:"@,
        st.opening_balance,
    ) + entries_text(st.entries) + balance_line(":62F:"@, st.closing_balance)
}

fn push_sign(out: &mut Vec<char>, k: DebitCredit)
    ensures
        final(out)@ == old(out)@ + sign_text(k),
{
    match k {
        DebitCredit::Credit => out.push('C'),
        DebitCredit::Debit => out.push('D'),
    }
}

fn push_amount(out: &mut Vec<char>, a: &[char]) -> (ok: bool)
    ensures
        ok == amount_writable(a@),
        ok ==> final(out)@ == old(out)@ + two_decimals(comma_decimal(a@)),
{
    let mut c: Vec<char> = Vec::new();
    let mut i: usize = 0;
    while i < a.len()
        invariant
            i <= a@.len(),
            c@ == comma_decimal(a@).subrange(0, i as int),
        decreases a@.len() - i,
    {
        if a[i] == '.' {
            c.push(',');
        } else {
            c.push(a[i]);
        }
        i = i + 1;
        assert(c@ =~= comma_decimal(a@).subrange(0, i as int));
    }
    assert(c@ =~= comma_decimal(a@));
    let ghost ca = c@;
    let mut p: usize = 0;
    while p < c.len() && c[p] != ','
        invariant
            p <= c@.len(),
            c@ == ca,
            comma_index(ca, p as int) == comma_index(ca, 0),
        decreases c@.len() - p,
    {
        p = p + 1;
    }
    let n = c.len();
    if p < n && n - p - 1 > 2 {
        return false;
    }
    if p >= n {
        c.push(',');
        c.push('0');
        c.push('0');
    } else if n - p - 1 == 0 {
        c.push('0');
        c.push('0');
    } else if n - p - 1 == 1 {
        c.push('0');
    }
    assert(c@ =~= two_decimals(ca));
    push_all(out, &c);
    true
}

/// The text of a balance field, if its amount can be written with two decimals.
pub fn balance_to_str(balance: &Balance) -> (r: Option<String>)
    ensures
        r is Some <==> amount_writable(balance@.amount),
        r matches Some(t) ==> t@ == balance_text(balance@),
{
    let mut out: Vec<char> = Vec::new();
    if push_balance(&mut out, balance) {
        Some(string_of(&out))
    } else {
        None
    }
}

fn push_balance(out: &mut Vec<char>, balance: &Balance) -> (ok: bool)
    ensures
        ok == amount_writable(balance@.amount),
        ok ==> final(out)@ == old(out)@ + balance_text(balance@),
{
    let ghost start = out@;
    push_sign(out, balance.kind);
    let date = chars_of(balance.date_yyymmdd.as_str());
    if date.len() == 8 {
        push_range(out, &date, 2, 8);
    } else {
        push_all(out, &date);
    }
    push_str(out, balance.currency.as_str());
    let amount = chars_of(balance.amount.as_str());
    if !push_amount(out, &amount) {
        return false;
    }
    assert(out@ =~= start + balance_text(balance@));
    true
}

/// The error for a balance amount that two decimals cannot hold.
fn amount_error(b: &Balance) -> (e: AdapterError)
    ensures
        e is WriteError,
{
    let mut out: Vec<char> = Vec::new();
    push_str(&mut out, "balance amount has more than two decimals: `");
    push_str(&mut out, b.amount.as_str());
    push_str(&mut out, "`");
    AdapterError::WriteError(string_of(&out))
}

fn push_line_end(out: &mut Vec<char>)
    ensures
        final(out)@ == old(out)@ + seq!['\n'],
{
    out.push('\n');
}

fn push_entry(out: &mut Vec<char>, e: &Entry)
    ensures
        final(out)@ == old(out)@ + entry_lines(e@),
{
    let ghost start = out@;
    push_str(out, ":61:");
    push_str(out, e.value_date.as_str());
    let booking = chars_of(e.booking_date.as_str());
    if booking.len() >= 4 {
        push_range(out, &booking, booking.len() - 4, booking.len());
    } else {
        push_all(out, &booking);
    }
    push_sign(out, e.kind);
    push_str(out, e.amount.as_str());
    push_str(out, "NTRF");
    match &e.reference {
        Some(r) => push_str(out, r.as_str()),
        None => {},
    }
    push_line_end(out);
    push_str(out, ":86:");
    push_str(out, e.description.as_str());
    push_line_end(out);
    assert(out@ =~= start + entry_lines(e@));
}

/// The MT940 adapter.
pub struct FormatMt940;

impl Adapter for FormatMt940 {
    /// The statement that an MT940 text holds.
    fn read_from(input: &str) -> (r: Result<Statement, AdapterError>)
        ensures
            match mt940_read(input@) {
                Ok(st) => r matches Ok(x) && x@ == st,
                Err(e) => r matches Err(AdapterError::ParseError(m)) && m@ == e,
            },
    {
        match parse_mt940_min(input) {
            Ok(m) => Ok(statement_from_mt940(&m)),
            Err(e) => Err(AdapterError::ParseError(e)),
        }
    }

    /// The MT940 text of a statement; a balance amount with more than two
    /// decimals is a write error, since writing it would drop digits.
    fn write_to(st: &Statement) -> (r: Result<String, AdapterError>)
        ensures
            mt940_writable(st@) ==> (r matches Ok(text) && text@ == mt940_write(st@)),
            !mt940_writable(st@) ==> (r matches Err(e) && e is WriteError),
    {
        let mut out: Vec<char> = Vec::new();
        push_str(&mut out, ":20:");
        push_str(&mut out, st.id.as_str());
        push_line_end(&mut out);
        push_str(&mut out, ":25:");
        push_str(&mut out, st.account_id.as_str());
        push_line_end(&mut out);
        let ghost head = out@;
        assert(head =~= line_text(":20:"@, st@.id) + line_text(":25:"@, st@.account_id));
        if let Some(b) = &st.opening_balance {
            push_str(&mut out, ":60F:");
            if !push_balance(&mut out, b) {
                return Err(amount_error(b));
            }
            push_line_end(&mut out);
        }
        assert(out@ =~= head + balance_line(":60F:"@, st@.opening_balance));
        let ghost before_entries = out@;
        let mut i: usize = 0;
        while i < st.entries.len()
            invariant
                i <= st.entries@.len(),
                out@ == before_entries + entries_text(st@.entries.subrange(0, i as int)),
            decreases st.entries@.len() - i,
        {
            push_entry(&mut out, &st.entries[i]);
            i = i + 1;
            assert(st@.entries.subrange(0, i as int).drop_last() =~= st@.entries.subrange(
                0,
                i - 1,
            ));
            assert(out@ =~= before_entries + entries_text(st@.entries.subrange(0, i as int)));
        }
        assert(st@.entries.subrange(0, st.entries@.len() as int) =~= st@.entries);
        let ghost after_entries = out@;
        if let Some(b) = &st.closing_balance {
            push_str(&mut out, ":62F:");
            if !push_balance(&mut out, b) {
                return Err(amount_error(b));
            }
            push_line_end(&mut out);
        }
        assert(out@ =~= after_entries + balance_line(":62F:"@, st@.closing_balance));
        assert(out@ =~= mt940_write(st@));
        Ok(string_of(&out))
    }
}

} // verus!
