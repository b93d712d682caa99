use crate::adapter::adapter::Adapter;
use crate::adapter::errors::AdapterError;
use crate::adapter::statement::{
    balance_opt_view, entries_view, Balance, BalanceView, DebitCredit, Entry, EntryView, Statement,
    StatementView,
};
use crate::text::{chars_eq, chars_of};
use quick_xml::events::{BytesDecl, BytesEnd, BytesStart, BytesText, Event};
use vstd::prelude::*;

verus! {

#[verifier::external_type_specification]
#[verifier::external_body]
pub struct ExBytesStart<'a>(quick_xml::events::BytesStart<'a>);

/// One event of an XML document, as the camt.053 reader sees it.
pub enum XmlEvent {
    /// A start tag: its local name, and its attributes as (key, raw value).
    Start { name: String, attrs: Vec<(String, String)> },
    /// Text content, still escaped, with surrounding whitespace trimmed.
    Text { raw: String },
    /// An end tag: its local name.
    End { name: String },
}

pub open spec fn attrs_view(a: Seq<(String, String)>) -> Seq<(Seq<char>, Seq<char>)> {
    a.map_values(|p: (String, String)| (p.0@, p.1@))
}

impl View for XmlEvent {
    /// Kind (0 start, 1 text, 2 end), name or raw text, attributes.
    type V = (int, Seq<char>, Seq<(Seq<char>, Seq<char>)>);

    open spec fn view(&self) -> (int, Seq<char>, Seq<(Seq<char>, Seq<char>)>) {
        match self {
            XmlEvent::Start { name, attrs } => (0, name@, attrs_view(attrs@)),
            XmlEvent::Text { raw } => (1, raw@, Seq::empty()),
            XmlEvent::End { name } => (2, name@, Seq::empty()),
        }
    }
}

pub open spec fn events_view(v: Seq<XmlEvent>) -> Seq<(int, Seq<char>, Seq<(Seq<char>, Seq<char>)>)> {
    v.map_values(|e: XmlEvent| e@)
}

/// The start tags, texts and end tags that quick-xml reads from a document
/// (text trimmed), or the message of the error that stops it.
pub uninterp spec fn xml_events_of(doc: Seq<char>) -> Result<
    Seq<(int, Seq<char>, Seq<(Seq<char>, Seq<char>)>)>,
    Seq<char>,
>;

/// Relies on `BytesStart::local_name` and `BytesStart::attributes`: the tag's
/// local name and its well-formed attributes.
#[verifier::external_body]
fn start_event(e: &BytesStart) -> (r: XmlEvent)
    ensures
        r is Start,
{
    let name = String::from_utf8_lossy(e.local_name().as_ref()).into_owned();
    let attrs = e.attributes().flatten().map(
        |a| (String::from_utf8_lossy(a.key.as_ref()).into_owned(), String::from_utf8_lossy(&a.value).into_owned()),
    ).collect();
    XmlEvent::Start { name, attrs }
}

/// Relies on `quick_xml::Reader::read_event` over the text, with text trimming:
/// the document's events up to its end, or its first error.
#[verifier::external_body]
fn xml_events(doc: &str) -> (r: Result<Vec<XmlEvent>, String>)
    ensures
        match xml_events_of(doc@) {
            Ok(evs) => r matches Ok(v) && events_view(v@) == evs,
            Err(m) => r matches Err(x) && x@ == m,
        },
{
    let mut reader = quick_xml::Reader::from_str(doc);
    reader.config_mut().trim_text(true);
    let mut out = Vec::new();
    loop {
        match reader.read_event().map_err(|e| e.to_string())? {
            Event::Start(e) => out.push(start_event(&e)),
            Event::Text(t) => out.push(XmlEvent::Text { raw: String::from_utf8_lossy(&t).into_owned() }),
            Event::End(e) => out.push(XmlEvent::End { name: String::from_utf8_lossy(e.local_name().as_ref()).into_owned() }),
            Event::Eof => return Ok(out),
            _ => {},
        }
    }
}

/// The text that escaped XML character data stands for, or the error message.
pub uninterp spec fn xml_unescaped_of(raw: Seq<char>) -> Result<Seq<char>, Seq<char>>;

/// Relies on `quick_xml::escape::unescape`: entity and character references resolved.
#[verifier::external_body]
fn xml_unescape(raw: &str) -> (r: Result<String, String>)
    ensures
        match xml_unescaped_of(raw@) {
            Ok(t) => r matches Ok(x) && x@ == t,
            Err(m) => r matches Err(x) && x@ == m,
        },
{
    quick_xml::escape::unescape(raw).map(|t| t.into_owned()).map_err(|e| e.to_string())
}

/// The text of escaped character data.
pub fn read_text(raw: &str) -> (r: Result<String, AdapterError>)
    ensures
        match xml_unescaped_of(raw@) {
            Ok(t) => r matches Ok(x) && x@ == t,
            Err(m) => r matches Err(AdapterError::ParseError(x)) && x@ == m,
        },
{
    match xml_unescape(raw) {
        Ok(t) => Ok(t),
        Err(m) => Err(AdapterError::ParseError(m)),
    }
}

/// The value of the first attribute whose key is `key`.
pub open spec fn attr_lookup(attrs: Seq<(Seq<char>, Seq<char>)>, key: Seq<char>) -> Option<
    Seq<char>,
>
    decreases attrs.len(),
{
    if attrs.len() == 0 {
        None
    } else if attrs[0].0 == key {
        Some(attrs[0].1)
    } else {
        attr_lookup(attrs.drop_first(), key)
    }
}

/// The value of the first attribute named `key`.
pub fn attr_value(attrs: &Vec<(String, String)>, key: &str) -> (r: Option<String>)
    ensures
        match attr_lookup(attrs_view(attrs@), key@) {
            Some(v) => r matches Some(x) && x@ == v,
            None => r is None,
        },
{
    let ghost av = attrs_view(attrs@);
    assert(av.subrange(0, av.len() as int) =~= av);
    let mut i: usize = 0;
    while i < attrs.len()
        invariant
            i <= attrs@.len(),
            av == attrs_view(attrs@),
            attr_lookup(av, key@) == attr_lookup(av.subrange(i as int, av.len() as int), key@),
        decreases attrs@.len() - i,
    {
        let ghost rest = av.subrange(i as int, av.len() as int);
        assert(rest[0] == (attrs@[i as int].0@, attrs@[i as int].1@));
        let k = chars_of(attrs[i].0.as_str());
        if chars_eq(&k, key) {
            return Some(attrs[i].1.clone());
        }
        assert(rest.drop_first() =~= av.subrange(i + 1, av.len() as int));
        i = i + 1;
    }
    assert(av.subrange(i as int, av.len() as int).len() == 0);
    None
}

/// What the camt.053 reader knows at one point of the document.
pub struct CursorView {
    pub in_iban: bool,
    pub in_stmt_id: bool,
    pub depth: u64,
    pub stmt_level: Option<u64>,
    pub in_amt: bool,
    pub amt_ccy: Seq<char>,
    pub in_cdt_dbt: bool,
    pub in_book_dt: bool,
    pub in_val_dt: bool,
    pub in_addtl: bool,
    pub in_ntry_ref: bool,
    pub pending: Option<EntryView>,
    pub in_bal: bool,
    pub in_cd: bool,
    pub in_dt: bool,
    pub bal_code: Seq<char>,
    pub bal_amount: Seq<char>,
    pub bal_ccy: Seq<char>,
    pub bal_date: Seq<char>,
    pub id: Seq<char>,
    pub account_id: Seq<char>,
    pub opening: Option<BalanceView>,
    pub closing: Option<BalanceView>,
    pub entries: Seq<EntryView>,
}

/// The camt.053 reader's state: which element it is inside, the entry and the
/// balance being assembled, and what it has read so far.
pub struct CamtCursor {
    pub in_iban: bool,
    pub in_stmt_id: bool,
    /// How many elements are open.
    pub depth: u64,
    /// The depth of the open `<Stmt>` element, if any.
    pub stmt_level: Option<u64>,
    pub in_amt: bool,
    pub amt_ccy: String,
    pub in_cdt_dbt: bool,
    pub in_book_dt: bool,
    pub in_val_dt: bool,
    pub in_addtl: bool,
    pub in_ntry_ref: bool,
    pub pending: Option<Entry>,
    pub in_bal: bool,
    pub in_cd: bool,
    pub in_dt: bool,
    pub bal_code: String,
    pub bal_amount: String,
    pub bal_ccy: String,
    pub bal_date: String,
    pub id: String,
    pub account_id: String,
    pub opening: Option<Balance>,
    pub closing: Option<Balance>,
    pub entries: Vec<Entry>,
}

pub open spec fn entry_opt_view(o: Option<Entry>) -> Option<EntryView> {
    match o {
        Some(e) => Some(e@),
        None => None,
    }
}

impl View for CamtCursor {
    type V = CursorView;

    open spec fn view(&self) -> CursorView {
        CursorView {
            in_iban: self.in_iban,
            in_stmt_id: self.in_stmt_id,
            depth: self.depth,
            stmt_level: self.stmt_level,
            in_amt: self.in_amt,
            amt_ccy: self.amt_ccy@,
            in_cdt_dbt: self.in_cdt_dbt,
            in_book_dt: self.in_book_dt,
            in_val_dt: self.in_val_dt,
            in_addtl: self.in_addtl,
            in_ntry_ref: self.in_ntry_ref,
            pending: entry_opt_view(self.pending),
            in_bal: self.in_bal,
            in_cd: self.in_cd,
            in_dt: self.in_dt,
            bal_code: self.bal_code@,
            bal_amount: self.bal_amount@,
            bal_ccy: self.bal_ccy@,
            bal_date: self.bal_date@,
            id: self.id@,
            account_id: self.account_id@,
            opening: balance_opt_view(self.opening),
            closing: balance_opt_view(self.closing),
            entries: entries_view(self.entries@),
        }
    }
}

pub open spec fn initial_cursor() -> CursorView {
    CursorView {
        in_iban: false,
        in_stmt_id: false,
        depth: 0,
        stmt_level: None,
        in_amt: false,
        amt_ccy: Seq::empty(),
        in_cdt_dbt: false,
        in_book_dt: false,
        in_val_dt: false,
        in_addtl: false,
        in_ntry_ref: false,
        pending: None,
        in_bal: false,
        in_cd: false,
        in_dt: false,
        bal_code: Seq::empty(),
        bal_amount: Seq::empty(),
        bal_ccy: Seq::empty(),
        bal_date: Seq::empty(),
        id: Seq::empty(),
        account_id: Seq::empty(),
        opening: None,
        closing: None,
        entries: Seq::empty(),
    }
}

/// The currency marker of an entry or balance whose source names none.
pub open spec fn unknown_currency() -> Seq<char> {
    "XXX"@
}

/// A new entry: unknown currency, credit, everything else empty.
pub open spec fn new_entry_view() -> EntryView {
    EntryView {
        booking_date: Seq::empty(),
        value_date: Seq::empty(),
        amount: Seq::empty(),
        currency: unknown_currency(),
        kind: DebitCredit::Credit,
        description: Seq::empty(),
        reference: None,
    }
}

/// The cursor entering an element: one level deeper. A `<Stmt>` records its
/// level; an `<Id>` directly inside the open `<Stmt>` is the statement's own id.
pub open spec fn enter(c: CursorView, name: Seq<char>) -> CursorView {
    let d = if c.depth < u64::MAX {
        (c.depth + 1) as u64
    } else {
        c.depth
    };
    CursorView {
        in_stmt_id: if name == "Id"@ && c.stmt_level == Some(c.depth) {
            true
        } else {
            c.in_stmt_id
        },
        stmt_level: if name == "Stmt"@ {
            Some(d)
        } else {
            c.stmt_level
        },
        depth: d,
        ..c
    }
}

/// The cursor leaving an element: one level up; `</Stmt>` closes the statement.
pub open spec fn leave(c: CursorView, name: Seq<char>) -> CursorView {
    CursorView {
        depth: if c.depth > 0 {
            (c.depth - 1) as u64
        } else {
            0
        },
        stmt_level: if name == "Stmt"@ {
            None
        } else {
            c.stmt_level
        },
        ..c
    }
}

/// The cursor after a start tag.
pub open spec fn start_step(
    c: CursorView,
    name: Seq<char>,
    attrs: Seq<(Seq<char>, Seq<char>)>,
) -> CursorView {
    if name == "IBAN"@ {
        CursorView { in_iban: true, ..c }
    } else if name == "Amt"@ {
        CursorView {
            in_amt: true,
            amt_ccy: match attr_lookup(attrs, "Ccy"@) {
                Some(v) => v,
                None => Seq::empty(),
            },
            ..c
        }
    } else if name == "CdtDbtInd"@ {
        CursorView { in_cdt_dbt: true, ..c }
    } else if name == "BookgDt"@ {
        CursorView { in_book_dt: true, ..c }
    } else if name == "ValDt"@ {
        CursorView { in_val_dt: true, ..c }
    } else if name == "AddtlNtryInf"@ {
        CursorView { in_addtl: true, ..c }
    } else if name == "NtryRef"@ {
        CursorView { in_ntry_ref: true, ..c }
    } else if name == "Ntry"@ {
        CursorView { pending: Some(new_entry_view()), ..c }
    } else if name == "Bal"@ {
        CursorView {
            in_bal: true,
            bal_code: Seq::empty(),
            bal_amount: Seq::empty(),
            bal_ccy: Seq::empty(),
            bal_date: Seq::empty(),
            ..c
        }
    } else if name == "Cd"@ {
        CursorView { in_cd: true, ..c }
    } else if name == "Dt"@ {
        CursorView { in_dt: true, ..c }
    } else {
        c
    }
}

/// The cursor with `e` as its pending entry.
pub open spec fn with_pending(c: CursorView, e: EntryView) -> CursorView {
    CursorView { pending: Some(e), ..c }
}

/// The cursor after text (already unescaped). Inside `<CdtDbtInd>`, anywhere
/// in the document, any text but `CRDT` or `DBIT` is an error.
pub open spec fn text_step(c: CursorView, txt: Seq<char>) -> Result<CursorView, Seq<char>> {
    if c.in_cdt_dbt {
        if txt == "CRDT"@ || txt == "DBIT"@ {
            let k = if txt == "CRDT"@ {
                DebitCredit::Credit
            } else {
                DebitCredit::Debit
            };
            match c.pending {
                Some(e) => Ok(with_pending(c, EntryView { kind: k, ..e })),
                None => Ok(c),
            }
        } else {
            Err("Unexpected CdtDbtInd `"@ + txt + "`"@)
        }
    } else if c.in_bal {
        if c.in_cd {
            Ok(CursorView { bal_code: txt, ..c })
        } else if c.in_amt {
            Ok(CursorView { bal_amount: txt, bal_ccy: c.amt_ccy, ..c })
        } else if c.in_dt {
            Ok(CursorView { bal_date: txt, ..c })
        } else {
            Ok(c)
        }
    } else if c.in_iban {
        if c.account_id.len() == 0 {
            Ok(CursorView { account_id: txt, ..c })
        } else {
            Ok(c)
        }
    } else if c.in_stmt_id && c.id.len() == 0 {
        Ok(CursorView { id: txt, ..c })
    } else if c.pending is None {
        Ok(c)
    } else if c.in_amt {
        let e = c.pending->0;
        Ok(
            with_pending(
                c,
                EntryView {
                    amount: txt,
                    currency: if c.amt_ccy.len() > 0 {
                        c.amt_ccy
                    } else {
                        e.currency
                    },
                    ..e
                },
            ),
        )
    } else if c.in_book_dt {
        Ok(with_pending(c, EntryView { booking_date: txt, ..c.pending->0 }))
    } else if c.in_val_dt {
        Ok(with_pending(c, EntryView { value_date: txt, ..c.pending->0 }))
    } else if c.in_addtl {
        Ok(with_pending(c, EntryView { description: txt, ..c.pending->0 }))
    } else if c.in_ntry_ref {
        Ok(
            with_pending(
                c,
                EntryView {
                    reference: if txt.len() == 0 {
                        None
                    } else {
                        Some(txt)
                    },
                    ..c.pending->0
                },
            ),
        )
    } else {
        Ok(c)
    }
}

/// The balance assembled inside a `<Bal>` element.
pub open spec fn assembled_balance(c: CursorView) -> BalanceView {
    BalanceView {
        kind: DebitCredit::Credit,
        date_yyymmdd: c.bal_date,
        currency: if c.bal_ccy.len() > 0 {
            c.bal_ccy
        } else {
            unknown_currency()
        },
        amount: c.bal_amount,
    }
}

/// At `</Ntry>`: the pending entry is appended to the entries.
pub open spec fn close_entry(c: CursorView) -> CursorView {
    match c.pending {
        Some(e) => CursorView { entries: c.entries.push(e), pending: None, ..c },
        None => c,
    }
}

/// At `</Bal>`: an `OPBD` balance becomes the opening balance, a `CLBD` one the closing balance.
pub open spec fn close_balance(c: CursorView) -> CursorView {
    if c.bal_code == "OPBD"@ {
        CursorView { in_bal: false, opening: Some(assembled_balance(c)), ..c }
    } else if c.bal_code == "CLBD"@ {
        CursorView { in_bal: false, closing: Some(assembled_balance(c)), ..c }
    } else {
        CursorView { in_bal: false, ..c }
    }
}

/// The cursor after an end tag: `</Ntry>` appends the pending entry, `</Bal>`
/// stores an `OPBD` or `CLBD` balance.
pub open spec fn end_step(c: CursorView, name: Seq<char>) -> CursorView {
    if name == "IBAN"@ {
        CursorView { in_iban: false, ..c }
    } else if name == "Id"@ {
        CursorView { in_stmt_id: false, ..c }
    } else if name == "Amt"@ {
        CursorView { in_amt: false, ..c }
    } else if name == "CdtDbtInd"@ {
        CursorView { in_cdt_dbt: false, ..c }
    } else if name == "BookgDt"@ {
        CursorView { in_book_dt: false, ..c }
    } else if name == "ValDt"@ {
        CursorView { in_val_dt: false, ..c }
    } else if name == "AddtlNtryInf"@ {
        CursorView { in_addtl: false, ..c }
    } else if name == "NtryRef"@ {
        CursorView { in_ntry_ref: false, ..c }
    } else if name == "Ntry"@ {
        close_entry(c)
    } else if name == "Bal"@ {
        close_balance(c)
    } else if name == "Cd"@ {
        CursorView { in_cd: false, ..c }
    } else if name == "Dt"@ {
        CursorView { in_dt: false, ..c }
    } else {
        c
    }
}

/// The cursor after one event.
pub open spec fn event_step(
    c: CursorView,
    ev: (int, Seq<char>, Seq<(Seq<char>, Seq<char>)>),
) -> Result<CursorView, Seq<char>> {
    if ev.0 == 0 {
        Ok(start_step(enter(c, ev.1), ev.1, ev.2))
    } else if ev.0 == 1 {
        match xml_unescaped_of(ev.1) {
            Ok(t) => text_step(c, t),
            Err(m) => Err(m),
        }
    } else if ev.0 == 2 {
        Ok(end_step(leave(c, ev.1), ev.1))
    } else {
        Ok(c)
    }
}

/// The cursor after a sequence of events, or the first error.
pub open spec fn cursor_after(evs: Seq<(int, Seq<char>, Seq<(Seq<char>, Seq<char>)>)>) -> Result<
    CursorView,
    Seq<char>,
>
    decreases evs.len(),
{
    if evs.len() == 0 {
        Ok(initial_cursor())
    } else {
        match cursor_after(evs.drop_last()) {
            Ok(c) => event_step(c, evs.last()),
            Err(e) => Err(e),
        }
    }
}

/// The statement id used when the document has none.
pub open spec fn missing_id() -> Seq<char> {
    "none"@
}

pub open spec fn statement_of_cursor(c: CursorView) -> StatementView {
    StatementView {
        id: if c.id.len() == 0 {
            missing_id()
        } else {
            c.id
        },
        account_id: c.account_id,
        opening_balance: c.opening,
        entries: c.entries,
        closing_balance: c.closing,
    }
}

/// The statement that a sequence of XML events describes, or the reason it
/// describes none.
pub open spec fn camt_statement(evs: Seq<(int, Seq<char>, Seq<(Seq<char>, Seq<char>)>)>) -> Result<
    StatementView,
    Seq<char>,
> {
    match cursor_after(evs) {
        Ok(c) => Ok(statement_of_cursor(c)),
        Err(e) => Err(e),
    }
}

/// The statement that a camt.053 document holds, or the reason it holds none.
pub open spec fn camt_read(doc: Seq<char>) -> Result<StatementView, Seq<char>> {
    match xml_events_of(doc) {
        Ok(evs) => camt_statement(evs),
        Err(m) => Err(m),
    }
}

fn lit(s: &str) -> (r: String)
    ensures
        r@ == s@,
{
    s.to_owned()
}

fn new_entry() -> (e: Entry)
    ensures
        e@ == new_entry_view(),
{
    Entry {
        booking_date: String::new(),
        value_date: String::new(),
        amount: String::new(),
        currency: lit("XXX"),
        kind: DebitCredit::Credit,
        description: String::new(),
        reference: None,
    }
}

impl CamtCursor {
    /// A cursor at the start of a document.
    pub fn new() -> (c: Self)
        ensures
            c@ == initial_cursor(),
    {
        let c = CamtCursor {
            in_iban: false,
            in_stmt_id: false,
            depth: 0,
            stmt_level: None,
            in_amt: false,
            amt_ccy: String::new(),
            in_cdt_dbt: false,
            in_book_dt: false,
            in_val_dt: false,
            in_addtl: false,
            in_ntry_ref: false,
            pending: None,
            in_bal: false,
            in_cd: false,
            in_dt: false,
            bal_code: String::new(),
            bal_amount: String::new(),
            bal_ccy: String::new(),
            bal_date: String::new(),
            id: String::new(),
            account_id: String::new(),
            opening: None,
            closing: None,
            entries: Vec::new(),
        };
        assert(c@.entries =~= Seq::<EntryView>::empty());
        c
    }

    #[verifier::rlimit(60)]
    fn on_start(&mut self, name: &str, attrs: &Vec<(String, String)>)
        ensures
            final(self)@ == start_step(old(self)@, name@, attrs_view(attrs@)),
    {
        let n = chars_of(name);
        if chars_eq(&n, "IBAN") {
            self.in_iban = true;
        } else if chars_eq(&n, "Amt") {
            self.in_amt = true;
            self.amt_ccy = match attr_value(attrs, "Ccy") {
                Some(v) => v,
                None => String::new(),
            };
        } else if chars_eq(&n, "CdtDbtInd") {
            self.in_cdt_dbt = true;
        } else if chars_eq(&n, "BookgDt") {
            self.in_book_dt = true;
        } else if chars_eq(&n, "ValDt") {
            self.in_val_dt = true;
        } else if chars_eq(&n, "AddtlNtryInf") {
            self.in_addtl = true;
        } else if chars_eq(&n, "NtryRef") {
            self.in_ntry_ref = true;
        } else if chars_eq(&n, "Ntry") {
            self.pending = Some(new_entry());
        } else if chars_eq(&n, "Bal") {
            self.in_bal = true;
            self.bal_code = String::new();
            self.bal_amount = String::new();
            self.bal_ccy = String::new();
            self.bal_date = String::new();
        } else if chars_eq(&n, "Cd") {
            self.in_cd = true;
        } else if chars_eq(&n, "Dt") {
            self.in_dt = true;
        }
    }

    fn on_text(&mut self, txt: String) -> (r: Result<(), AdapterError>)
        ensures
            match text_step(old(self)@, txt@) {
                Ok(c) => r is Ok && final(self)@ == c,
                Err(m) => r matches Err(AdapterError::ParseError(x)) && x@ == m,
            },
    {
        if self.in_cdt_dbt {
            let t = chars_of(txt.as_str());
            let kind = if chars_eq(&t, "CRDT") {
                DebitCredit::Credit
            } else if chars_eq(&t, "DBIT") {
                DebitCredit::Debit
            } else {
                let mut m = lit("Unexpected CdtDbtInd `");
                m.append(txt.as_str());
                m.append("`");
                return Err(AdapterError::ParseError(m));
            };
            if let Some(mut e) = self.pending.take() {
                e.kind = kind;
                self.pending = Some(e);
            }
            return Ok(());
        }
        if self.in_bal {
            if self.in_cd {
                self.bal_code = txt;
            } else if self.in_amt {
                self.bal_amount = txt;
                self.bal_ccy = self.amt_ccy.clone();
            } else if self.in_dt {
                self.bal_date = txt;
            }
            return Ok(());
        }
        if self.in_iban {
            if self.account_id.as_str().is_empty() {
                self.account_id = txt;
            }
            return Ok(());
        }
        if self.in_stmt_id && self.id.as_str().is_empty() {
            self.id = txt;
            return Ok(());
        }
        let mut e = match self.pending.take() {
            Some(e) => e,
            None => {
                return Ok(());
            },
        };
        if self.in_amt {
            e.amount = txt;
            if !self.amt_ccy.as_str().is_empty() {
                e.currency = self.amt_ccy.clone();
            }
        } else if self.in_book_dt {
            e.booking_date = txt;
        } else if self.in_val_dt {
            e.value_date = txt;
        } else if self.in_addtl {
            e.description = txt;
        } else if self.in_ntry_ref {
            e.reference = if txt.as_str().is_empty() {
                None
            } else {
                Some(txt)
            };
        }
        self.pending = Some(e);
        Ok(())
    }

    fn balance(&self) -> (b: Balance)
        ensures
            b@ == assembled_balance(self@),
    {
        Balance {
            kind: DebitCredit::Credit,
            date_yyymmdd: self.bal_date.clone(),
            currency: if self.bal_ccy.as_str().is_empty() {
                lit("XXX")
            } else {
                self.bal_ccy.clone()
            },
            amount: self.bal_amount.clone(),
        }
    }

    fn close_entry(&mut self)
        ensures
            final(self)@ == close_entry(old(self)@),
    {
        if let Some(e) = self.pending.take() {
            let ghost before = self.entries@;
            self.entries.push(e);
            assert(entries_view(self.entries@) =~= entries_view(before).push(e@));
        }
    }

    fn close_balance(&mut self)
        ensures
            final(self)@ == close_balance(old(self)@),
    {
        let code = chars_of(self.bal_code.as_str());
        if chars_eq(&code, "OPBD") {
            self.opening = Some(self.balance());
        } else if chars_eq(&code, "CLBD") {
            self.closing = Some(self.balance());
        }
        self.in_bal = false;
    }

    #[verifier::rlimit(60)]
    fn on_end(&mut self, name: &str)
        ensures
            final(self)@ == end_step(old(self)@, name@),
    {
        let n = chars_of(name);
        if chars_eq(&n, "IBAN") {
            self.in_iban = false;
        } else if chars_eq(&n, "Id") {
            self.in_stmt_id = false;
        } else if chars_eq(&n, "Amt") {
            self.in_amt = false;
        } else if chars_eq(&n, "CdtDbtInd") {
            self.in_cdt_dbt = false;
        } else if chars_eq(&n, "BookgDt") {
            self.in_book_dt = false;
        } else if chars_eq(&n, "ValDt") {
            self.in_val_dt = false;
        } else if chars_eq(&n, "AddtlNtryInf") {
            self.in_addtl = false;
        } else if chars_eq(&n, "NtryRef") {
            self.in_ntry_ref = false;
        } else if chars_eq(&n, "Ntry") {
            self.close_entry();
        } else if chars_eq(&n, "Bal") {
            self.close_balance();
        } else if chars_eq(&n, "Cd") {
            self.in_cd = false;
        } else if chars_eq(&n, "Dt") {
            self.in_dt = false;
        }
    }

    fn enter(&mut self, name: &str)
        ensures
            final(self)@ == enter(old(self)@, name@),
    {
        let n = chars_of(name);
        if chars_eq(&n, "Id") && self.stmt_level == Some(self.depth) {
            self.in_stmt_id = true;
        }
        if self.depth < u64::MAX {
            self.depth = self.depth + 1;
        }
        if chars_eq(&n, "Stmt") {
            self.stmt_level = Some(self.depth);
        }
    }

    fn leave(&mut self, name: &str)
        ensures
            final(self)@ == leave(old(self)@, name@),
    {
        if self.depth > 0 {
            self.depth = self.depth - 1;
        }
        let n = chars_of(name);
        if chars_eq(&n, "Stmt") {
            self.stmt_level = None;
        }
    }

    /// Applies one event of the document.
    pub fn step(&mut self, ev: &XmlEvent) -> (r: Result<(), AdapterError>)
        ensures
            match event_step(old(self)@, ev@) {
                Ok(c) => r is Ok && final(self)@ == c,
                Err(m) => r matches Err(AdapterError::ParseError(x)) && x@ == m,
            },
    {
        match ev {
            XmlEvent::Start { name, attrs } => {
                self.enter(name.as_str());
                self.on_start(name.as_str(), attrs);
                Ok(())
            },
            XmlEvent::Text { raw } => {
                let txt = read_text(raw.as_str())?;
                self.on_text(txt)
            },
            XmlEvent::End { name } => {
                self.leave(name.as_str());
                self.on_end(name.as_str());
                Ok(())
            },
        }
    }

    /// The statement read so far; a missing statement id becomes `none`.
    pub fn finish(self) -> (st: Statement)
        ensures
            st@ == statement_of_cursor(self@),
    {
        let id = if self.id.as_str().is_empty() {
            lit("none")
        } else {
            self.id
        };
        Statement {
            id,
            account_id: self.account_id,
            opening_balance: self.opening,
            entries: self.entries,
            closing_balance: self.closing,
        }
    }
}

proof fn lemma_cursor_error_stays(
    evs: Seq<(int, Seq<char>, Seq<(Seq<char>, Seq<char>)>)>,
    i: int,
)
    requires
        0 <= i <= evs.len(),
        cursor_after(evs.subrange(0, i)) is Err,
    ensures
        cursor_after(evs) == cursor_after(evs.subrange(0, i)),
    decreases evs.len() - i,
{
    if i < evs.len() {
        assert(evs.subrange(0, i + 1).drop_last() =~= evs.subrange(0, i));
        lemma_cursor_error_stays(evs, i + 1);
    } else {
        assert(evs.subrange(0, i) =~= evs);
    }
}

/// The statement that a sequence of XML events describes.
pub fn statement_from_events(events: &Vec<XmlEvent>) -> (r: Result<Statement, AdapterError>)
    ensures
        match camt_statement(events_view(events@)) {
            Ok(st) => r matches Ok(x) && x@ == st,
            Err(m) => r matches Err(AdapterError::ParseError(x)) && x@ == m,
        },
{
    let ghost evs = events_view(events@);
    let mut c = CamtCursor::new();
    assert(evs.subrange(0, 0) =~= Seq::<(int, Seq<char>, Seq<(Seq<char>, Seq<char>)>)>::empty());
    let mut i: usize = 0;
    while i < events.len()
        invariant
            i <= events@.len(),
            evs == events_view(events@),
            cursor_after(evs.subrange(0, i as int)) == Ok::<CursorView, Seq<char>>(c@),
        decreases events@.len() - i,
    {
        assert(evs.subrange(0, i + 1).drop_last() =~= evs.subrange(0, i as int));
        assert(events@[i as int]@ == evs[i as int]);
        match c.step(&events[i]) {
            Ok(()) => {},
            Err(e) => {
                proof {
                    lemma_cursor_error_stays(evs, i + 1);
                }
                return Err(e);
            },
        }
        i = i + 1;
    }
    assert(evs.subrange(0, events@.len() as int) =~= evs);
    Ok(c.finish())
}

/// The camt.053 (ISO 20022 XML) adapter.
pub struct CAMT;

impl Adapter for CAMT {
    /// The statement that a camt.053 document holds.
    fn read_from(input: &str) -> (r: Result<Statement, AdapterError>)
        ensures
            match camt_read(input@) {
                Ok(st) => r matches Ok(x) && x@ == st,
                Err(m) => r matches Err(AdapterError::ParseError(x)) && x@ == m,
            },
    {
        match xml_events(input) {
            Ok(events) => statement_from_events(&events),
            Err(m) => Err(AdapterError::ParseError(m)),
        }
    }

    /// The camt.053 document of a statement.
    fn write_to(st: &Statement) -> (r: Result<String, AdapterError>)
        ensures
            r matches Ok(text) && text@ == xml_document_of(camt_events(st@)),
    {
        let mut wr = xml_writer();
        let ghost w0 = xml_written(wr);
        emit(&mut wr, XmlOut::Decl { version: lit("1.0"), encoding: lit("UTF-8") });
        emit(
            &mut wr,
            XmlOut::StartWith {
                name: lit("Document"),
                key: lit("xmlns"),
                value: lit("urn:iso:std:iso:20022:tech:xsd:camt.053.001.02"),
            },
        );
        start(&mut wr, "BkToCstmrStmt");
        start(&mut wr, "Stmt");
        elem_text(&mut wr, "Id", st.id.as_str());
        start(&mut wr, "Acct");
        start(&mut wr, "Id");
        elem_text(&mut wr, "IBAN", st.account_id.as_str());
        end(&mut wr, "Id");
        end(&mut wr, "Acct");
        assert(xml_written(wr) =~= w0 + head_events(st@));
        let ghost w1 = xml_written(wr);
        if let Some(b) = &st.opening_balance {
            write_balance(&mut wr, "OPBD", b);
        }
        if let Some(b) = &st.closing_balance {
            write_balance(&mut wr, "CLBD", b);
        }
        assert(xml_written(wr) =~= w1 + balance_opt_events("OPBD"@, st@.opening_balance)
            + balance_opt_events("CLBD"@, st@.closing_balance));
        let ghost w2 = xml_written(wr);
        let mut i: usize = 0;
        while i < st.entries.len()
            invariant
                i <= st.entries@.len(),
                xml_ready(wr),
                xml_written(wr) == w2 + entries_events(st@.entries.subrange(0, i as int)),
            decreases st.entries@.len() - i,
        {
            write_entry(&mut wr, &st.entries[i]);
            i = i + 1;
            assert(st@.entries.subrange(0, i as int).drop_last() =~= st@.entries.subrange(
                0,
                i - 1,
            ));
            assert(xml_written(wr) =~= w2 + entries_events(st@.entries.subrange(0, i as int)));
        }
        assert(st@.entries.subrange(0, st.entries@.len() as int) =~= st@.entries);
        end(&mut wr, "Stmt");
        end(&mut wr, "BkToCstmrStmt");
        end(&mut wr, "Document");
        assert(xml_written(wr) =~= camt_events(st@));
        match xml_text(wr) {
            Ok(t) => Ok(t),
            Err(m) => Err(AdapterError::WriteError(m)),
        }
    }
}

#[verifier::external_type_specification]
#[verifier::external_body]
#[verifier::reject_recursive_types(W)]
pub struct ExXmlWriter<W>(quick_xml::Writer<W>);

/// One piece of XML output.
pub enum XmlOut {
    /// The XML declaration.
    Decl { version: String, encoding: String },
    /// A start tag without attributes.
    Start { name: String },
    /// A start tag with one attribute.
    StartWith { name: String, key: String, value: String },
    /// An end tag.
    End { name: String },
    /// Text content, to be escaped.
    Text { text: String },
}

impl View for XmlOut {
    /// Kind (0 declaration, 1 start, 2 start with attribute, 3 end, 4 text) and its texts.
    type V = (int, Seq<char>, Seq<char>, Seq<char>);

    open spec fn view(&self) -> (int, Seq<char>, Seq<char>, Seq<char>) {
        match self {
            XmlOut::Decl { version, encoding } => (0, version@, encoding@, Seq::empty()),
            XmlOut::Start { name } => (1, name@, Seq::empty(), Seq::empty()),
            XmlOut::StartWith { name, key, value } => (2, name@, key@, value@),
            XmlOut::End { name } => (3, name@, Seq::empty(), Seq::empty()),
            XmlOut::Text { text } => (4, text@, Seq::empty(), Seq::empty()),
        }
    }
}

/// The events written so far to an XML writer.
pub uninterp spec fn xml_written(w: quick_xml::Writer<Vec<u8>>) -> Seq<
    (int, Seq<char>, Seq<char>, Seq<char>),
>;

/// The text that an indenting (two spaces) quick-xml writer makes of a sequence of events.
pub uninterp spec fn xml_document_of(evs: Seq<(int, Seq<char>, Seq<char>, Seq<char>)>) -> Seq<
    char,
>;

/// The writer indents by two spaces and its buffer holds exactly the text of
/// `xml_written(w)`: it was made by `xml_writer` and written to only through
/// `write_xml`.
pub uninterp spec fn xml_ready(w: quick_xml::Writer<Vec<u8>>) -> bool;

/// Relies on `Writer::new_with_indent`: a writer that indents by two spaces,
/// over an empty buffer, with nothing written yet.
#[verifier::external_body]
fn xml_writer() -> (w: quick_xml::Writer<Vec<u8>>)
    ensures
        xml_ready(w),
        xml_written(w) == Seq::<(int, Seq<char>, Seq<char>, Seq<char>)>::empty(),
{
    quick_xml::Writer::new_with_indent(Vec::new(), b' ', 2)
}

/// Relies on `Writer::write_event`: the event is added to what was written
/// (text and attribute values escaped on output). Over a `Vec<u8>` it cannot
/// fail: it fails only when the inner `write_all` does.
#[verifier::external_body]
fn write_xml(w: &mut quick_xml::Writer<Vec<u8>>, ev: &XmlOut) -> (r: Result<(), String>)
    requires
        xml_ready(*old(w)),
    ensures
        r is Ok,
        xml_ready(*final(w)),
        xml_written(*final(w)) == xml_written(*old(w)).push(ev@),
{
    let res = match ev {
        XmlOut::Decl { version, encoding } => w.write_event(Event::Decl(BytesDecl::new(version, Some(encoding), None))),
        XmlOut::Start { name } => w.write_event(Event::Start(BytesStart::new(name.as_str()))),
        XmlOut::StartWith { name, key, value } => w.write_event(Event::Start(BytesStart::new(name.as_str()).with_attributes([(key.as_str(), value.as_str())]))),
        XmlOut::End { name } => w.write_event(Event::End(BytesEnd::new(name.as_str()))),
        XmlOut::Text { text } => w.write_event(Event::Text(BytesText::new(text))),
    };
    res.map_err(|e| e.to_string())
}

/// Relies on `Writer::into_inner` and `String::from_utf8`: the text of what was
/// written, which is UTF-8 since every name, attribute and text is a `str`.
#[verifier::external_body]
fn xml_text(w: quick_xml::Writer<Vec<u8>>) -> (r: Result<String, String>)
    requires
        xml_ready(w),
    ensures
        r is Ok,
        r matches Ok(t) ==> t@ == xml_document_of(xml_written(w)),
{
    String::from_utf8(w.into_inner()).map_err(|e| e.to_string())
}

pub open spec fn ev_start(name: Seq<char>) -> (int, Seq<char>, Seq<char>, Seq<char>) {
    (1, name, Seq::empty(), Seq::empty())
}

pub open spec fn ev_start_with(name: Seq<char>, key: Seq<char>, value: Seq<char>) -> (
    int,
    Seq<char>,
    Seq<char>,
    Seq<char>,
) {
    (2, name, key, value)
}

pub open spec fn ev_end(name: Seq<char>) -> (int, Seq<char>, Seq<char>, Seq<char>) {
    (3, name, Seq::empty(), Seq::empty())
}

pub open spec fn ev_text(t: Seq<char>) -> (int, Seq<char>, Seq<char>, Seq<char>) {
    (4, t, Seq::empty(), Seq::empty())
}

/// `<name>text</name>`.
pub open spec fn elem_events(name: Seq<char>, t: Seq<char>) -> Seq<
    (int, Seq<char>, Seq<char>, Seq<char>),
> {
    seq![ev_start(name), ev_text(t), ev_end(name)]
}

/// An amount with its currency attribute.
pub open spec fn amount_events(amount: Seq<char>, currency: Seq<char>) -> Seq<
    (int, Seq<char>, Seq<char>, Seq<char>),
> {
    seq![ev_start_with("Amt"@, "Ccy"@, currency), ev_text(amount), ev_end("Amt"@)]
}

/// A date nested in a wrapping element.
pub open spec fn date_events(outer: Seq<char>, d: Seq<char>) -> Seq<
    (int, Seq<char>, Seq<char>, Seq<char>),
> {
    seq![ev_start(outer)] + elem_events("Dt"@, d) + seq![ev_end(outer)]
}

/// A `<Bal>` element: type code, amount with currency, date.
pub open spec fn balance_events(tp: Seq<char>, b: BalanceView) -> Seq<
    (int, Seq<char>, Seq<char>, Seq<char>),
> {
    seq![ev_start("Bal"@), ev_start("Tp"@), ev_start("CdOrPrtry"@)] + elem_events("Cd"@, tp)
        + seq![ev_end("CdOrPrtry"@), ev_end("Tp"@)] + amount_events(b.amount, b.currency)
        + date_events("Dt"@, b.date_yyymmdd) + seq![ev_end("Bal"@)]
}

pub open spec fn balance_opt_events(tp: Seq<char>, b: Option<BalanceView>) -> Seq<
    (int, Seq<char>, Seq<char>, Seq<char>),
> {
    match b {
        Some(x) => balance_events(tp, x),
        None => Seq::empty(),
    }
}

/// The credit/debit indicator of a kind.
pub open spec fn indicator(k: DebitCredit) -> Seq<char> {
    if k == DebitCredit::Credit {
        "CRDT"@
    } else {
        "DBIT"@
    }
}

pub open spec fn reference_events(r: Option<Seq<char>>) -> Seq<
    (int, Seq<char>, Seq<char>, Seq<char>),
> {
    match r {
        Some(t) => if t.len() > 0 {
            elem_events("NtryRef"@, t)
        } else {
            Seq::empty()
        },
        None => Seq::empty(),
    }
}

pub open spec fn description_events(d: Seq<char>) -> Seq<(int, Seq<char>, Seq<char>, Seq<char>)> {
    if d.len() > 0 {
        elem_events("AddtlNtryInf"@, d)
    } else {
        Seq::empty()
    }
}

/// An `<Ntry>` element: reference, amount, indicator, value date, booking
/// date, additional information.
pub open spec fn entry_events(e: EntryView) -> Seq<(int, Seq<char>, Seq<char>, Seq<char>)> {
    seq![ev_start("Ntry"@)] + reference_events(e.reference) + amount_events(e.amount, e.currency)
        + elem_events("CdtDbtInd"@, indicator(e.kind)) + date_events("ValDt"@, e.value_date)
        + date_events("BookgDt"@, e.booking_date) + description_events(e.description) + seq![
        ev_end("Ntry"@),
    ]
}

pub open spec fn entries_events(es: Seq<EntryView>) -> Seq<(int, Seq<char>, Seq<char>, Seq<char>)>
    decreases es.len(),
{
    if es.len() == 0 {
        Seq::empty()
    } else {
        entries_events(es.drop_last()) + entry_events(es.last())
    }
}

/// Declaration, document root, statement id and account.
pub open spec fn head_events(st: StatementView) -> Seq<(int, Seq<char>, Seq<char>, Seq<char>)> {
    seq![
        (0, "1.0"@, "UTF-8"@, Seq::empty()),
        ev_start_with("Document"@, "xmlns"@, "urn:iso:std:iso:20022:tech:xsd:camt.053.001.02"@),
        ev_start("BkToCstmrStmt"@),
        ev_start("Stmt"@),
    ] + elem_events("Id"@, st.id) + seq![ev_start("Acct"@), ev_start("Id"@)] + elem_events(
        "IBAN"@,
        st.account_id,
    ) + seq![ev_end("Id"@), ev_end("Acct"@)]
}

/// The events of a statement's camt.053 document, in fixed order.
pub open spec fn camt_events(st: StatementView) -> Seq<(int, Seq<char>, Seq<char>, Seq<char>)> {
    head_events(st) + balance_opt_events("OPBD"@, st.opening_balance) + balance_opt_events(
        "CLBD"@,
        st.closing_balance,
    ) + entries_events(st.entries) + seq![
        ev_end("Stmt"@),
        ev_end("BkToCstmrStmt"@),
        ev_end("Document"@),
    ]
}

fn emit(wr: &mut quick_xml::Writer<Vec<u8>>, ev: XmlOut)
    requires
        xml_ready(*old(wr)),
    ensures
        xml_ready(*final(wr)),
        xml_written(*final(wr)) == xml_written(*old(wr)).push(ev@),
{
    // Writing into a vector cannot fail: `write_xml` promises `Ok`.
    let _ = write_xml(wr, &ev);
}

/// Writes a start tag.
fn start(wr: &mut quick_xml::Writer<Vec<u8>>, name: &str)
    requires
        xml_ready(*old(wr)),
    ensures
        xml_ready(*final(wr)),
        xml_written(*final(wr)) == xml_written(*old(wr)).push(ev_start(name@)),
{
    emit(wr, XmlOut::Start { name: lit(name) })
}

/// Writes an end tag.
fn end(wr: &mut quick_xml::Writer<Vec<u8>>, name: &str)
    requires
        xml_ready(*old(wr)),
    ensures
        xml_ready(*final(wr)),
        xml_written(*final(wr)) == xml_written(*old(wr)).push(ev_end(name@)),
{
    emit(wr, XmlOut::End { name: lit(name) })
}

/// Writes text content.
fn text(wr: &mut quick_xml::Writer<Vec<u8>>, s: &str)
    requires
        xml_ready(*old(wr)),
    ensures
        xml_ready(*final(wr)),
        xml_written(*final(wr)) == xml_written(*old(wr)).push(ev_text(s@)),
{
    emit(wr, XmlOut::Text { text: lit(s) })
}

/// Writes `<name>s</name>`.
fn elem_text(wr: &mut quick_xml::Writer<Vec<u8>>, name: &str, s: &str)
    requires
        xml_ready(*old(wr)),
    ensures
        xml_ready(*final(wr)),
        xml_written(*final(wr)) == xml_written(*old(wr)) + elem_events(name@, s@),
{
    let ghost w0 = xml_written(*wr);
    start(wr, name);
    text(wr, s);
    end(wr, name);
    assert(xml_written(*wr) =~= w0 + elem_events(name@, s@));
}

fn write_amount(wr: &mut quick_xml::Writer<Vec<u8>>, amount: &str, currency: &str)
    requires
        xml_ready(*old(wr)),
    ensures
        xml_ready(*final(wr)),
        xml_written(*final(wr)) == xml_written(*old(wr)) + amount_events(
            amount@,
            currency@,
        ),
{
    let ghost w0 = xml_written(*wr);
    emit(wr, XmlOut::StartWith { name: lit("Amt"), key: lit("Ccy"), value: lit(currency) });
    text(wr, amount);
    end(wr, "Amt");
    assert(xml_written(*wr) =~= w0 + amount_events(amount@, currency@));
}

fn write_date(wr: &mut quick_xml::Writer<Vec<u8>>, outer: &str, d: &str)
    requires
        xml_ready(*old(wr)),
    ensures
        xml_ready(*final(wr)),
        xml_written(*final(wr)) == xml_written(*old(wr)) + date_events(outer@, d@),
{
    let ghost w0 = xml_written(*wr);
    start(wr, outer);
    elem_text(wr, "Dt", d);
    end(wr, outer);
    assert(xml_written(*wr) =~= w0 + date_events(outer@, d@));
}

/// Writes a `<Bal>` element with the type code `tp`.
fn write_balance(wr: &mut quick_xml::Writer<Vec<u8>>, tp: &str, b: &Balance)
    requires
        xml_ready(*old(wr)),
    ensures
        xml_ready(*final(wr)),
        xml_written(*final(wr)) == xml_written(*old(wr)) + balance_events(tp@, b@),
{
    let ghost w0 = xml_written(*wr);
    start(wr, "Bal");
    start(wr, "Tp");
    start(wr, "CdOrPrtry");
    elem_text(wr, "Cd", tp);
    end(wr, "CdOrPrtry");
    end(wr, "Tp");
    write_amount(wr, b.amount.as_str(), b.currency.as_str());
    write_date(wr, "Dt", b.date_yyymmdd.as_str());
    end(wr, "Bal");
    assert(xml_written(*wr) =~= w0 + balance_events(tp@, b@));
}

/// Writes an `<Ntry>` element.
fn write_entry(wr: &mut quick_xml::Writer<Vec<u8>>, e: &Entry)
    requires
        xml_ready(*old(wr)),
    ensures
        xml_ready(*final(wr)),
        xml_written(*final(wr)) == xml_written(*old(wr)) + entry_events(e@),
{
    let ghost w0 = xml_written(*wr);
    start(wr, "Ntry");
    if let Some(r) = &e.reference {
        if !r.as_str().is_empty() {
            elem_text(wr, "NtryRef", r.as_str());
        }
    }
    let ghost w1 = xml_written(*wr);
    assert(w1 =~= w0 + seq![ev_start("Ntry"@)] + reference_events(e@.reference));
    write_amount(wr, e.amount.as_str(), e.currency.as_str());
    let ind = match e.kind {
        DebitCredit::Credit => "CRDT",
        DebitCredit::Debit => "DBIT",
    };
    elem_text(wr, "CdtDbtInd", ind);
    write_date(wr, "ValDt", e.value_date.as_str());
    write_date(wr, "BookgDt", e.booking_date.as_str());
    if !e.description.as_str().is_empty() {
        elem_text(wr, "AddtlNtryInf", e.description.as_str());
    }
    end(wr, "Ntry");
    assert(xml_written(*wr) =~= w0 + entry_events(e@));
}

/// Whether `<Ntry>` elements are open after the events (`Some(true)` inside
/// one), or `None` once an `<Ntry>` opens inside another or closes unopened.
pub open spec fn ntry_nesting(evs: Seq<(int, Seq<char>, Seq<(Seq<char>, Seq<char>)>)>) -> Option<
    bool,
>
    decreases evs.len(),
{
    if evs.len() == 0 {
        Some(false)
    } else {
        match ntry_nesting(evs.drop_last()) {
            None => None,
            Some(open) => {
                let ev = evs.last();
                if ev.0 == 0 && ev.1 == "Ntry"@ {
                    if open {
                        None
                    } else {
                        Some(true)
                    }
                } else if ev.0 == 2 && ev.1 == "Ntry"@ {
                    if open {
                        Some(false)
                    } else {
                        None
                    }
                } else {
                    Some(open)
                }
            },
        }
    }
}

/// The number of `<Ntry>` start tags among the events.
pub open spec fn ntry_count(evs: Seq<(int, Seq<char>, Seq<(Seq<char>, Seq<char>)>)>) -> nat
    decreases evs.len(),
{
    if evs.len() == 0 {
        0
    } else if evs.last().0 == 0 && evs.last().1 == "Ntry"@ {
        ntry_count(evs.drop_last()) + 1
    } else {
        ntry_count(evs.drop_last())
    }
}

proof fn lemma_tag_names_differ()
    ensures
        "Ntry"@ != "IBAN"@,
        "Ntry"@ != "Id"@,
        "Ntry"@ != "Amt"@,
        "Ntry"@ != "CdtDbtInd"@,
        "Ntry"@ != "BookgDt"@,
        "Ntry"@ != "ValDt"@,
        "Ntry"@ != "AddtlNtryInf"@,
        "Ntry"@ != "NtryRef"@,
{
    reveal_strlit("Ntry");
    reveal_strlit("IBAN");
    reveal_strlit("Id");
    reveal_strlit("Amt");
    reveal_strlit("CdtDbtInd");
    reveal_strlit("BookgDt");
    reveal_strlit("ValDt");
    reveal_strlit("AddtlNtryInf");
    reveal_strlit("NtryRef");
    assert("Ntry"@[0] != "IBAN"@[0]);
    assert("Ntry"@.len() != "Id"@.len());
    assert("Ntry"@.len() != "Amt"@.len());
    assert("Ntry"@.len() != "CdtDbtInd"@.len());
    assert("Ntry"@.len() != "BookgDt"@.len());
    assert("Ntry"@.len() != "ValDt"@.len());
    assert("Ntry"@.len() != "AddtlNtryInf"@.len());
    assert("Ntry"@.len() != "NtryRef"@.len());
}

/// Each step keeps the entries read so far, appends at most one, and
/// changes whether an entry is pending only at `<Ntry>` and `</Ntry>`.
proof fn lemma_step_entries(c: CursorView, ev: (int, Seq<char>, Seq<(Seq<char>, Seq<char>)>))
    requires
        event_step(c, ev) is Ok,
    ensures
        ({
            let n = event_step(c, ev)->Ok_0;
            if ev.0 == 0 && ev.1 == "Ntry"@ {
                n.pending is Some && n.entries == c.entries
            } else if ev.0 == 2 && ev.1 == "Ntry"@ {
                n.pending is None && (c.pending is Some ==> n.entries == c.entries.push(
                    c.pending->0,
                )) && (c.pending is None ==> n.entries == c.entries)
            } else {
                (n.pending is Some <==> c.pending is Some) && n.entries == c.entries
            }
        }),
{
    lemma_tag_names_differ();
    if ev.0 == 0 {
        lemma_start_entries(enter(c, ev.1), ev.1, ev.2);
    } else if ev.0 == 1 {
        lemma_text_entries(c, xml_unescaped_of(ev.1)->Ok_0);
    } else if ev.0 == 2 {
        lemma_end_entries(leave(c, ev.1), ev.1);
    }
}

proof fn lemma_start_entries(c: CursorView, name: Seq<char>, attrs: Seq<(Seq<char>, Seq<char>)>)
    ensures
        name == "Ntry"@ ==> start_step(c, name, attrs).pending is Some && start_step(
            c,
            name,
            attrs,
        ).entries == c.entries,
        name != "Ntry"@ ==> start_step(c, name, attrs).pending == c.pending && start_step(
            c,
            name,
            attrs,
        ).entries == c.entries,
{
    lemma_tag_names_differ();
}

proof fn lemma_text_entries(c: CursorView, txt: Seq<char>)
    requires
        text_step(c, txt) is Ok,
    ensures
        (text_step(c, txt)->Ok_0.pending is Some <==> c.pending is Some),
        text_step(c, txt)->Ok_0.entries == c.entries,
{
}

proof fn lemma_end_entries(c: CursorView, name: Seq<char>)
    ensures
        name == "Ntry"@ ==> end_step(c, name) == close_entry(c),
        name != "Ntry"@ ==> end_step(c, name).pending == c.pending && end_step(c, name).entries
            == c.entries,
{
    lemma_tag_names_differ();
}

proof fn lemma_entries_follow_ntry(evs: Seq<(int, Seq<char>, Seq<(Seq<char>, Seq<char>)>)>)
    requires
        cursor_after(evs) is Ok,
        ntry_nesting(evs) is Some,
    ensures
        ({
            let c = cursor_after(evs)->Ok_0;
            let open = ntry_nesting(evs)->0;
            &&& (c.pending is Some <==> open)
            &&& c.entries.len() + (if open {
                1int
            } else {
                0int
            }) == ntry_count(evs)
        }),
    decreases evs.len(),
{
    if evs.len() > 0 {
        let prev = evs.drop_last();
        lemma_entries_follow_ntry(prev);
        lemma_step_entries(cursor_after(prev)->Ok_0, evs.last());
    }
}

/// A document with N `<Ntry>` elements, none inside another and each
/// closed, reads as a statement with exactly N entries.
pub proof fn lemma_entry_count(evs: Seq<(int, Seq<char>, Seq<(Seq<char>, Seq<char>)>)>)
    requires
        camt_statement(evs) is Ok,
        ntry_nesting(evs) == Some(false),
    ensures
        camt_statement(evs)->Ok_0.entries.len() == ntry_count(evs),
{
    lemma_entries_follow_ntry(evs);
}

/// Entries are only ever appended: the entries read from a prefix of the
/// events come first, in the same order, among those of the whole document.
pub proof fn lemma_entries_in_document_order(
    evs: Seq<(int, Seq<char>, Seq<(Seq<char>, Seq<char>)>)>,
    i: int,
)
    requires
        0 <= i <= evs.len(),
        camt_statement(evs) is Ok,
    ensures
        cursor_after(evs.subrange(0, i)) is Ok,
        cursor_after(evs.subrange(0, i))->Ok_0.entries.is_prefix_of(
            camt_statement(evs)->Ok_0.entries,
        ),
    decreases evs.len() - i,
{
    if i == evs.len() {
        assert(evs.subrange(0, i) =~= evs);
        assert(cursor_after(evs)->Ok_0.entries.subrange(0, cursor_after(evs)->Ok_0.entries.len() as int)
            =~= cursor_after(evs)->Ok_0.entries);
    } else {
        lemma_entries_in_document_order(evs, i + 1);
        let next = evs.subrange(0, i + 1);
        assert(next.drop_last() =~= evs.subrange(0, i));
        if cursor_after(evs.subrange(0, i)) is Err {
            assert(cursor_after(next) is Err);
        }
        let c = cursor_after(evs.subrange(0, i))->Ok_0;
        lemma_step_entries(c, next.last());
        let n = cursor_after(next)->Ok_0;
        let all = camt_statement(evs)->Ok_0.entries;
        assert(n.entries.is_prefix_of(all));
        assert(c.entries.is_prefix_of(n.entries)) by {
            assert forall|k: int| 0 <= k < c.entries.len() implies c.entries[k] == n.entries[k] by {
            }
        }
        assert(c.entries.is_prefix_of(all)) by {
            assert forall|k: int| 0 <= k < c.entries.len() implies c.entries[k] == all[k] by {
                assert(c.entries[k] == n.entries[k]);
                assert(n.entries.subrange(0, n.entries.len() as int)[k] == n.entries[k]);
                assert(all.subrange(0, n.entries.len() as int)[k] == all[k]);
            }
            assert(all.subrange(0, c.entries.len() as int) =~= c.entries);
        }
    }
}

/// Inside a `<CdtDbtInd>`, any text but `CRDT` or `DBIT` ends the read with
/// an error.
pub proof fn lemma_unknown_indicator_fails(
    evs: Seq<(int, Seq<char>, Seq<(Seq<char>, Seq<char>)>)>,
    i: int,
)
    requires
        0 <= i < evs.len(),
        cursor_after(evs.subrange(0, i)) is Ok,
        ({
            let c = cursor_after(evs.subrange(0, i))->Ok_0;
            c.in_cdt_dbt
        }),
        evs[i].0 == 1,
        xml_unescaped_of(evs[i].1) is Ok,
        xml_unescaped_of(evs[i].1)->Ok_0 != "CRDT"@,
        xml_unescaped_of(evs[i].1)->Ok_0 != "DBIT"@,
    ensures
        camt_statement(evs) is Err,
{
    assert(evs.subrange(0, i + 1).drop_last() =~= evs.subrange(0, i));
    assert(cursor_after(evs.subrange(0, i + 1)) is Err);
    lemma_cursor_error_stays(evs, i + 1);
}

} // verus!
