use vstd::prelude::*;

verus! {

/// Indicates the type of transaction: debit (outflow) or credit (inflow).
#[derive(Debug, Clone, Copy, PartialEq, Eq, Structural)]
pub enum DebitCredit {
    /// A debit transaction (money out).
    Debit,
    /// A credit transaction (money in).
    Credit,
}

/// The kind that a credit flag stands for.
pub open spec fn kind_of(is_credit: bool) -> DebitCredit {
    if is_credit {
        DebitCredit::Credit
    } else {
        DebitCredit::Debit
    }
}

impl From<bool> for DebitCredit {
    fn from(is_credit: bool) -> (r: Self)
        ensures
            r == kind_of(is_credit),
    {
        if is_credit {
            DebitCredit::Credit
        } else {
            DebitCredit::Debit
        }
    }
}

impl vstd::std_specs::convert::FromSpecImpl<bool> for DebitCredit {
    open spec fn obeys_from_spec() -> bool {
        true
    }

    open spec fn from_spec(is_credit: bool) -> Self {
        kind_of(is_credit)
    }
}

/// Mathematical value of an [`Entry`].
pub struct EntryView {
    pub booking_date: Seq<char>,
    pub value_date: Seq<char>,
    pub amount: Seq<char>,
    pub currency: Seq<char>,
    pub kind: DebitCredit,
    pub description: Seq<char>,
    pub reference: Option<Seq<char>>,
}

/// Represents a single transaction entry within a financial statement.
#[derive(Debug, Clone, PartialEq)]
pub struct Entry {
    /// Date when the transaction was booked, as written in the source.
    pub booking_date: String,
    /// Date when the transaction value takes effect, as written in the source.
    pub value_date: String,
    /// Transaction amount as text, to preserve its exact form.
    pub amount: String,
    /// Currency code (e.g. "EUR", "USD").
    pub currency: String,
    /// Whether this is a debit or credit transaction.
    pub kind: DebitCredit,
    /// Description or purpose of the transaction.
    pub description: String,
    /// Optional reference or identifier provided by the bank.
    pub reference: Option<String>,
}

pub open spec fn opt_view(o: Option<String>) -> Option<Seq<char>> {
    match o {
        Some(s) => Some(s@),
        None => None,
    }
}

impl View for Entry {
    type V = EntryView;

    open spec fn view(&self) -> EntryView {
        EntryView {
            booking_date: self.booking_date@,
            value_date: self.value_date@,
            amount: self.amount@,
            currency: self.currency@,
            kind: self.kind,
            description: self.description@,
            reference: opt_view(self.reference),
        }
    }
}

/// Mathematical value of a [`Balance`].
pub struct BalanceView {
    pub kind: DebitCredit,
    pub date_yyymmdd: Seq<char>,
    pub currency: Seq<char>,
    pub amount: Seq<char>,
}

/// Represents an account balance at a specific date.
#[derive(Debug, Clone, PartialEq)]
pub struct Balance {
    /// Indicates whether the balance is debit or credit.
    pub kind: DebitCredit,
    /// Balance date, as written in the source.
    pub date_yyymmdd: String,
    /// Currency code (e.g. "EUR", "USD").
    pub currency: String,
    /// Account balance amount as text.
    pub amount: String,
}

impl View for Balance {
    type V = BalanceView;

    open spec fn view(&self) -> BalanceView {
        BalanceView {
            kind: self.kind,
            date_yyymmdd: self.date_yyymmdd@,
            currency: self.currency@,
            amount: self.amount@,
        }
    }
}

pub open spec fn balance_opt_view(o: Option<Balance>) -> Option<BalanceView> {
    match o {
        Some(b) => Some(b@),
        None => None,
    }
}

pub open spec fn entries_view(v: Seq<Entry>) -> Seq<EntryView> {
    v.map_values(|e: Entry| e@)
}

/// Mathematical value of a [`Statement`].
pub struct StatementView {
    pub id: Seq<char>,
    pub account_id: Seq<char>,
    pub opening_balance: Option<BalanceView>,
    pub entries: Seq<EntryView>,
    pub closing_balance: Option<BalanceView>,
}

/// Represents a full financial statement (e.g. one MT940 message).
#[derive(Debug, Clone, PartialEq)]
pub struct Statement {
    /// Identifier of the statement (e.g. `:20:` field in MT940).
    pub id: String,
    /// Account identifier (e.g. IBAN or account number).
    pub account_id: String,
    /// Opening balance (e.g. MT940 `:60F:` field).
    pub opening_balance: Option<Balance>,
    /// Transaction entries, in source order.
    pub entries: Vec<Entry>,
    /// Closing balance (e.g. MT940 `:62F:` field).
    pub closing_balance: Option<Balance>,
}

impl View for Statement {
    type V = StatementView;

    open spec fn view(&self) -> StatementView {
        StatementView {
            id: self.id@,
            account_id: self.account_id@,
            opening_balance: balance_opt_view(self.opening_balance),
            entries: entries_view(self.entries@),
            closing_balance: balance_opt_view(self.closing_balance),
        }
    }
}

} // verus!
