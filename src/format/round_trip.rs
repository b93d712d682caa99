//! What survives writing a statement as MT940 and reading it back.
use crate::adapter::statement::{kind_of, BalanceView, DebitCredit, EntryView, StatementView};
use crate::format::mt940::{
    amount_end, balance_line, balance_text, comma_decimal, comma_index, describe_last, entries_text,
    entry_lines, entry_of, finish_scan, initial_scan, is_amount_char, is_ascii_letter,
    join_description, lemma_amount_end, lemma_letters_end, letters_end, line_text, mmdd_of,
    mt940_read, mt940_write, parse_balance_spec, parse_mt940_spec, parse_tx_spec, reference_text,
    scan_lines, scan_step, short_date, sign_text, statement_of, tag_rest, two_decimals, tx_text,
    type_code_text, amount_writable, mt940_writable, Mt940BalanceView, ScanState, TransactionView,
};
use crate::text::{
    has_prefix, is_trimmed, is_ws, join_lines, lemma_join_lines_add, lemma_lines_of_joined,
    lemma_text_lines_no_newline, lemma_trim_is_trimmed, lemma_trim_no_newline,
    lemma_trim_of_trimmed, no_newline, strip_cr, text_lines,
};
use vstd::prelude::*;

verus! {

/// A balance as the MT940 reader yields it.
pub open spec fn shaped_balance(b: Option<BalanceView>) -> bool {
    &&& b is Some
    &&& b->0.date_yyymmdd.len() == 6
    &&& b->0.currency.len() == 3
    &&& no_newline(b->0.date_yyymmdd)
    &&& no_newline(b->0.currency)
    &&& no_newline(b->0.amount)
    &&& b->0.amount.len() > 0 ==> !is_ws(b->0.amount.last())
}

/// An entry as the MT940 reader yields it, in the statement's currency.
pub open spec fn shaped_entry(e: EntryView, currency: Seq<char>) -> bool {
    &&& e.value_date.len() == 6
    &&& no_newline(e.value_date)
    &&& !is_ws(e.value_date[0])
    &&& e.booking_date.len() == 6
    &&& e.booking_date.subrange(0, 2) == e.value_date.subrange(0, 2)
    &&& no_newline(e.booking_date)
    &&& e.amount.len() > 0
    &&& forall|k: int| 0 <= k < e.amount.len() ==> is_amount_char(#[trigger] e.amount[k])
    &&& e.reference is Some
    &&& no_newline(e.reference->0)
    &&& e.reference->0.len() > 0 ==> !is_ascii_letter(e.reference->0[0]) && !is_ws(
        e.reference->0.last(),
    )
    &&& is_trimmed(e.description)
    &&& no_newline(e.description)
    &&& e.currency == currency
}

/// A statement as the MT940 reader yields it.
pub open spec fn mt940_shaped(st: StatementView) -> bool {
    &&& st.id.len() > 0
    &&& is_trimmed(st.id)
    &&& no_newline(st.id)
    &&& st.account_id.len() > 0
    &&& is_trimmed(st.account_id)
    &&& no_newline(st.account_id)
    &&& shaped_balance(st.opening_balance)
    &&& shaped_balance(st.closing_balance)
    &&& forall|i: int|
        0 <= i < st.entries.len() ==> shaped_entry(
            #[trigger] st.entries[i],
            st.opening_balance->0.currency,
        )
}

pub open spec fn normalized_balance(b: Option<BalanceView>) -> Option<BalanceView> {
    match b {
        Some(x) => Some(BalanceView { amount: two_decimals(comma_decimal(x.amount)), ..x }),
        None => None,
    }
}

/// The statement with its balance amounts in the form the MT940 writer gives them.
pub open spec fn normalized(st: StatementView) -> StatementView {
    StatementView {
        opening_balance: normalized_balance(st.opening_balance),
        closing_balance: normalized_balance(st.closing_balance),
        ..st
    }
}

pub open spec fn entries_lines(es: Seq<EntryView>) -> Seq<Seq<char>>
    decreases es.len(),
{
    if es.len() == 0 {
        Seq::empty()
    } else {
        entries_lines(es.drop_last()) + seq![":61:"@ + tx_text(es.last()), ":86:"@ + es.last().description]
    }
}

pub open spec fn balance_lines(tag: Seq<char>, b: Option<BalanceView>) -> Seq<Seq<char>> {
    match b {
        Some(x) => seq![tag + balance_text(x)],
        None => Seq::empty(),
    }
}

/// The lines of a statement's MT940 text.
pub open spec fn write_lines(st: StatementView) -> Seq<Seq<char>> {
    seq![":20:"@ + st.id, ":25:"@ + st.account_id] + balance_lines(":60F:"@, st.opening_balance)
        + entries_lines(st.entries) + balance_lines(":62F:"@, st.closing_balance)
}

proof fn lemma_one_line(tag: Seq<char>, body: Seq<char>)
    ensures
        line_text(tag, body) == join_lines(seq![tag + body]),
{
    let one = seq![tag + body];
    assert(one.drop_last() =~= Seq::<Seq<char>>::empty());
    assert(join_lines(one.drop_last()) == Seq::<char>::empty());
    assert(one.last() == tag + body);
    assert(join_lines(one) == join_lines(one.drop_last()) + one.last() + seq!['\n']);
    assert(line_text(tag, body) =~= join_lines(one));
}

proof fn lemma_entries_joined(es: Seq<EntryView>)
    ensures
        entries_text(es) == join_lines(entries_lines(es)),
    decreases es.len(),
{
    if es.len() > 0 {
        lemma_entries_joined(es.drop_last());
        let e = es.last();
        let pair = seq![":61:"@ + tx_text(e), ":86:"@ + e.description];
        lemma_join_lines_add(entries_lines(es.drop_last()), pair);
        assert(pair.drop_last() =~= seq![":61:"@ + tx_text(e)]);
        lemma_one_line(":61:"@, tx_text(e));
        assert(seq![":61:"@ + tx_text(e)].drop_last() =~= Seq::<Seq<char>>::empty());
        assert(join_lines(pair) =~= entry_lines(e));
    }
}

proof fn lemma_balance_joined(tag: Seq<char>, b: Option<BalanceView>)
    ensures
        balance_line(tag, b) == join_lines(balance_lines(tag, b)),
{
    if b is Some {
        lemma_one_line(tag, balance_text(b->0));
    }
}

proof fn lemma_write_joined(st: StatementView)
    ensures
        mt940_write(st) == join_lines(write_lines(st)),
{
    let head = seq![":20:"@ + st.id, ":25:"@ + st.account_id];
    let o = balance_lines(":60F:"@, st.opening_balance);
    let es = entries_lines(st.entries);
    let c = balance_lines(":62F:"@, st.closing_balance);
    lemma_join_lines_add(head + o + es, c);
    lemma_join_lines_add(head + o, es);
    lemma_join_lines_add(head, o);
    lemma_one_line(":20:"@, st.id);
    lemma_one_line(":25:"@, st.account_id);
    lemma_join_lines_add(seq![":20:"@ + st.id], seq![":25:"@ + st.account_id]);
    assert(seq![":20:"@ + st.id] + seq![":25:"@ + st.account_id] =~= head);
    lemma_balance_joined(":60F:"@, st.opening_balance);
    lemma_balance_joined(":62F:"@, st.closing_balance);
    lemma_entries_joined(st.entries);
    assert(mt940_write(st) =~= join_lines(write_lines(st)));
}

/// The scanner run from a given state.
pub open spec fn scan_from(s0: ScanState, ls: Seq<Seq<char>>) -> Result<ScanState, Seq<char>>
    decreases ls.len(),
{
    if ls.len() == 0 {
        Ok(s0)
    } else {
        match scan_from(s0, ls.drop_last()) {
            Ok(s) => scan_step(s, ls.last()),
            Err(e) => Err(e),
        }
    }
}

proof fn lemma_scan_lines_from(ls: Seq<Seq<char>>)
    ensures
        scan_lines(ls) == scan_from(initial_scan(), ls),
    decreases ls.len(),
{
    if ls.len() > 0 {
        lemma_scan_lines_from(ls.drop_last());
    }
}

proof fn lemma_scan_from_add(s0: ScanState, a: Seq<Seq<char>>, b: Seq<Seq<char>>)
    ensures
        scan_from(s0, a + b) == match scan_from(s0, a) {
            Ok(s1) => scan_from(s1, b),
            Err(e) => Err(e),
        },
    decreases b.len(),
{
    if b.len() == 0 {
        assert(a + b =~= a);
    } else {
        assert((a + b).drop_last() =~= a + b.drop_last());
        lemma_scan_from_add(s0, a, b.drop_last());
    }
}

proof fn lemma_tags()
    ensures
        ":20:"@ =~= seq![':', '2', '0', ':'],
        ":25:"@ =~= seq![':', '2', '5', ':'],
        ":60F:"@ =~= seq![':', '6', '0', 'F', ':'],
        ":61:"@ =~= seq![':', '6', '1', ':'],
        ":86:"@ =~= seq![':', '8', '6', ':'],
        ":62F:"@ =~= seq![':', '6', '2', 'F', ':'],
        type_code_text() =~= seq!['N', 'T', 'R', 'F'],
{
    reveal_strlit(":20:");
    reveal_strlit(":25:");
    reveal_strlit(":60F:");
    reveal_strlit(":61:");
    reveal_strlit(":86:");
    reveal_strlit(":62F:");
    reveal_strlit("NTRF");
}

proof fn lemma_not_prefix(line: Seq<char>, tag: Seq<char>, k: int)
    requires
        0 <= k < tag.len(),
        k < line.len(),
        line[k] != tag[k],
    ensures
        !has_prefix(line, tag),
{
    if has_prefix(line, tag) {
        assert(line.subrange(0, tag.len() as int)[k] == line[k]);
    }
}

proof fn lemma_prefix(tag: Seq<char>, body: Seq<char>)
    ensures
        has_prefix(tag + body, tag),
        (tag + body).subrange(tag.len() as int, (tag + body).len() as int) == body,
{
    assert((tag + body).subrange(0, tag.len() as int) =~= tag);
    assert((tag + body).subrange(tag.len() as int, (tag + body).len() as int) =~= body);
}

/// The rest of a tagged line after its tag, trimmed, when the body is trimmed.
proof fn lemma_tag_rest(tag: Seq<char>, body: Seq<char>)
    requires
        is_trimmed(body),
    ensures
        has_prefix(tag + body, tag),
        tag_rest(tag + body, tag) == body,
{
    lemma_prefix(tag, body);
    lemma_trim_of_trimmed(body);
}

/// The balance field as the reader gets it back from the writer.
pub open spec fn reread_balance(b: BalanceView) -> Mt940BalanceView {
    Mt940BalanceView {
        credit: b.kind == DebitCredit::Credit,
        date: b.date_yyymmdd,
        currency: b.currency,
        amount: two_decimals(comma_decimal(b.amount)),
    }
}

proof fn lemma_comma_decimal(a: Seq<char>)
    ensures
        comma_decimal(a).len() == a.len(),
        no_newline(a) ==> no_newline(comma_decimal(a)),
        a.len() > 0 && !is_ws(a.last()) ==> !is_ws(comma_decimal(a).last()),
{
}

proof fn lemma_two_decimals(a: Seq<char>)
    requires
        no_newline(a),
        a.len() > 0 ==> !is_ws(a.last()),
    ensures
        two_decimals(a).len() >= 3,
        no_newline(two_decimals(a)),
        !is_ws(two_decimals(a).last()),
{
    let p = comma_index(a, 0);
    lemma_comma_index(a, 0);
    let t = two_decimals(a);
    assert forall|k: int| 0 <= k < t.len() implies t[k] != '\n' by {
        if k < a.len() {
            assert(t[k] == a[k]);
        }
    }
}

proof fn lemma_comma_index(a: Seq<char>, i: int)
    requires
        0 <= i <= a.len(),
    ensures
        i <= comma_index(a, i) <= a.len(),
    decreases a.len() - i,
{
    if i < a.len() && a[i] != ',' {
        lemma_comma_index(a, i + 1);
    }
}

proof fn lemma_balance_parse(b: BalanceView)
    requires
        shaped_balance(Some(b)),
    ensures
        is_trimmed(balance_text(b)),
        no_newline(balance_text(b)),
        parse_balance_spec(balance_text(b)) == Ok::<Mt940BalanceView, Seq<char>>(
            reread_balance(b),
        ),
{
    lemma_comma_decimal(b.amount);
    let a = comma_decimal(b.amount);
    lemma_two_decimals(a);
    let amt = two_decimals(a);
    let s = balance_text(b);
    assert(short_date(b.date_yyymmdd) == b.date_yyymmdd);
    assert(s == sign_text(b.kind) + b.date_yyymmdd + b.currency + amt);
    assert(s.len() == 10 + amt.len());
    assert(s[0] == 'C' || s[0] == 'D');
    assert(s.last() == amt.last());
    assert(s.subrange(1, 7) =~= b.date_yyymmdd);
    assert(s.subrange(7, 10) =~= b.currency);
    assert(s.subrange(10, s.len() as int) =~= amt);
    assert forall|k: int| 0 <= k < s.len() implies s[k] != '\n' by {
        if k >= 10 {
            assert(s[k] == amt[k - 10]);
        } else if k >= 7 {
            assert(s[k] == b.currency[k - 7]);
        } else if k >= 1 {
            assert(s[k] == b.date_yyymmdd[k - 1]);
        }
    }
}

proof fn lemma_amount_end_at(s: Seq<char>, i: int, j: int)
    requires
        0 <= i <= j <= s.len(),
        forall|k: int| i <= k < j ==> is_amount_char(#[trigger] s[k]),
        j == s.len() || !is_amount_char(s[j]),
    ensures
        amount_end(s, i) == j,
    decreases j - i,
{
    if i < j {
        lemma_amount_end_at(s, i + 1, j);
    }
}

proof fn lemma_letters_end_at(s: Seq<char>, i: int, j: int)
    requires
        0 <= i <= j <= s.len(),
        forall|k: int| i <= k < j ==> is_ascii_letter(#[trigger] s[k]),
        j == s.len() || !is_ascii_letter(s[j]),
    ensures
        letters_end(s, i) == j,
    decreases j - i,
{
    if i < j {
        lemma_letters_end_at(s, i + 1, j);
    }
}

/// The transaction as the reader gets it back from an entry's `:61:` line.
pub open spec fn reread_tx(e: EntryView) -> TransactionView {
    TransactionView {
        date: e.value_date,
        entry_mmdd: mmdd_of(e.booking_date),
        is_credit: e.kind == DebitCredit::Credit,
        amount: e.amount,
        type_code: type_code_text(),
        reference: reference_text(e.reference),
        description: Seq::empty(),
    }
}

proof fn lemma_tx_parse(e: EntryView, currency: Seq<char>)
    requires
        shaped_entry(e, currency),
    ensures
        is_trimmed(tx_text(e)),
        no_newline(tx_text(e)),
        parse_tx_spec(tx_text(e)) == Ok::<TransactionView, Seq<char>>(reread_tx(e)),
{
    lemma_tags();
    let r = reference_text(e.reference);
    let mmdd = mmdd_of(e.booking_date);
    let n = e.amount.len() as int;
    let s = tx_text(e);
    assert(mmdd =~= e.booking_date.subrange(2, 6));
    assert(s == e.value_date + mmdd + sign_text(e.kind) + e.amount + type_code_text() + r);
    assert(s.len() == 15 + n + r.len());
    assert(s[10] == 'C' || s[10] == 'D');
    assert forall|k: int| 11 <= k < 11 + n implies is_amount_char(#[trigger] s[k]) by {
        assert(s[k] == e.amount[k - 11]);
    }
    assert(s[11 + n] == 'N');
    lemma_amount_end_at(s, 11, 11 + n);
    assert forall|k: int| 11 + n <= k < 15 + n implies is_ascii_letter(#[trigger] s[k]) by {
        assert(s[k] == type_code_text()[k - 11 - n]);
    }
    if r.len() > 0 {
        assert(s[15 + n] == r[0]);
    }
    lemma_letters_end_at(s, 11 + n, 15 + n);
    assert(s.subrange(0, 6) =~= e.value_date);
    assert(s.subrange(6, 10) =~= mmdd);
    assert(s.subrange(11, 11 + n) =~= e.amount);
    assert(s.subrange(11 + n, 15 + n) =~= type_code_text());
    assert(s.subrange(15 + n, s.len() as int) =~= r);
    assert(s[0] == e.value_date[0]);
    if r.len() > 0 {
        assert(s.last() == r.last());
    } else {
        assert(s.last() == 'F');
    }
    assert forall|k: int| 0 <= k < s.len() implies s[k] != '\n' by {
        if k >= 15 + n {
            assert(s[k] == r[k - 15 - n]);
        } else if k >= 11 + n {
        } else if k >= 11 {
        } else if k >= 10 {
        } else if k >= 6 {
            assert(s[k] == e.booking_date[k - 4]);
        } else {
            assert(s[k] == e.value_date[k]);
        }
    }
}

/// The transaction read back from an entry's `:61:` and `:86:` lines.
pub open spec fn reread_entry_tx(e: EntryView) -> TransactionView {
    TransactionView { description: e.description, ..reread_tx(e) }
}

pub open spec fn reread_txs(es: Seq<EntryView>) -> Seq<TransactionView> {
    es.map_values(|e: EntryView| reread_entry_tx(e))
}

proof fn lemma_scan_from_one(s: ScanState, l: Seq<char>)
    ensures
        scan_from(s, seq![l]) == scan_step(s, l),
{
    assert(seq![l].drop_last() =~= Seq::<Seq<char>>::empty());
    assert(scan_from(s, Seq::<Seq<char>>::empty()) == Ok::<ScanState, Seq<char>>(s));
    assert(seq![l].last() == l);
}

proof fn lemma_scan_id(s: ScanState, id: Seq<char>)
    requires
        is_trimmed(id),
    ensures
        scan_step(s, ":20:"@ + id) == Ok::<ScanState, Seq<char>>(ScanState { reference: id, ..s }),
{
    lemma_tags();
    lemma_tag_rest(":20:"@, id);
}

proof fn lemma_scan_account(s: ScanState, acc: Seq<char>)
    requires
        is_trimmed(acc),
    ensures
        scan_step(s, ":25:"@ + acc) == Ok::<ScanState, Seq<char>>(
            ScanState { account_id: acc, ..s },
        ),
{
    lemma_tags();
    lemma_not_prefix(":25:"@ + acc, ":20:"@, 2);
    lemma_tag_rest(":25:"@, acc);
}

#[verifier::rlimit(40)]
proof fn lemma_scan_opening(s: ScanState, b: BalanceView)
    requires
        shaped_balance(Some(b)),
    ensures
        scan_step(s, ":60F:"@ + balance_text(b)) == Ok::<ScanState, Seq<char>>(
            ScanState { opening: Some(reread_balance(b)), ..s },
        ),
{
    lemma_tags();
    lemma_balance_parse(b);
    let line = ":60F:"@ + balance_text(b);
    lemma_not_prefix(line, ":20:"@, 1);
    lemma_not_prefix(line, ":25:"@, 1);
    lemma_tag_rest(":60F:"@, balance_text(b));
    assert(line.len() > 0);
    assert(parse_balance_spec(tag_rest(line, ":60F:"@)) == Ok::<Mt940BalanceView, Seq<char>>(
        reread_balance(b),
    ));
}

#[verifier::rlimit(40)]
proof fn lemma_scan_closing(s: ScanState, b: BalanceView)
    requires
        shaped_balance(Some(b)),
    ensures
        scan_step(s, ":62F:"@ + balance_text(b)) == Ok::<ScanState, Seq<char>>(
            ScanState { closing: Some(reread_balance(b)), ..s },
        ),
{
    lemma_tags();
    lemma_balance_parse(b);
    let line = ":62F:"@ + balance_text(b);
    lemma_not_prefix(line, ":20:"@, 1);
    lemma_not_prefix(line, ":25:"@, 1);
    lemma_not_prefix(line, ":60F:"@, 2);
    lemma_not_prefix(line, ":61:"@, 2);
    lemma_not_prefix(line, ":86:"@, 1);
    lemma_tag_rest(":62F:"@, balance_text(b));
    assert(line.len() > 0);
    assert(parse_balance_spec(tag_rest(line, ":62F:"@)) == Ok::<Mt940BalanceView, Seq<char>>(
        reread_balance(b),
    ));
}

proof fn lemma_scan_entry(s: ScanState, e: EntryView, currency: Seq<char>)
    requires
        shaped_entry(e, currency),
    ensures
        scan_from(s, seq![":61:"@ + tx_text(e), ":86:"@ + e.description]) == Ok::<
            ScanState,
            Seq<char>,
        >(ScanState { transactions: s.transactions.push(reread_entry_tx(e)), needs_86: false, ..s }),
{
    lemma_tags();
    lemma_tx_parse(e, currency);
    let l61 = ":61:"@ + tx_text(e);
    let l86 = ":86:"@ + e.description;
    lemma_not_prefix(l61, ":20:"@, 1);
    lemma_not_prefix(l61, ":25:"@, 1);
    lemma_not_prefix(l61, ":60F:"@, 2);
    lemma_tag_rest(":61:"@, tx_text(e));
    lemma_not_prefix(l86, ":20:"@, 1);
    lemma_not_prefix(l86, ":25:"@, 1);
    lemma_not_prefix(l86, ":60F:"@, 1);
    lemma_not_prefix(l86, ":61:"@, 1);
    lemma_tag_rest(":86:"@, e.description);
    let s1 = ScanState { transactions: s.transactions.push(reread_tx(e)), needs_86: true, ..s };
    assert(scan_step(s, l61) == Ok::<ScanState, Seq<char>>(s1));
    let pair = seq![l61, l86];
    assert(pair.drop_last() =~= seq![l61]);
    lemma_scan_from_one(s, l61);
    assert(join_description(Seq::empty(), e.description) == e.description);
    assert(describe_last(s1.transactions, e.description) =~= s.transactions.push(
        reread_entry_tx(e),
    ));
}

proof fn lemma_scan_entries(s: ScanState, es: Seq<EntryView>, currency: Seq<char>)
    requires
        forall|i: int| 0 <= i < es.len() ==> shaped_entry(#[trigger] es[i], currency),
    ensures
        scan_from(s, entries_lines(es)) == Ok::<ScanState, Seq<char>>(
            ScanState {
                transactions: s.transactions + reread_txs(es),
                needs_86: if es.len() > 0 {
                    false
                } else {
                    s.needs_86
                },
                ..s
            },
        ),
    decreases es.len(),
{
    if es.len() == 0 {
        assert(s.transactions + reread_txs(es) =~= s.transactions);
    } else {
        let prev = es.drop_last();
        assert forall|i: int| 0 <= i < prev.len() implies shaped_entry(#[trigger] prev[i], currency) by {
            assert(prev[i] == es[i]);
        }
        lemma_scan_entries(s, prev, currency);
        let e = es.last();
        assert(shaped_entry(es[es.len() - 1], currency));
        let pair = seq![":61:"@ + tx_text(e), ":86:"@ + e.description];
        lemma_scan_from_add(s, entries_lines(prev), pair);
        let s1 = ScanState {
            transactions: s.transactions + reread_txs(prev),
            needs_86: if prev.len() > 0 {
                false
            } else {
                s.needs_86
            },
            ..s
        };
        lemma_scan_entry(s1, e, currency);
        assert(s.transactions + reread_txs(prev) + seq![reread_entry_tx(e)] =~= s.transactions
            + reread_txs(es));
        assert((s.transactions + reread_txs(prev)).push(reread_entry_tx(e)) =~= s.transactions
            + reread_txs(es));
    }
}

/// A line that holds no newline and does not end in a carriage return.
pub open spec fn clean_line(l: Seq<char>) -> bool {
    no_newline(l) && strip_cr(l) == l
}

pub open spec fn all_clean(ls: Seq<Seq<char>>) -> bool {
    forall|i: int| 0 <= i < ls.len() ==> clean_line(#[trigger] ls[i])
}

proof fn lemma_all_clean_add(a: Seq<Seq<char>>, b: Seq<Seq<char>>)
    requires
        all_clean(a),
        all_clean(b),
    ensures
        all_clean(a + b),
{
    assert forall|i: int| 0 <= i < (a + b).len() implies clean_line(#[trigger] (a + b)[i]) by {
        if i < a.len() {
            assert((a + b)[i] == a[i]);
        } else {
            assert((a + b)[i] == b[i - a.len()]);
        }
    }
}

proof fn lemma_clean(tag: Seq<char>, body: Seq<char>)
    requires
        tag.len() > 0,
        no_newline(tag),
        tag.last() != '\r',
        no_newline(body),
        body.len() > 0 ==> !is_ws(body.last()),
    ensures
        clean_line(tag + body),
{
    let l = tag + body;
    assert forall|k: int| 0 <= k < l.len() implies l[k] != '\n' by {
        if k >= tag.len() {
            assert(l[k] == body[k - tag.len()]);
        } else {
            assert(l[k] == tag[k]);
        }
    }
    if body.len() > 0 {
        assert(l.last() == body.last());
    } else {
        assert(l.last() == tag.last());
    }
}

proof fn lemma_entries_clean(es: Seq<EntryView>, currency: Seq<char>)
    requires
        forall|i: int| 0 <= i < es.len() ==> shaped_entry(#[trigger] es[i], currency),
    ensures
        all_clean(entries_lines(es)),
    decreases es.len(),
{
    if es.len() > 0 {
        let prev = es.drop_last();
        assert forall|i: int| 0 <= i < prev.len() implies shaped_entry(#[trigger] prev[i], currency) by {
            assert(prev[i] == es[i]);
        }
        lemma_entries_clean(prev, currency);
        let e = es.last();
        assert(shaped_entry(es[es.len() - 1], currency));
        lemma_tags();
        lemma_tx_parse(e, currency);
        lemma_clean(":61:"@, tx_text(e));
        lemma_clean(":86:"@, e.description);
        let pair = seq![":61:"@ + tx_text(e), ":86:"@ + e.description];
        assert(all_clean(pair));
        lemma_all_clean_add(entries_lines(prev), pair);
    }
}

proof fn lemma_balance_clean(tag: Seq<char>, b: Option<BalanceView>)
    requires
        tag.len() > 0,
        no_newline(tag),
        tag.last() != '\r',
        shaped_balance(b),
    ensures
        all_clean(balance_lines(tag, b)),
{
    lemma_balance_parse(b->0);
    lemma_clean(tag, balance_text(b->0));
}

/// Writing a statement of the shape that the MT940 reader yields and reading
/// the text back gives the same statement, its balance amounts written with
/// a decimal comma and two decimals.
pub proof fn lemma_mt940_write_read(st: StatementView)
    requires
        mt940_shaped(st),
    ensures
        mt940_read(mt940_write(st)) == Ok::<StatementView, Seq<char>>(normalized(st)),
{
    lemma_tags();
    let cur = st.opening_balance->0.currency;
    let o = st.opening_balance->0;
    let c = st.closing_balance->0;
    lemma_write_joined(st);
    let head = seq![":20:"@ + st.id, ":25:"@ + st.account_id];
    let ol = balance_lines(":60F:"@, st.opening_balance);
    let el = entries_lines(st.entries);
    let cl = balance_lines(":62F:"@, st.closing_balance);
    let ls = write_lines(st);
    assert(ls == head + ol + el + cl);
    lemma_clean(":20:"@, st.id);
    lemma_clean(":25:"@, st.account_id);
    assert(all_clean(head));
    lemma_balance_clean(":60F:"@, st.opening_balance);
    lemma_balance_clean(":62F:"@, st.closing_balance);
    lemma_entries_clean(st.entries, cur);
    lemma_all_clean_add(head, ol);
    lemma_all_clean_add(head + ol, el);
    lemma_all_clean_add(head + ol + el, cl);
    assert forall|i: int| 0 <= i < ls.len() implies no_newline(#[trigger] ls[i]) by {
        assert(clean_line(ls[i]));
    }
    assert forall|i: int| 0 <= i < ls.len() implies strip_cr(#[trigger] ls[i]) == ls[i] by {
        assert(clean_line(ls[i]));
    }
    lemma_lines_of_joined(ls);
    lemma_scan_lines_from(ls);
    lemma_scan_from_add(initial_scan(), head + ol + el, cl);
    lemma_scan_from_add(initial_scan(), head + ol, el);
    lemma_scan_from_add(initial_scan(), head, ol);
    let s0 = initial_scan();
    let s1 = ScanState { reference: st.id, ..s0 };
    let s2 = ScanState { account_id: st.account_id, ..s1 };
    lemma_scan_id(s0, st.id);
    lemma_scan_account(s1, st.account_id);
    assert(head.drop_last() =~= seq![":20:"@ + st.id]);
    lemma_scan_from_one(s0, ":20:"@ + st.id);
    assert(scan_from(s0, head) == Ok::<ScanState, Seq<char>>(s2));
    let s3 = ScanState { opening: Some(reread_balance(o)), ..s2 };
    lemma_scan_opening(s2, o);
    assert(ol =~= seq![":60F:"@ + balance_text(o)]);
    lemma_scan_from_one(s2, ":60F:"@ + balance_text(o));
    lemma_scan_entries(s3, st.entries, cur);
    let s4 = ScanState {
        transactions: s3.transactions + reread_txs(st.entries),
        needs_86: if st.entries.len() > 0 {
            false
        } else {
            s3.needs_86
        },
        ..s3
    };
    assert(scan_from(s3, el) == Ok::<ScanState, Seq<char>>(s4));
    let s5 = ScanState { closing: Some(reread_balance(c)), ..s4 };
    lemma_scan_closing(s4, c);
    assert(cl =~= seq![":62F:"@ + balance_text(c)]);
    lemma_scan_from_one(s4, ":62F:"@ + balance_text(c));
    assert(scan_lines(text_lines(mt940_write(st))) == Ok::<ScanState, Seq<char>>(s5));
    assert(s5.transactions =~= reread_txs(st.entries));
    let m = finish_scan(s5)->Ok_0;
    assert(parse_mt940_spec(mt940_write(st)) == Ok::<_, Seq<char>>(m));
    let back = statement_of(m);
    assert(back.opening_balance == normalized_balance(st.opening_balance)) by {
        assert(kind_of(o.kind == DebitCredit::Credit) == o.kind);
    }
    assert(back.closing_balance == normalized_balance(st.closing_balance)) by {
        assert(kind_of(c.kind == DebitCredit::Credit) == c.kind);
    }
    assert forall|i: int| 0 <= i < st.entries.len() implies #[trigger] back.entries[i]
        == st.entries[i] by {
        let e = st.entries[i];
        assert(shaped_entry(e, cur));
        assert(m.transactions[i] == reread_entry_tx(e));
        assert(kind_of(e.kind == DebitCredit::Credit) == e.kind);
        assert(mmdd_of(e.booking_date) =~= e.booking_date.subrange(2, 6));
        assert(e.value_date.subrange(0, 2) + e.booking_date.subrange(2, 6) =~= e.booking_date);
        assert(reference_text(e.reference) == e.reference->0);
    }
    assert(back.entries =~= st.entries);
    assert(back =~= normalized(st));
}

/// A balance field as the scanner yields it.
pub open spec fn field_shaped(b: Mt940BalanceView) -> bool {
    &&& b.date.len() == 6
    &&& b.currency.len() == 3
    &&& no_newline(b.date)
    &&& no_newline(b.currency)
    &&& no_newline(b.amount)
    &&& b.amount.len() > 0 ==> !is_ws(b.amount.last())
}

/// A transaction as the scanner yields it.
pub open spec fn tx_shaped(t: TransactionView) -> bool {
    &&& t.date.len() == 6
    &&& no_newline(t.date)
    &&& !is_ws(t.date[0])
    &&& t.entry_mmdd.len() == 4
    &&& no_newline(t.entry_mmdd)
    &&& t.amount.len() > 0
    &&& forall|k: int| 0 <= k < t.amount.len() ==> is_amount_char(#[trigger] t.amount[k])
    &&& no_newline(t.reference)
    &&& t.reference.len() > 0 ==> !is_ascii_letter(t.reference[0]) && !is_ws(t.reference.last())
    &&& is_trimmed(t.description)
    &&& no_newline(t.description)
}

/// What the scanner has collected is always of the reader's shape.
pub open spec fn scan_shaped(s: ScanState) -> bool {
    &&& is_trimmed(s.reference)
    &&& no_newline(s.reference)
    &&& is_trimmed(s.account_id)
    &&& no_newline(s.account_id)
    &&& s.opening is Some ==> field_shaped(s.opening->0)
    &&& s.closing is Some ==> field_shaped(s.closing->0)
    &&& forall|i: int| 0 <= i < s.transactions.len() ==> tx_shaped(#[trigger] s.transactions[i])
    &&& s.needs_86 ==> s.transactions.len() > 0 && s.transactions.last().description.len() == 0
}

proof fn lemma_rest_shaped(line: Seq<char>, tag: Seq<char>)
    requires
        no_newline(line),
        tag.len() <= line.len(),
    ensures
        is_trimmed(tag_rest(line, tag)),
        no_newline(tag_rest(line, tag)),
{
    let rest = line.subrange(tag.len() as int, line.len() as int);
    assert forall|k: int| 0 <= k < rest.len() implies rest[k] != '\n' by {
        assert(rest[k] == line[k + tag.len()]);
    }
    lemma_trim_is_trimmed(rest);
    lemma_trim_no_newline(rest);
}

proof fn lemma_field_shaped(s: Seq<char>)
    requires
        is_trimmed(s),
        no_newline(s),
        parse_balance_spec(s) is Ok,
    ensures
        field_shaped(parse_balance_spec(s)->Ok_0),
{
    let b = parse_balance_spec(s)->Ok_0;
    assert forall|k: int| 0 <= k < b.date.len() implies b.date[k] != '\n' by {
        assert(b.date[k] == s[k + 1]);
    }
    assert forall|k: int| 0 <= k < b.currency.len() implies b.currency[k] != '\n' by {
        assert(b.currency[k] == s[k + 7]);
    }
    assert forall|k: int| 0 <= k < b.amount.len() implies b.amount[k] != '\n' by {
        assert(b.amount[k] == s[k + 10]);
    }
    if b.amount.len() > 0 {
        assert(b.amount.last() == s.last());
    }
}

proof fn lemma_tx_shaped(s: Seq<char>)
    requires
        is_trimmed(s),
        no_newline(s),
        parse_tx_spec(s) is Ok,
    ensures
        tx_shaped(parse_tx_spec(s)->Ok_0),
{
    let t = parse_tx_spec(s)->Ok_0;
    lemma_amount_end(s, 11);
    let a = amount_end(s, 11);
    lemma_letters_end(s, a);
    let e = letters_end(s, a);
    assert forall|k: int| 0 <= k < t.date.len() implies t.date[k] != '\n' by {
        assert(t.date[k] == s[k]);
    }
    assert(t.date[0] == s[0]);
    assert forall|k: int| 0 <= k < t.entry_mmdd.len() implies t.entry_mmdd[k] != '\n' by {
        assert(t.entry_mmdd[k] == s[k + 6]);
    }
    assert forall|k: int| 0 <= k < t.amount.len() implies is_amount_char(#[trigger] t.amount[k]) by {
        assert(t.amount[k] == s[k + 11]);
    }
    assert forall|k: int| 0 <= k < t.reference.len() implies t.reference[k] != '\n' by {
        assert(t.reference[k] == s[k + e]);
    }
    if t.reference.len() > 0 {
        assert(t.reference[0] == s[e]);
        assert(t.reference.last() == s.last());
    }
}

proof fn lemma_step_shaped(s: ScanState, line: Seq<char>)
    requires
        scan_shaped(s),
        no_newline(line),
        scan_step(s, line) is Ok,
    ensures
        scan_shaped(scan_step(s, line)->Ok_0),
{
    let n = scan_step(s, line)->Ok_0;
    if line.len() == 0 {
    } else if has_prefix(line, ":20:"@) {
        lemma_rest_shaped(line, ":20:"@);
    } else if has_prefix(line, ":25:"@) {
        lemma_rest_shaped(line, ":25:"@);
    } else if has_prefix(line, ":60F:"@) {
        lemma_rest_shaped(line, ":60F:"@);
        lemma_field_shaped(tag_rest(line, ":60F:"@));
    } else if has_prefix(line, ":61:"@) {
        lemma_rest_shaped(line, ":61:"@);
        lemma_tx_shaped(tag_rest(line, ":61:"@));
        let t = parse_tx_spec(tag_rest(line, ":61:"@))->Ok_0;
        assert(n.transactions == s.transactions.push(t));
        assert forall|i: int| 0 <= i < n.transactions.len() implies tx_shaped(
            #[trigger] n.transactions[i],
        ) by {
            if i < s.transactions.len() {
                assert(n.transactions[i] == s.transactions[i]);
            }
        }
    } else if has_prefix(line, ":86:"@) {
        if s.needs_86 {
            lemma_rest_shaped(line, ":86:"@);
            let more = tag_rest(line, ":86:"@);
            let last = s.transactions.last();
            assert(join_description(last.description, more) == more);
            assert(tx_shaped(s.transactions[s.transactions.len() - 1]));
            assert forall|i: int| 0 <= i < n.transactions.len() implies tx_shaped(
                #[trigger] n.transactions[i],
            ) by {
                if i < s.transactions.len() - 1 {
                    assert(n.transactions[i] == s.transactions[i]);
                }
            }
        }
    } else if has_prefix(line, ":62F:"@) {
        lemma_rest_shaped(line, ":62F:"@);
        lemma_field_shaped(tag_rest(line, ":62F:"@));
    }
}

proof fn lemma_scan_shaped(ls: Seq<Seq<char>>)
    requires
        forall|i: int| 0 <= i < ls.len() ==> no_newline(#[trigger] ls[i]),
        scan_lines(ls) is Ok,
    ensures
        scan_shaped(scan_lines(ls)->Ok_0),
    decreases ls.len(),
{
    if ls.len() > 0 {
        let prev = ls.drop_last();
        assert forall|i: int| 0 <= i < prev.len() implies no_newline(#[trigger] prev[i]) by {
            assert(prev[i] == ls[i]);
        }
        lemma_scan_shaped(prev);
        assert(no_newline(ls[ls.len() - 1]));
        lemma_step_shaped(scan_lines(prev)->Ok_0, ls.last());
    }
}

/// Every statement that the MT940 reader yields has the reader's shape.
pub proof fn lemma_read_shaped(text: Seq<char>)
    requires
        mt940_read(text) is Ok,
    ensures
        mt940_shaped(mt940_read(text)->Ok_0),
{
    lemma_text_lines_no_newline(text);
    lemma_scan_shaped(text_lines(text));
    let sc = scan_lines(text_lines(text))->Ok_0;
    let m = finish_scan(sc)->Ok_0;
    let st = statement_of(m);
    let cur = m.opening.currency;
    assert forall|i: int| 0 <= i < st.entries.len() implies shaped_entry(
        #[trigger] st.entries[i],
        cur,
    ) by {
        let t = m.transactions[i];
        assert(tx_shaped(t));
        let e = st.entries[i];
        assert(e == entry_of(t, cur));
        assert(e.booking_date.subrange(0, 2) =~= e.value_date.subrange(0, 2));
        assert forall|k: int| 0 <= k < e.booking_date.len() implies e.booking_date[k] != '\n' by {
            if k < 2 {
                assert(e.booking_date[k] == t.date[k]);
            } else {
                assert(e.booking_date[k] == t.entry_mmdd[k - 2]);
            }
        }
    }
}

/// Reading an MT940 text whose balances can be written, writing its
/// statement as MT940 and reading that back gives the same statement, with
/// balance amounts written with a decimal comma and two decimals; in
/// particular the same entries in the same order. The statement read back is
/// writable again and reading its text is a fixed point.
pub proof fn lemma_mt940_round_trip(text: Seq<char>)
    requires
        mt940_read(text) is Ok,
        mt940_writable(mt940_read(text)->Ok_0),
    ensures
        mt940_writable(normalized(mt940_read(text)->Ok_0)),
        mt940_read(mt940_write(mt940_read(text)->Ok_0)) == Ok::<StatementView, Seq<char>>(
            normalized(mt940_read(text)->Ok_0),
        ),
        mt940_read(mt940_write(mt940_read(text)->Ok_0))->Ok_0.entries == mt940_read(
            text,
        )->Ok_0.entries,
        mt940_read(mt940_write(normalized(mt940_read(text)->Ok_0))) == Ok::<
            StatementView,
            Seq<char>,
        >(normalized(mt940_read(text)->Ok_0)),
{
    let st = mt940_read(text)->Ok_0;
    lemma_read_shaped(text);
    lemma_mt940_write_read(st);
    let once = mt940_write(st);
    lemma_read_shaped(once);
    lemma_mt940_write_read(normalized(st));
    lemma_normalized_twice(st);
}

proof fn lemma_normalized_twice(st: StatementView)
    requires
        mt940_shaped(st),
        mt940_writable(st),
    ensures
        normalized(normalized(st)) == normalized(st),
        mt940_writable(normalized(st)),
{
    lemma_two_decimals_fixed(st.opening_balance->0.amount);
    lemma_two_decimals_fixed(st.closing_balance->0.amount);
}

proof fn lemma_comma_index_append(x: Seq<char>, y: Seq<char>, i: int)
    requires
        0 <= i <= x.len(),
    ensures
        comma_index(x, i) < x.len() ==> comma_index(x + y, i) == comma_index(x, i),
        comma_index(x, i) >= x.len() && y.len() > 0 && y[0] == ',' ==> comma_index(x + y, i)
            == x.len(),
    decreases x.len() - i,
{
    if i < x.len() {
        assert((x + y)[i] == x[i]);
        if x[i] != ',' {
            lemma_comma_index_append(x, y, i + 1);
        }
    } else {
        if y.len() > 0 {
            assert((x + y)[i] == y[0]);
        }
    }
}

proof fn lemma_two_decimals_fixed(a: Seq<char>)
    ensures
        two_decimals(comma_decimal(two_decimals(comma_decimal(a)))) == two_decimals(
            comma_decimal(a),
        ),
        amount_writable(a) ==> amount_writable(two_decimals(comma_decimal(a))),
{
    let c = comma_decimal(a);
    let t = two_decimals(c);
    let p = comma_index(c, 0);
    lemma_comma_index(c, 0);
    assert forall|k: int| 0 <= k < t.len() implies t[k] != '.' by {
        if k < c.len() {
            assert(t[k] == c[k]);
        }
    }
    assert(comma_decimal(t) =~= t);
    if p >= c.len() {
        lemma_comma_index_append(c, seq![',', '0', '0'], 0);
    } else if c.len() - p - 1 == 0 {
        lemma_comma_index_append(c, seq!['0', '0'], 0);
    } else if c.len() - p - 1 == 1 {
        lemma_comma_index_append(c, seq!['0'], 0);
    }
}

} // verus!
