//! The structured-text projection of a record, and its inverse.
//!
//! A record is rendered as one structured-text document with the keys `id`,
//! `transactions_closed`, `transactions_open` and `transaction_queue`; the
//! queue is an ordered list of `{id, transaction_date}` objects, and each
//! `transaction_date` is an ISO-8601-style timestamp. The rendering is
//! specified character by character, the parser is specified as its exact
//! inverse on rendered documents, and the round trip is proved: parsing a
//! rendered projection reproduces every field of the record.

use vstd::prelude::*;
use std::collections::VecDeque;
use vstd::string::StringExecFns;
use vstd::string::StrSliceExecFns;
use crate::agent::Agent;
use crate::agent::AgentModel;
use crate::agent::Transaction;
use crate::timestamp::Timestamp;

verus! {

// ---------------------------------------------------------------------------
// Decimal digits
// ---------------------------------------------------------------------------
/// The character of one decimal digit.
pub open spec fn digit_char(d: int) -> char {
    (48 + d) as char
}

/// Whether a character is a decimal digit.
pub open spec fn is_digit(c: char) -> bool {
    48 <= c as int <= 57
}

/// The numeric value of a digit character.
pub open spec fn digit_val(c: char) -> nat {
    (c as int - 48) as nat
}

/// The decimal rendering of a non-negative number, most significant digit
/// first, without leading zeros (a lone zero renders as "0").
pub open spec fn dec_digits(n: nat) -> Seq<char>
    decreases n,
{
    if n <= 9 {
        seq![digit_char(n as int)]
    } else {
        dec_digits(n / 10).push(digit_char((n % 10) as int))
    }
}

/// The number a digit string denotes.
pub open spec fn digits_val(s: Seq<char>) -> nat
    decreases s.len(),
{
    if s.len() == 0 {
        0
    } else {
        digits_val(s.drop_last()) * 10 + digit_val(s.last())
    }
}

/// Whether every character of `s` is a digit.
pub open spec fn all_digits(s: Seq<char>) -> bool {
    forall|i: int| 0 <= i < s.len() ==> is_digit(#[trigger] s[i])
}

/// The length of the longest digit prefix of `s`.
pub open spec fn digit_run_len(s: Seq<char>) -> nat
    decreases s.len(),
{
    if s.len() == 0 || !is_digit(s[0]) {
        0
    } else {
        1 + digit_run_len(s.skip(1))
    }
}

/// A digit's character is a digit character, and reads back as its value.
pub proof fn lemma_digit_char_val(d: int)
    requires
        0 <= d <= 9,
    ensures
        is_digit(digit_char(d)),
        digit_val(digit_char(d)) == d,
{
    assert((48 + d) as char as int == 48 + d);
}

/// Reading the decimal rendering of a number back gives the number.
pub proof fn lemma_digits_val_of_dec(n: nat)
    ensures
        digits_val(dec_digits(n)) == n,
    decreases n,
{
    if n <= 9 {
        lemma_digit_char_val(n as int);
        assert(dec_digits(n).drop_last() =~= Seq::<char>::empty());
        assert(dec_digits(n).last() == digit_char(n as int));
        assert(digits_val(dec_digits(n)) == digits_val(Seq::<char>::empty()) * 10 + digit_val(
            digit_char(n as int),
        ));
    } else {
        lemma_digit_char_val((n % 10) as int);
        lemma_digits_val_of_dec(n / 10);
        assert(dec_digits(n).drop_last() =~= dec_digits(n / 10));
        assert(dec_digits(n).last() == digit_char((n % 10) as int));
        assert(digits_val(dec_digits(n)) == digits_val(dec_digits(n / 10)) * 10 + digit_val(
            digit_char((n % 10) as int),
        ));
        assert(n / 10 * 10 + n % 10 == n);
    }
}

/// A decimal rendering is a non-empty run of digits.
pub proof fn lemma_dec_digits_shape(n: nat)
    ensures
        dec_digits(n).len() >= 1,
        all_digits(dec_digits(n)),
    decreases n,
{
    if n > 9 {
        lemma_dec_digits_shape(n / 10);
    }
}

/// The digit run of `d + rest` is exactly `d` when `d` is all digits and
/// `rest` does not begin with one.
pub proof fn lemma_digit_run_of_concat(d: Seq<char>, rest: Seq<char>)
    requires
        all_digits(d),
        rest.len() == 0 || !is_digit(rest[0]),
    ensures
        digit_run_len(d + rest) == d.len(),
    decreases d.len(),
{
    if d.len() == 0 {
        assert(d + rest =~= rest);
    } else {
        assert((d + rest)[0] == d[0]);
        assert((d + rest).skip(1) =~= d.skip(1) + rest);
        lemma_digit_run_of_concat(d.skip(1), rest);
    }
}

/// A longer digit string never denotes a smaller number.
pub proof fn lemma_digits_val_monotone(s: Seq<char>, k: int)
    requires
        0 <= k <= s.len(),
    ensures
        digits_val(s) >= digits_val(s.take(k)),
    decreases s.len(),
{
    if k < s.len() {
        assert(s.drop_last().take(k) =~= s.take(k));
        lemma_digits_val_monotone(s.drop_last(), k);
    } else {
        assert(s.take(k) =~= s);
    }
}

/// A digit run never extends past the end of the string.
pub proof fn lemma_digit_run_le_len(s: Seq<char>)
    ensures
        digit_run_len(s) <= s.len(),
    decreases s.len(),
{
    if s.len() > 0 && is_digit(s[0]) {
        lemma_digit_run_le_len(s.skip(1));
    }
}

/// Parses a decimal number from the front of `s`: the value of the longest
/// digit prefix, and the rest. Fails when `s` does not begin with a digit.
pub open spec fn parse_number(s: Seq<char>) -> Option<(nat, Seq<char>)> {
    let k = digit_run_len(s) as int;
    if k == 0 {
        None
    } else {
        Some((digits_val(s.take(k)), s.skip(k)))
    }
}

/// Parsing after a rendered number recovers the number and the rest.
pub proof fn lemma_parse_number_round_trip(n: nat, rest: Seq<char>)
    requires
        rest.len() == 0 || !is_digit(rest[0]),
    ensures
        parse_number(dec_digits(n) + rest) == Some((n, rest)),
{
    let d = dec_digits(n);
    lemma_dec_digits_shape(n);
    lemma_digit_run_of_concat(d, rest);
    assert((d + rest).take(d.len() as int) =~= d);
    assert((d + rest).skip(d.len() as int) =~= rest);
    lemma_digits_val_of_dec(n);
}

// ---------------------------------------------------------------------------
// Literals
// ---------------------------------------------------------------------------
/// Consumes an expected literal from the front of `s`.
pub open spec fn match_lit(s: Seq<char>, lit: Seq<char>) -> Option<Seq<char>> {
    if lit.len() <= s.len() && s.take(lit.len() as int) == lit {
        Some(s.skip(lit.len() as int))
    } else {
        None
    }
}

/// Consuming a literal that is in fact at the front of `s` succeeds.
pub proof fn lemma_match_lit_round_trip(lit: Seq<char>, rest: Seq<char>)
    ensures
        match_lit(lit + rest, lit) == Some(rest),
{
    assert((lit + rest).take(lit.len() as int) =~= lit);
    assert((lit + rest).skip(lit.len() as int) =~= rest);
}

// ---------------------------------------------------------------------------
// Timestamps
// ---------------------------------------------------------------------------
/// The ISO-8601-style rendering of a timestamp, at fixed width:
/// four year digits, then two digits for each further component, in
/// `year-month-dayThour:minute:secondZ` order.
pub open spec fn iso_chars(t: Timestamp) -> Seq<char> {
    let y = t.year as int;
    let mo = t.month as int;
    let d = t.day as int;
    let h = t.hour as int;
    let mi = t.minute as int;
    let s = t.second as int;
    seq![
        digit_char(y / 1000 % 10),
        digit_char(y / 100 % 10),
        digit_char(y / 10 % 10),
        digit_char(y % 10),
        '-',
        digit_char(mo / 10 % 10),
        digit_char(mo % 10),
        '-',
        digit_char(d / 10 % 10),
        digit_char(d % 10),
        'T',
        digit_char(h / 10 % 10),
        digit_char(h % 10),
        ':',
        digit_char(mi / 10 % 10),
        digit_char(mi % 10),
        ':',
        digit_char(s / 10 % 10),
        digit_char(s % 10),
        'Z',
    ]
}

/// Parses a fixed-width ISO-8601-style timestamp from the front of `s`.
/// Fails unless the separators sit at their fixed offsets, every other
/// position holds a digit, and the components lie in their civil ranges.
pub open spec fn parse_iso(s: Seq<char>) -> Option<(Timestamp, Seq<char>)> {
    if s.len() >= 20 && s[4] == '-' && s[7] == '-' && s[10] == 'T' && s[13] == ':' && s[16] == ':'
        && s[19] == 'Z' && is_digit(s[0]) && is_digit(s[1]) && is_digit(s[2]) && is_digit(s[3])
        && is_digit(s[5]) && is_digit(s[6]) && is_digit(s[8]) && is_digit(s[9]) && is_digit(s[11])
        && is_digit(s[12]) && is_digit(s[14]) && is_digit(s[15]) && is_digit(s[17]) && is_digit(
        s[18],
    ) {
        let y = digit_val(s[0]) * 1000 + digit_val(s[1]) * 100 + digit_val(s[2]) * 10 + digit_val(
            s[3],
        );
        let mo = digit_val(s[5]) * 10 + digit_val(s[6]);
        let d = digit_val(s[8]) * 10 + digit_val(s[9]);
        let h = digit_val(s[11]) * 10 + digit_val(s[12]);
        let mi = digit_val(s[14]) * 10 + digit_val(s[15]);
        let sec = digit_val(s[17]) * 10 + digit_val(s[18]);
        let t = Timestamp {
            year: y as u16,
            month: mo as u8,
            day: d as u8,
            hour: h as u8,
            minute: mi as u8,
            second: sec as u8,
        };
        if t.wf() {
            Some((t, s.skip(20)))
        } else {
            None
        }
    } else {
        None
    }
}

/// Parsing after a rendered timestamp recovers the timestamp and the rest.
pub proof fn lemma_parse_iso_round_trip(t: Timestamp, rest: Seq<char>)
    requires
        t.wf(),
    ensures
        parse_iso(iso_chars(t) + rest) == Some((t, rest)),
{
    let s = iso_chars(t) + rest;
    assert(iso_chars(t).len() == 20);
    assert forall|i: int| 0 <= i < 20 implies s[i] == iso_chars(t)[i] by {}
    assert(s.skip(20) =~= rest);
    let y = t.year as int;
    assert(y / 1000 % 10 * 1000 + y / 100 % 10 * 100 + y / 10 % 10 * 10 + y % 10 == y) by {
        assert(y / 1000 % 10 == y / 1000);
        assert(y / 100 == (y / 1000) * 10 + y / 100 % 10);
        assert(y / 10 == (y / 100) * 10 + y / 10 % 10);
        assert(y == (y / 10) * 10 + y % 10);
    }
    let mo = t.month as int;
    assert(mo / 10 % 10 * 10 + mo % 10 == mo) by {
        assert(mo / 10 % 10 == mo / 10);
    }
    let d = t.day as int;
    assert(d / 10 % 10 * 10 + d % 10 == d) by {
        assert(d / 10 % 10 == d / 10);
    }
    let h = t.hour as int;
    assert(h / 10 % 10 * 10 + h % 10 == h) by {
        assert(h / 10 % 10 == h / 10);
    }
    let mi = t.minute as int;
    assert(mi / 10 % 10 * 10 + mi % 10 == mi) by {
        assert(mi / 10 % 10 == mi / 10);
    }
    let sec = t.second as int;
    assert(sec / 10 % 10 * 10 + sec % 10 == sec) by {
        assert(sec / 10 % 10 == sec / 10);
    }
}

// ---------------------------------------------------------------------------
// Transactions
// ---------------------------------------------------------------------------
/// The key fragment opening a document or queue entry: `{"id":`.
pub open spec fn lit_obj_id() -> Seq<char> {
    seq!['{', '"', 'i', 'd', '"', ':']
}

/// The fragment between an entry's id and its date: `,"transaction_date":"`.
pub open spec fn lit_tx_date() -> Seq<char> {
    seq![
        ',',
        '"',
        't',
        'r',
        'a',
        'n',
        's',
        'a',
        'c',
        't',
        'i',
        'o',
        'n',
        '_',
        'd',
        'a',
        't',
        'e',
        '"',
        ':',
        '"',
    ]
}

/// The fragment closing a queue entry: `"}`.
pub open spec fn lit_tx_end() -> Seq<char> {
    seq!['"', '}']
}

/// The rendering of one queue entry.
pub open spec fn tx_chars(t: Transaction) -> Seq<char> {
    lit_obj_id() + dec_digits(t.id as nat) + lit_tx_date() + iso_chars(t.transaction_date)
        + lit_tx_end()
}

/// Parses one queue entry from the front of `s`.
pub open spec fn parse_tx(s: Seq<char>) -> Option<(Transaction, Seq<char>)> {
    match match_lit(s, lit_obj_id()) {
        None => None,
        Some(s1) => match parse_number(s1) {
            None => None,
            Some((idv, s2)) => if idv > u16::MAX as nat {
                None
            } else {
                match match_lit(s2, lit_tx_date()) {
                    None => None,
                    Some(s3) => match parse_iso(s3) {
                        None => None,
                        Some((ts, s4)) => match match_lit(s4, lit_tx_end()) {
                            None => None,
                            Some(s5) => Some(
                                (Transaction { id: idv as u16, transaction_date: ts }, s5),
                            ),
                        },
                    },
                }
            },
        },
    }
}

/// Parsing an entry strictly consumes input.
pub proof fn lemma_parse_tx_consumes(s: Seq<char>)
    ensures
        parse_tx(s) matches Some((t, r)) ==> r.len() < s.len(),
{
    if parse_tx(s) is Some {
        let s1 = match_lit(s, lit_obj_id())->Some_0;
        assert(s1.len() <= s.len());
        let (idv, s2) = parse_number(s1)->Some_0;
        lemma_digit_run_le_len(s1);
        assert(s2.len() < s1.len());
        let s3 = match_lit(s2, lit_tx_date())->Some_0;
        assert(s3.len() <= s2.len());
        let (ts, s4) = parse_iso(s3)->Some_0;
        assert(s4.len() < s3.len());
        let s5 = match_lit(s4, lit_tx_end())->Some_0;
        assert(s5.len() <= s4.len());
        assert(parse_tx(s)->Some_0.1 == s5);
    }
}

/// Parsing after a rendered entry recovers the entry and the rest.
pub proof fn lemma_parse_tx_round_trip(t: Transaction, rest: Seq<char>)
    requires
        t.wf(),
    ensures
        parse_tx(tx_chars(t) + rest) == Some((t, rest)),
{
    let d = dec_digits(t.id as nat);
    let iso = iso_chars(t.transaction_date);
    let tail1 = d + (lit_tx_date() + (iso + (lit_tx_end() + rest)));
    assert(tx_chars(t) + rest =~= lit_obj_id() + tail1);
    lemma_match_lit_round_trip(lit_obj_id(), tail1);
    let tail2 = lit_tx_date() + (iso + (lit_tx_end() + rest));
    assert(tail1 =~= d + tail2);
    assert(!is_digit(tail2[0]));
    lemma_parse_number_round_trip(t.id as nat, tail2);
    let tail3 = iso + (lit_tx_end() + rest);
    lemma_match_lit_round_trip(lit_tx_date(), tail3);
    lemma_parse_iso_round_trip(t.transaction_date, lit_tx_end() + rest);
    lemma_match_lit_round_trip(lit_tx_end(), rest);
}

// ---------------------------------------------------------------------------
// The queue
// ---------------------------------------------------------------------------
/// The rendering of the queue's entries, comma-separated, in order.
pub open spec fn queue_chars(q: Seq<Transaction>) -> Seq<char>
    decreases q.len(),
{
    if q.len() == 0 {
        Seq::empty()
    } else if q.len() == 1 {
        tx_chars(q[0])
    } else {
        tx_chars(q[0]) + seq![','] + queue_chars(q.skip(1))
    }
}

/// Parses a non-empty comma-separated entry list and its closing `]`.
pub open spec fn parse_items(s: Seq<char>) -> Option<(Seq<Transaction>, Seq<char>)>
    decreases s.len(),
{
    match parse_tx(s) {
        None => None,
        Some((t, r)) => {
            proof {
                lemma_parse_tx_consumes(s);
            }
            if r.len() > 0 && r[0] == ',' {
                match parse_items(r.skip(1)) {
                    None => None,
                    Some((ts, r2)) => Some((seq![t] + ts, r2)),
                }
            } else if r.len() > 0 && r[0] == ']' {
                Some((seq![t], r.skip(1)))
            } else {
                None
            }
        },
    }
}

/// Parses the queue list after its opening `[`, consuming the closing `]`.
pub open spec fn parse_queue(s: Seq<char>) -> Option<(Seq<Transaction>, Seq<char>)> {
    if s.len() > 0 && s[0] == ']' {
        Some((Seq::empty(), s.skip(1)))
    } else {
        parse_items(s)
    }
}

/// Parsing after a rendered non-empty queue recovers its entries in order.
#[verifier::rlimit(60)]
pub proof fn lemma_parse_items_round_trip(q: Seq<Transaction>, rest: Seq<char>)
    requires
        q.len() >= 1,
        forall|i: int| 0 <= i < q.len() ==> (#[trigger] q[i]).wf(),
    ensures
        parse_items(queue_chars(q) + seq![']'] + rest) == Some((q, rest)),
    decreases q.len(),
{
    let s = queue_chars(q) + seq![']'] + rest;
    if q.len() == 1 {
        assert(s =~= tx_chars(q[0]) + (seq![']'] + rest));
        lemma_parse_tx_round_trip(q[0], seq![']'] + rest);
        let r = seq![']'] + rest;
        assert(r[0] == ']');
        assert(r.skip(1) =~= rest);
        assert(seq![q[0]] =~= q);
    } else {
        let tail = seq![','] + (queue_chars(q.skip(1)) + seq![']'] + rest);
        assert(s =~= tx_chars(q[0]) + tail);
        lemma_parse_tx_round_trip(q[0], tail);
        assert(tail[0] == ',');
        assert(tail.skip(1) =~= queue_chars(q.skip(1)) + seq![']'] + rest);
        lemma_parse_items_round_trip(q.skip(1), rest);
        assert(seq![q[0]] + q.skip(1) =~= q);
    }
}

// ---------------------------------------------------------------------------
// The whole document
// ---------------------------------------------------------------------------
/// The fragment between the id and the closed counter:
/// `,"transactions_closed":`.
pub open spec fn lit_closed() -> Seq<char> {
    seq![
        ',',
        '"',
        't',
        'r',
        'a',
        'n',
        's',
        'a',
        'c',
        't',
        'i',
        'o',
        'n',
        's',
        '_',
        'c',
        'l',
        'o',
        's',
        'e',
        'd',
        '"',
        ':',
    ]
}

/// The fragment before the open counter: `,"transactions_open":`.
pub open spec fn lit_open() -> Seq<char> {
    seq![
        ',',
        '"',
        't',
        'r',
        'a',
        'n',
        's',
        'a',
        'c',
        't',
        'i',
        'o',
        'n',
        's',
        '_',
        'o',
        'p',
        'e',
        'n',
        '"',
        ':',
    ]
}

/// The fragment opening the queue list: `,"transaction_queue":[`.
pub open spec fn lit_queue() -> Seq<char> {
    seq![
        ',',
        '"',
        't',
        'r',
        'a',
        'n',
        's',
        'a',
        'c',
        't',
        'i',
        'o',
        'n',
        '_',
        'q',
        'u',
        'e',
        'u',
        'e',
        '"',
        ':',
        '[',
    ]
}

/// The fragment closing the document: `}`.
pub open spec fn lit_doc_end() -> Seq<char> {
    seq!['}']
}

/// The structured-text projection of a record model: one document holding
/// exactly its four fields, with the queue in insertion order.
pub open spec fn agent_chars(m: AgentModel) -> Seq<char> {
    lit_obj_id() + dec_digits(m.id as nat) + lit_closed() + dec_digits(
        m.transactions_closed as nat,
    ) + lit_open() + dec_digits(m.transactions_open as nat) + lit_queue() + queue_chars(m.queue)
        + seq![']'] + lit_doc_end()
}

/// Parses a whole projection document. Succeeds exactly on complete
/// documents whose fields lie in the record's ranges, and yields the model
/// the document denotes.
pub open spec fn parse_agent_chars(s: Seq<char>) -> Option<AgentModel> {
    match match_lit(s, lit_obj_id()) {
        None => None,
        Some(s1) => match parse_number(s1) {
            None => None,
            Some((idv, s2)) => if idv > 1000 {
                None
            } else {
                match match_lit(s2, lit_closed()) {
                    None => None,
                    Some(s3) => match parse_number(s3) {
                        None => None,
                        Some((cv, s4)) => if cv > i32::MAX as nat {
                            None
                        } else {
                            match match_lit(s4, lit_open()) {
                                None => None,
                                Some(s5) => match parse_number(s5) {
                                    None => None,
                                    Some((ov, s6)) => if ov > i32::MAX as nat {
                                        None
                                    } else {
                                        match match_lit(s6, lit_queue()) {
                                            None => None,
                                            Some(s7) => match parse_queue(s7) {
                                                None => None,
                                                Some((q, s8)) => match match_lit(
                                                    s8,
                                                    lit_doc_end(),
                                                ) {
                                                    None => None,
                                                    Some(s9) => if s9.len() == 0 {
                                                        Some(
                                                            AgentModel {
                                                                id: idv as u16,
                                                                transactions_closed: cv as i32,
                                                                transactions_open: ov as i32,
                                                                queue: q,
                                                            },
                                                        )
                                                    } else {
                                                        None
                                                    },
                                                },
                                            },
                                        }
                                    },
                                },
                            }
                        },
                    },
                }
            },
        },
    }
}

/// Law: the projection is lossless. Parsing the rendered projection of any
/// well-formed record model reproduces the model exactly: its id, both
/// counters, and the queue's ordered (id, timestamp) pairs.
#[verifier::rlimit(60)]
pub proof fn lemma_projection_round_trip(m: AgentModel)
    requires
        m.wf(),
    ensures
        parse_agent_chars(agent_chars(m)) == Some(m),
{
    let s = agent_chars(m);
    let d_id = dec_digits(m.id as nat);
    let d_cl = dec_digits(m.transactions_closed as nat);
    let d_op = dec_digits(m.transactions_open as nat);
    let qc = queue_chars(m.queue);
    let tail7 = qc + (seq![']'] + lit_doc_end());
    let tail6 = lit_queue() + tail7;
    let tail5 = d_op + tail6;
    let tail4 = lit_open() + tail5;
    let tail3 = d_cl + tail4;
    let tail2 = lit_closed() + tail3;
    let tail1 = d_id + tail2;
    assert(s =~= lit_obj_id() + tail1);
    lemma_match_lit_round_trip(lit_obj_id(), tail1);
    assert(match_lit(s, lit_obj_id()) == Some(tail1));
    assert(!is_digit(tail2[0]));
    lemma_parse_number_round_trip(m.id as nat, tail2);
    assert(parse_number(tail1) == Some((m.id as nat, tail2)));
    lemma_match_lit_round_trip(lit_closed(), tail3);
    assert(match_lit(tail2, lit_closed()) == Some(tail3));
    assert(!is_digit(tail4[0]));
    lemma_parse_number_round_trip(m.transactions_closed as nat, tail4);
    assert(parse_number(tail3) == Some((m.transactions_closed as nat, tail4)));
    lemma_match_lit_round_trip(lit_open(), tail5);
    assert(match_lit(tail4, lit_open()) == Some(tail5));
    assert(!is_digit(tail6[0]));
    lemma_parse_number_round_trip(m.transactions_open as nat, tail6);
    assert(parse_number(tail5) == Some((m.transactions_open as nat, tail6)));
    lemma_match_lit_round_trip(lit_queue(), tail7);
    assert(match_lit(tail6, lit_queue()) == Some(tail7));
    if m.queue.len() == 0 {
        assert(qc =~= Seq::<char>::empty());
        assert(tail7 =~= seq![']'] + lit_doc_end());
        assert(tail7[0] == ']');
        assert(tail7.skip(1) =~= lit_doc_end());
        assert(m.queue =~= Seq::<Transaction>::empty());
        assert(parse_queue(tail7) == Some((m.queue, lit_doc_end())));
    } else {
        lemma_parse_items_round_trip(m.queue, lit_doc_end());
        assert(tail7 =~= queue_chars(m.queue) + seq![']'] + lit_doc_end());
        assert(tx_chars(m.queue[0]).len() >= lit_obj_id().len());
        assert(tail7[0] == tx_chars(m.queue[0])[0]);
        assert(tx_chars(m.queue[0])[0] == '{');
        assert(tail7[0] != ']');
        assert(parse_queue(tail7) == Some((m.queue, lit_doc_end())));
    }
    lemma_match_lit_round_trip(lit_doc_end(), Seq::<char>::empty());
    assert(lit_doc_end() + Seq::<char>::empty() =~= lit_doc_end());
    assert(match_lit(lit_doc_end(), lit_doc_end()) == Some(Seq::<char>::empty()));
    assert(m.id as nat <= 1000);
    assert((m.id as nat) as u16 == m.id);
    assert((m.transactions_closed as nat) as i32 == m.transactions_closed);
    assert((m.transactions_open as nat) as i32 == m.transactions_open);
    assert(parse_agent_chars(s) == Some(
        AgentModel {
            id: (m.id as nat) as u16,
            transactions_closed: (m.transactions_closed as nat) as i32,
            transactions_open: (m.transactions_open as nat) as i32,
            queue: m.queue,
        },
    ));
}

// ---------------------------------------------------------------------------
// The renderer
// ---------------------------------------------------------------------------
/// Appends one decimal digit character.
fn append_digit(s: &mut String, d: u8)
    requires
        d < 10,
    ensures
        final(s)@ == old(s)@ + seq![digit_char(d as int)],
{
    proof {
        reveal_strlit("0");
        reveal_strlit("1");
        reveal_strlit("2");
        reveal_strlit("3");
        reveal_strlit("4");
        reveal_strlit("5");
        reveal_strlit("6");
        reveal_strlit("7");
        reveal_strlit("8");
        reveal_strlit("9");
    }
    match d {
        0 => s.append("0"),
        1 => s.append("1"),
        2 => s.append("2"),
        3 => s.append("3"),
        4 => s.append("4"),
        5 => s.append("5"),
        6 => s.append("6"),
        7 => s.append("7"),
        8 => s.append("8"),
        _ => s.append("9"),
    }
    proof {
        assert(final(s)@ =~= old(s)@ + seq![digit_char(d as int)]);
    }
}

/// Appends the decimal rendering of `n`, most significant digit first.
fn append_dec(s: &mut String, n: u32)
    ensures
        final(s)@ == old(s)@ + dec_digits(n as nat),
    decreases n,
{
    if n <= 9 {
        append_digit(s, n as u8);
    } else {
        append_dec(s, n / 10);
        append_digit(s, (n % 10) as u8);
        proof {
            assert(final(s)@ =~= old(s)@ + dec_digits(n as nat));
        }
    }
}

/// Appends a two-digit zero-padded number.
fn append_pad2(s: &mut String, n: u8)
    requires
        n <= 99,
    ensures
        final(s)@ == old(s)@ + seq![
            digit_char(n as int / 10 % 10),
            digit_char(n as int % 10),
        ],
{
    append_digit(s, n / 10);
    append_digit(s, n % 10);
    proof {
        assert(final(s)@ =~= old(s)@ + seq![
            digit_char(n as int / 10 % 10),
            digit_char(n as int % 10),
        ]);
    }
}

/// Appends a four-digit zero-padded number.
fn append_pad4(s: &mut String, n: u16)
    requires
        n <= 9999,
    ensures
        final(s)@ == old(s)@ + seq![
            digit_char(n as int / 1000 % 10),
            digit_char(n as int / 100 % 10),
            digit_char(n as int / 10 % 10),
            digit_char(n as int % 10),
        ],
{
    append_digit(s, (n / 1000) as u8);
    append_digit(s, (n / 100 % 10) as u8);
    append_digit(s, (n / 10 % 10) as u8);
    append_digit(s, (n % 10) as u8);
    proof {
        assert(final(s)@ =~= old(s)@ + seq![
            digit_char(n as int / 1000 % 10),
            digit_char(n as int / 100 % 10),
            digit_char(n as int / 10 % 10),
            digit_char(n as int % 10),
        ]);
    }
}

/// Appends the fixed-width ISO-8601-style rendering of a timestamp.
#[verifier::rlimit(100)]
fn append_iso(s: &mut String, t: &Timestamp)
    requires
        t.wf(),
    ensures
        final(s)@ == old(s)@ + iso_chars(*t),
{
    proof {
        reveal_strlit("-");
        reveal_strlit("T");
        reveal_strlit(":");
        reveal_strlit("Z");
    }
    append_pad4(s, t.year);
    s.append("-");
    append_pad2(s, t.month);
    s.append("-");
    append_pad2(s, t.day);
    s.append("T");
    append_pad2(s, t.hour);
    s.append(":");
    append_pad2(s, t.minute);
    s.append(":");
    append_pad2(s, t.second);
    s.append("Z");
    proof {
        assert(final(s)@ =~= old(s)@ + iso_chars(*t));
    }
}

/// Appends the rendering of one queue entry.
fn append_tx(s: &mut String, t: &Transaction)
    requires
        t.wf(),
    ensures
        final(s)@ == old(s)@ + tx_chars(*t),
{
    proof {
        reveal_strlit("{\"id\":");
        reveal_strlit(",\"transaction_date\":\"");
        reveal_strlit("\"}");
        assert("{\"id\":"@ =~= lit_obj_id());
        assert(",\"transaction_date\":\""@ =~= lit_tx_date());
        assert("\"}"@ =~= lit_tx_end());
    }
    s.append("{\"id\":");
    append_dec(s, t.id as u32);
    s.append(",\"transaction_date\":\"");
    append_iso(s, &t.transaction_date);
    s.append("\"}");
    proof {
        assert(final(s)@ =~= old(s)@ + tx_chars(*t));
    }
}

/// Appends the renderings of the queue entries from `i` on, comma-separated.
fn append_items(s: &mut String, q: &VecDeque<Transaction>, i: usize)
    requires
        i < q@.len(),
        forall|j: int| 0 <= j < q@.len() ==> (#[trigger] q@[j]).wf(),
    ensures
        final(s)@ == old(s)@ + queue_chars(q@.skip(i as int)),
    decreases q@.len() - i,
{
    let n = q.len();
    append_tx(s, &q[i]);
    if i + 1 < n {
        proof {
            reveal_strlit(",");
        }
        s.append(",");
        append_items(s, q, i + 1);
        proof {
            assert(q@.skip(i as int)[0] == q@[i as int]);
            assert(q@.skip(i as int).skip(1) =~= q@.skip(i + 1));
            assert(","@ =~= seq![',']);
            assert(final(s)@ =~= old(s)@ + queue_chars(q@.skip(i as int)));
        }
    } else {
        proof {
            assert(q@.skip(i as int) =~= seq![q@[i as int]]);
            assert(final(s)@ =~= old(s)@ + queue_chars(q@.skip(i as int)));
        }
    }
}

/// Renders the structured-text projection of a record: a document with the
/// keys `id`, `transactions_closed`, `transactions_open` and
/// `transaction_queue`, the queue as an ordered list of
/// `{id, transaction_date}` objects.
pub fn render_agent(a: &Agent) -> (s: String)
    requires
        a.wf(),
    ensures
        s@ == agent_chars(a.model()),
{
    proof {
        reveal_strlit("{\"id\":");
        reveal_strlit(",\"transactions_closed\":");
        reveal_strlit(",\"transactions_open\":");
        reveal_strlit(",\"transaction_queue\":[");
        reveal_strlit("]}");
        assert("{\"id\":"@ =~= lit_obj_id());
        assert(",\"transactions_closed\":"@ =~= lit_closed());
        assert(",\"transactions_open\":"@ =~= lit_open());
        assert(",\"transaction_queue\":["@ =~= lit_queue());
        assert("]}"@ =~= seq![']'] + lit_doc_end());
    }
    let mut s = String::new();
    s.append("{\"id\":");
    append_dec(&mut s, a.id as u32);
    s.append(",\"transactions_closed\":");
    append_dec(&mut s, a.transactions_closed as u32);
    s.append(",\"transactions_open\":");
    append_dec(&mut s, a.transactions_open as u32);
    s.append(",\"transaction_queue\":[");
    if a.transaction_queue.len() > 0 {
        proof {
            assert forall|j: int| 0 <= j < a.transaction_queue@.len() implies (
            #[trigger] a.transaction_queue@[j]).wf() by {
                assert((a.model().queue[j]).wf());
            }
        }
        append_items(&mut s, &a.transaction_queue, 0);
        proof {
            assert(a.transaction_queue@.skip(0) =~= a.transaction_queue@);
        }
    }
    s.append("]}");
    proof {
        assert(s@ =~= agent_chars(a.model()));
    }
    s
}

// ---------------------------------------------------------------------------
// The parser
// ---------------------------------------------------------------------------
/// True when the value of the longest digit prefix, if any, exceeds `cap`.
pub open spec fn number_missing_or_over(s: Seq<char>, cap: nat) -> bool {
    match parse_number(s) {
        None => true,
        Some((v, r)) => v > cap,
    }
}

/// A string whose first `k` characters are digits has a digit run of at
/// least `k`.
proof fn lemma_digit_run_at_least(s: Seq<char>, k: int)
    requires
        0 <= k <= s.len(),
        forall|m: int| 0 <= m < k ==> is_digit(#[trigger] s[m]),
    ensures
        digit_run_len(s) >= k,
    decreases k,
{
    if k > 0 {
        assert forall|m: int| 0 <= m < k - 1 implies is_digit(#[trigger] s.skip(1)[m]) by {
            assert(s.skip(1)[m] == s[m + 1]);
        }
        lemma_digit_run_at_least(s.skip(1), k - 1);
    }
}

/// Matches `lit` at position `i` of `s`; on success returns the position
/// just past it. Mirrors `match_lit` on the suffix starting at `i`.
fn match_at(s: &str, i: usize, lit: &str) -> (r: Option<usize>)
    requires
        i <= s@.len(),
    ensures
        match r {
            Some(j) => {
                &&& j == i + lit@.len()
                &&& j <= s@.len()
                &&& match_lit(s@.skip(i as int), lit@) == Some(s@.skip(j as int))
            },
            None => match_lit(s@.skip(i as int), lit@) is None,
        },
{
    let n = s.unicode_len();
    let llen = lit.unicode_len();
    if llen > n - i {
        return None;
    }
    let mut k: usize = 0;
    while k < llen
        invariant
            0 <= k <= llen,
            i + llen <= n,
            n == s@.len(),
            llen == lit@.len(),
            forall|m: int| 0 <= m < k ==> s@[i + m] == lit@[m],
        decreases llen - k,
    {
        if s.get_char(i + k) != lit.get_char(k) {
            proof {
                let suf = s@.skip(i as int);
                assert(suf.take(llen as int)[k as int] == s@[i + k]);
                assert(suf.take(llen as int) != lit@);
            }
            return None;
        }
        k = k + 1;
    }
    proof {
        let suf = s@.skip(i as int);
        assert forall|m: int| 0 <= m < llen implies suf.take(llen as int)[m] == lit@[m] by {
            assert(suf.take(llen as int)[m] == s@[i + m]);
        }
        assert(suf.take(llen as int) =~= lit@);
        assert(suf.skip(llen as int) =~= s@.skip(i + llen));
    }
    Some(i + llen)
}

/// Parses a decimal number at position `i`, refusing values above `cap`.
/// Mirrors `parse_number` on the suffix starting at `i`.
fn parse_number_at(s: &str, i: usize, cap: u32) -> (r: Option<(u32, usize)>)
    requires
        i <= s@.len(),
    ensures
        match r {
            Some((v, j)) => {
                &&& i < j <= s@.len()
                &&& v <= cap
                &&& parse_number(s@.skip(i as int)) == Some((v as nat, s@.skip(j as int)))
            },
            None => number_missing_or_over(s@.skip(i as int), cap as nat),
        },
{
    let n = s.unicode_len();
    let capv = cap as u64;
    let mut j: usize = i;
    let mut v: u64 = 0;
    loop
        invariant
            i <= j <= n,
            n == s@.len(),
            capv == cap,
            v <= capv,
            v == digits_val(s@.subrange(i as int, j as int)),
            forall|m: int| i <= m < j ==> is_digit(#[trigger] s@[m]),
        ensures
            i <= j <= n,
            v <= capv,
            v == digits_val(s@.subrange(i as int, j as int)),
            forall|m: int| i <= m < j ==> is_digit(#[trigger] s@[m]),
            j == n || !is_digit(s@[j as int]),
        decreases n - j,
    {
        if j >= n {
            break ;
        }
        let c = s.get_char(j);
        let cv = c as u32;
        if cv < 48 || cv > 57 {
            break ;
        }
        proof {
            assert(s@.subrange(i as int, j + 1).drop_last() =~= s@.subrange(i as int, j as int));
            assert(s@.subrange(i as int, j + 1).last() == s@[j as int]);
        }
        v = v * 10 + ((cv - 48) as u64);
        j = j + 1;
        if v > capv {
            proof {
                let suf = s@.skip(i as int);
                let run: int = digit_run_len(suf) as int;
                lemma_digit_run_le_len(suf);
                assert forall|m: int| 0 <= m < j - i implies is_digit(#[trigger] suf[m]) by {
                    assert(suf[m] == s@[i + m]);
                }
                lemma_digit_run_at_least(suf, j - i);
                assert(suf.take(run).take(j - i) =~= suf.take(j - i));
                assert(suf.take(j - i) =~= s@.subrange(i as int, j as int));
                lemma_digits_val_monotone(suf.take(run), j - i);
            }
            return None;
        }
    }
    if j == i {
        proof {
            let suf = s@.skip(i as int);
            if i < n {
                assert(suf[0] == s@[i as int]);
            }
        }
        return None;
    }
    proof {
        let suf = s@.skip(i as int);
        let d = s@.subrange(i as int, j as int);
        let rest = s@.skip(j as int);
        assert forall|m: int| 0 <= m < d.len() implies is_digit(#[trigger] d[m]) by {
            assert(d[m] == s@[i + m]);
        }
        assert(suf =~= d + rest);
        if j < n {
            assert(rest[0] == s@[j as int]);
        }
        lemma_digit_run_of_concat(d, rest);
        assert(suf.take(j - i) =~= d);
        assert(suf.skip(j - i) =~= rest);
    }
    Some((v as u32, j))
}

/// Reads one digit's value at position `k`.
fn read_digit(s: &str, k: usize) -> (r: Option<u8>)
    requires
        k < s@.len(),
    ensures
        match r {
            Some(d) => is_digit(s@[k as int]) && d == digit_val(s@[k as int]) && d <= 9,
            None => !is_digit(s@[k as int]),
        },
{
    let c = s.get_char(k);
    let cv = c as u32;
    if 48 <= cv && cv <= 57 {
        Some((cv - 48) as u8)
    } else {
        None
    }
}

/// Parses a fixed-width ISO-8601-style timestamp at position `i`.
/// Mirrors `parse_iso` on the suffix starting at `i`.
#[verifier::rlimit(100)]
fn parse_iso_at(s: &str, i: usize) -> (r: Option<(Timestamp, usize)>)
    requires
        i <= s@.len(),
    ensures
        match r {
            Some((t, j)) => {
                &&& j == i + 20
                &&& j <= s@.len()
                &&& t.wf()
                &&& parse_iso(s@.skip(i as int)) == Some((t, s@.skip(j as int)))
            },
            None => parse_iso(s@.skip(i as int)) is None,
        },
{
    let n = s.unicode_len();
    if n - i < 20 {
        return None;
    }
    proof {
        let suf = s@.skip(i as int);
        assert forall|m: int| 0 <= m < 20 implies suf[m] == s@[i + m] by {}
    }
    if s.get_char(i + 4) != '-' || s.get_char(i + 7) != '-' || s.get_char(i + 10) != 'T'
        || s.get_char(i + 13) != ':' || s.get_char(i + 16) != ':' || s.get_char(i + 19) != 'Z' {
        return None;
    }
    let d0 = match read_digit(s, i) {
        Some(d) => d,
        None => { return None },
    };
    let d1 = match read_digit(s, i + 1) {
        Some(d) => d,
        None => { return None },
    };
    let d2 = match read_digit(s, i + 2) {
        Some(d) => d,
        None => { return None },
    };
    let d3 = match read_digit(s, i + 3) {
        Some(d) => d,
        None => { return None },
    };
    let d5 = match read_digit(s, i + 5) {
        Some(d) => d,
        None => { return None },
    };
    let d6 = match read_digit(s, i + 6) {
        Some(d) => d,
        None => { return None },
    };
    let d8 = match read_digit(s, i + 8) {
        Some(d) => d,
        None => { return None },
    };
    let d9 = match read_digit(s, i + 9) {
        Some(d) => d,
        None => { return None },
    };
    let d11 = match read_digit(s, i + 11) {
        Some(d) => d,
        None => { return None },
    };
    let d12 = match read_digit(s, i + 12) {
        Some(d) => d,
        None => { return None },
    };
    let d14 = match read_digit(s, i + 14) {
        Some(d) => d,
        None => { return None },
    };
    let d15 = match read_digit(s, i + 15) {
        Some(d) => d,
        None => { return None },
    };
    let d17 = match read_digit(s, i + 17) {
        Some(d) => d,
        None => { return None },
    };
    let d18 = match read_digit(s, i + 18) {
        Some(d) => d,
        None => { return None },
    };
    let year: u16 = d0 as u16 * 1000 + d1 as u16 * 100 + d2 as u16 * 10 + d3 as u16;
    let month: u8 = d5 * 10 + d6;
    let day: u8 = d8 * 10 + d9;
    let hour: u8 = d11 * 10 + d12;
    let minute: u8 = d14 * 10 + d15;
    let second: u8 = d17 * 10 + d18;
    match Timestamp::from_parts(year, month, day, hour, minute, second) {
        Some(t) => {
            proof {
                assert(s@.skip(i as int).skip(20) =~= s@.skip(i + 20));
            }
            Some((t, i + 20))
        },
        None => None,
    }
}

/// Parses one queue entry at position `i`. Mirrors `parse_tx` on the
/// suffix starting at `i`.
fn parse_tx_at(s: &str, i: usize) -> (r: Option<(Transaction, usize)>)
    requires
        i <= s@.len(),
    ensures
        match r {
            Some((t, j)) => {
                &&& i < j <= s@.len()
                &&& t.wf()
                &&& parse_tx(s@.skip(i as int)) == Some((t, s@.skip(j as int)))
            },
            None => parse_tx(s@.skip(i as int)) is None,
        },
{
    proof {
        reveal_strlit("{\"id\":");
        reveal_strlit(",\"transaction_date\":\"");
        reveal_strlit("\"}");
        assert("{\"id\":"@ =~= lit_obj_id());
        assert(",\"transaction_date\":\""@ =~= lit_tx_date());
        assert("\"}"@ =~= lit_tx_end());
    }
    let i1 = match match_at(s, i, "{\"id\":") {
        Some(j) => j,
        None => { return None },
    };
    let (idv, i2) = match parse_number_at(s, i1, 65535) {
        Some(p) => p,
        None => { return None },
    };
    let i3 = match match_at(s, i2, ",\"transaction_date\":\"") {
        Some(j) => j,
        None => { return None },
    };
    let (ts, i4) = match parse_iso_at(s, i3) {
        Some(p) => p,
        None => { return None },
    };
    let i5 = match match_at(s, i4, "\"}") {
        Some(j) => j,
        None => { return None },
    };
    Some((Transaction { id: idv as u16, transaction_date: ts }, i5))
}

/// Parses the non-empty entry list and its closing `]` at position `i`.
/// Mirrors `parse_items` on the suffix starting at `i`.
fn parse_items_at(s: &str, i: usize) -> (r: Option<(VecDeque<Transaction>, usize)>)
    requires
        i <= s@.len(),
    ensures
        match r {
            Some((q, j)) => {
                &&& j <= s@.len()
                &&& parse_items(s@.skip(i as int)) == Some((q@, s@.skip(j as int)))
                &&& forall|m: int| 0 <= m < q@.len() ==> (#[trigger] q@[m]).wf()
            },
            None => parse_items(s@.skip(i as int)) is None,
        },
    decreases s@.len() - i,
{
    let (t, j) = match parse_tx_at(s, i) {
        Some(p) => p,
        None => { return None },
    };
    let n = s.unicode_len();
    if j < n {
        let c = s.get_char(j);
        proof {
            assert(s@.skip(j as int)[0] == s@[j as int]);
        }
        if c == ',' {
            proof {
                assert(s@.skip(j as int).skip(1) =~= s@.skip(j + 1));
            }
            match parse_items_at(s, j + 1) {
                Some((mut q, j2)) => {
                    q.push_front(t);
                    proof {
                        assert(q@ =~= seq![t] + q@.skip(1));
                    }
                    Some((q, j2))
                },
                None => None,
            }
        } else if c == ']' {
            let mut q: VecDeque<Transaction> = VecDeque::new();
            q.push_back(t);
            proof {
                assert(q@ =~= seq![t]);
                assert(s@.skip(j as int).skip(1) =~= s@.skip(j + 1));
            }
            Some((q, j + 1))
        } else {
            None
        }
    } else {
        proof {
            assert(s@.skip(j as int).len() == 0);
        }
        None
    }
}

/// Parses a whole projection document, as `parse_agent_chars` specifies:
/// it succeeds exactly on complete rendered documents whose fields lie in
/// the record's ranges, and rebuilds the record they denote.
#[verifier::rlimit(60)]
pub fn parse_agent_json(s: &str) -> (r: Option<Agent>)
    ensures
        match r {
            Some(a) => a.wf() && parse_agent_chars(s@) == Some(a.model()),
            None => parse_agent_chars(s@) is None,
        },
{
    proof {
        reveal_strlit("{\"id\":");
        reveal_strlit(",\"transactions_closed\":");
        reveal_strlit(",\"transactions_open\":");
        reveal_strlit(",\"transaction_queue\":[");
        reveal_strlit("}");
        assert("{\"id\":"@ =~= lit_obj_id());
        assert(",\"transactions_closed\":"@ =~= lit_closed());
        assert(",\"transactions_open\":"@ =~= lit_open());
        assert(",\"transaction_queue\":["@ =~= lit_queue());
        assert("}"@ =~= lit_doc_end());
        assert(s@.skip(0) =~= s@);
    }
    let n = s.unicode_len();
    let i1 = match match_at(s, 0, "{\"id\":") {
        Some(j) => j,
        None => { return None },
    };
    let (idv, i2) = match parse_number_at(s, i1, 1000) {
        Some(p) => p,
        None => { return None },
    };
    let i3 = match match_at(s, i2, ",\"transactions_closed\":") {
        Some(j) => j,
        None => { return None },
    };
    let (cv, i4) = match parse_number_at(s, i3, 2147483647) {
        Some(p) => p,
        None => { return None },
    };
    let i5 = match match_at(s, i4, ",\"transactions_open\":") {
        Some(j) => j,
        None => { return None },
    };
    let (ov, i6) = match parse_number_at(s, i5, 2147483647) {
        Some(p) => p,
        None => { return None },
    };
    let i7 = match match_at(s, i6, ",\"transaction_queue\":[") {
        Some(j) => j,
        None => { return None },
    };
    let (q, i8) = if i7 < n && s.get_char(i7) == ']' {
        proof {
            assert(s@.skip(i7 as int)[0] == s@[i7 as int]);
            assert(s@.skip(i7 as int).skip(1) =~= s@.skip(i7 + 1));
        }
        let empty_queue: VecDeque<Transaction> = VecDeque::new();
        (empty_queue, i7 + 1)
    } else {
        proof {
            if s@.skip(i7 as int).len() > 0 {
                assert(s@.skip(i7 as int)[0] == s@[i7 as int]);
            }
        }
        match parse_items_at(s, i7) {
            Some(p) => p,
            None => { return None },
        }
    };
    let i9 = match match_at(s, i8, "}") {
        Some(j) => j,
        None => { return None },
    };
    if i9 != n {
        return None;
    }
    let a = Agent {
        id: idv as u16,
        transactions_closed: cv as i32,
        transactions_open: ov as i32,
        transaction_queue: q,
    };
    proof {
        assert(s@.skip(i9 as int).len() == 0);
        assert(a.model().queue =~= q@);
    }
    Some(a)
}

} // verus!
