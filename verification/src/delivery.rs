//! The delivery side: serializing a record to its JSON document, building
//! the upsert location for the index, and accumulating the failure report
//! from the per-record delivery outcomes. The report holds one block per
//! non-success response, in input order, and nothing else.

use vstd::prelude::*;
use crate::codec::{timestamp_chars, timestamp_to_chars};
use crate::records::{LogRecord, LogRecordView};
use crate::text::{
    chars_to_string, dec_chars, digit_char, i64_to_chars, int_chars, to_chars, u64_to_chars,
};

verus! {

/// Hexadecimal digit character for a value below 16.
pub open spec fn hex_char(d: int) -> char {
    if d < 10 {
        digit_char(d)
    } else if d == 10 {
        'a'
    } else if d == 11 {
        'b'
    } else if d == 12 {
        'c'
    } else if d == 13 {
        'd'
    } else if d == 14 {
        'e'
    } else {
        'f'
    }
}

/// JSON escape of one character: quote, backslash and the common control
/// characters by their short escapes, any other control character by its
/// `\u00..` form, everything else verbatim.
pub open spec fn json_escape_char(c: char) -> Seq<char> {
    if c == '"' {
        seq!['\\', '"']
    } else if c == '\\' {
        seq!['\\', '\\']
    } else if c == '\n' {
        seq!['\\', 'n']
    } else if c == '\r' {
        seq!['\\', 'r']
    } else if c == '\t' {
        seq!['\\', 't']
    } else if (c as u32) < 32 {
        seq!['\\', 'u', '0', '0', hex_char(((c as u32) / 16) as int), hex_char(((c as u32) % 16) as int)]
    } else {
        seq![c]
    }
}

/// JSON escape of a whole character sequence.
pub open spec fn json_escape(s: Seq<char>) -> Seq<char>
    decreases s.len(),
{
    if s.len() == 0 {
        Seq::empty()
    } else {
        json_escape_char(s[0]) + json_escape(s.drop_first())
    }
}

proof fn lemma_json_escape_push(s: Seq<char>, c: char)
    ensures
        json_escape(s.push(c)) == json_escape(s) + json_escape_char(c),
    decreases s.len(),
{
    let t = s.push(c);
    if s.len() == 0 {
        assert(t[0] == c);
        assert(t.drop_first() =~= Seq::<char>::empty());
        assert(json_escape(t) == json_escape_char(c) + json_escape(t.drop_first()));
        assert(json_escape(Seq::<char>::empty()) =~= Seq::<char>::empty());
        assert(json_escape(t) =~= json_escape(s) + json_escape_char(c));
    } else {
        assert(t[0] == s[0]);
        assert(t.drop_first() =~= s.drop_first().push(c));
        lemma_json_escape_push(s.drop_first(), c);
        assert(json_escape(t) == json_escape_char(s[0]) + json_escape(t.drop_first()));
        assert(json_escape(s) == json_escape_char(s[0]) + json_escape(s.drop_first()));
        assert(json_escape(t) =~= json_escape(s) + json_escape_char(c));
    }
}

fn hex_to_char(d: u32) -> (c: char)
    requires
        d < 16,
    ensures
        c == hex_char(d as int),
{
    if d == 0 {
        '0'
    } else if d == 1 {
        '1'
    } else if d == 2 {
        '2'
    } else if d == 3 {
        '3'
    } else if d == 4 {
        '4'
    } else if d == 5 {
        '5'
    } else if d == 6 {
        '6'
    } else if d == 7 {
        '7'
    } else if d == 8 {
        '8'
    } else if d == 9 {
        '9'
    } else if d == 10 {
        'a'
    } else if d == 11 {
        'b'
    } else if d == 12 {
        'c'
    } else if d == 13 {
        'd'
    } else if d == 14 {
        'e'
    } else {
        'f'
    }
}

/// Appends the JSON escape of `s` to `dst`.
fn escape_into(dst: &mut Vec<char>, s: &Vec<char>)
    ensures
        final(dst)@ == old(dst)@ + json_escape(s@),
{
    let len: usize = s.len();
    let mut i: usize = 0;
    proof {
        assert(s@.take(0) =~= Seq::<char>::empty());
        assert(dst@ =~= dst@ + json_escape(s@.take(0)));
    }
    while i < len
        invariant
            i <= len,
            len == s@.len(),
            dst@ == old(dst)@ + json_escape(s@.take(i as int)),
        decreases len - i,
    {
        let c = s[i];
        proof {
            assert(s@.take(i + 1) =~= s@.take(i as int).push(s@[i as int]));
            lemma_json_escape_push(s@.take(i as int), s@[i as int]);
        }
        let ghost before = dst@;
        if c == '"' {
            dst.push('\\');
            dst.push('"');
        } else if c == '\\' {
            dst.push('\\');
            dst.push('\\');
        } else if c == '\n' {
            dst.push('\\');
            dst.push('n');
        } else if c == '\r' {
            dst.push('\\');
            dst.push('r');
        } else if c == '\t' {
            dst.push('\\');
            dst.push('t');
        } else {
            let cu: u32 = c as u32;
            if cu < 32 {
                dst.push('\\');
                dst.push('u');
                dst.push('0');
                dst.push('0');
                dst.push(hex_to_char(cu / 16));
                dst.push(hex_to_char(cu % 16));
            } else {
                dst.push(c);
            }
        }
        proof {
            assert(dst@ =~= before + json_escape_char(c));
            assert(dst@ =~= old(dst)@ + json_escape(s@.take(i + 1)));
        }
        i = i + 1;
    }
    proof {
        assert(s@.take(len as int) =~= s@);
    }
}

/// A JSON string literal: the escaped text between double quotes.
pub open spec fn json_string_chars(s: Seq<char>) -> Seq<char> {
    seq!['"'] + json_escape(s) + seq!['"']
}

fn append_json_string(dst: &mut Vec<char>, s: &String)
    ensures
        final(dst)@ == old(dst)@ + json_string_chars(s@),
{
    dst.push('"');
    let cs = to_chars(s.as_str());
    escape_into(dst, &cs);
    dst.push('"');
    proof {
        assert(dst@ =~= old(dst)@ + json_string_chars(s@));
    }
}

fn append_literal(dst: &mut Vec<char>, lit: &str)
    ensures
        final(dst)@ == old(dst)@ + lit@,
{
    let mut cs = to_chars(lit);
    dst.append(&mut cs);
}

/// The JSON text of a boolean.
pub open spec fn bool_chars(b: bool) -> Seq<char> {
    if b {
        "true"@
    } else {
        "false"@
    }
}

/// The JSON document of one record: every field of the record, in
/// declaration order, one per line with two-space indentation; text fields
/// as escaped JSON strings, the date as its canonical text in a string.
pub open spec fn record_json_chars(r: LogRecordView) -> Seq<char> {
    "{\n  \"id\": "@ + int_chars(r.id) + ",\n  \"date\": \""@ + timestamp_chars(r.date) + "\""@
        + ",\n  \"user\": "@ + json_string_chars(r.user) + ",\n  \"comp\": "@ + json_string_chars(
        r.comp,
    ) + ",\n  \"app\": "@ + json_string_chars(r.app) + ",\n  \"event\": "@ + json_string_chars(
        r.event,
    ) + ",\n  \"comment\": "@ + json_string_chars(r.comment) + ",\n  \"transaction_id\": "@
        + int_chars(r.transaction_id) + ",\n  \"transaction_status\": "@ + json_string_chars(
        r.transaction_status,
    ) + ",\n  \"metadata\": "@ + json_string_chars(r.metadata) + ",\n  \"data\": "@
        + json_string_chars(r.data) + ",\n  \"error\": "@ + bool_chars(r.error)
        + ",\n  \"database\": "@ + json_string_chars(r.database) + ",\n  \"server\": "@
        + json_string_chars(r.server) + ",\n  \"status\": "@ + json_string_chars(r.status)
        + "\n}"@
}

/// Serializes one record to its JSON document.
pub fn record_json(record: &LogRecord) -> (s: String)
    ensures
        s@ == record_json_chars(record@),
{
    let mut v: Vec<char> = Vec::new();
    append_literal(&mut v, "{\n  \"id\": ");
    let mut part = i64_to_chars(record.id);
    v.append(&mut part);
    append_literal(&mut v, ",\n  \"date\": \"");
    let mut part = timestamp_to_chars(&record.date);
    v.append(&mut part);
    append_literal(&mut v, "\"");
    append_literal(&mut v, ",\n  \"user\": ");
    append_json_string(&mut v, &record.user);
    append_literal(&mut v, ",\n  \"comp\": ");
    append_json_string(&mut v, &record.comp);
    append_literal(&mut v, ",\n  \"app\": ");
    append_json_string(&mut v, &record.app);
    append_literal(&mut v, ",\n  \"event\": ");
    append_json_string(&mut v, &record.event);
    append_literal(&mut v, ",\n  \"comment\": ");
    append_json_string(&mut v, &record.comment);
    append_literal(&mut v, ",\n  \"transaction_id\": ");
    let mut part = i64_to_chars(record.transaction_id);
    v.append(&mut part);
    append_literal(&mut v, ",\n  \"transaction_status\": ");
    append_json_string(&mut v, &record.transaction_status);
    append_literal(&mut v, ",\n  \"metadata\": ");
    append_json_string(&mut v, &record.metadata);
    append_literal(&mut v, ",\n  \"data\": ");
    append_json_string(&mut v, &record.data);
    append_literal(&mut v, ",\n  \"error\": ");
    if record.error {
        append_literal(&mut v, "true");
    } else {
        append_literal(&mut v, "false");
    }
    append_literal(&mut v, ",\n  \"database\": ");
    append_json_string(&mut v, &record.database);
    append_literal(&mut v, ",\n  \"server\": ");
    append_json_string(&mut v, &record.server);
    append_literal(&mut v, ",\n  \"status\": ");
    append_json_string(&mut v, &record.status);
    append_literal(&mut v, "\n}");
    proof {
        assert(v@ =~= record_json_chars(record@));
    }
    chars_to_string(&v)
}

/// The upsert location of a record's document:
/// `{base}/{index}/_doc/{id}`.
pub open spec fn doc_url_chars(base: Seq<char>, index_name: Seq<char>, id: int) -> Seq<char> {
    base + seq!['/'] + index_name + "/_doc/"@ + int_chars(id)
}

/// Builds the upsert location for a record id.
pub fn doc_url(base: &str, index_name: &str, id: i64) -> (s: String)
    ensures
        s@ == doc_url_chars(base@, index_name@, id as int),
{
    let mut v = to_chars(base);
    v.push('/');
    let mut part = to_chars(index_name);
    v.append(&mut part);
    let mut part = to_chars("/_doc/");
    v.append(&mut part);
    let mut part = i64_to_chars(id);
    v.append(&mut part);
    proof {
        assert(v@ =~= doc_url_chars(base@, index_name@, id as int));
    }
    chars_to_string(&v)
}

/// One failure block of the report: the response status, the record's id,
/// database and date on the first line, then the response body.
pub open spec fn failure_line_chars(status: int, rec: LogRecordView, body: Seq<char>) -> Seq<
    char,
> {
    "Error: "@ + dec_chars(status) + " : "@ + int_chars(rec.id) + " : "@ + rec.database + " : "@
        + timestamp_chars(rec.date) + seq!['\n'] + body + seq!['\n']
}

/// Formats one failure block.
pub fn failure_line(status: u16, record: &LogRecord, body: &str) -> (s: String)
    ensures
        s@ == failure_line_chars(status as int, record@, body@),
{
    let mut v = to_chars("Error: ");
    let mut part = u64_to_chars(status as u64);
    v.append(&mut part);
    let mut part = to_chars(" : ");
    v.append(&mut part);
    let mut part = i64_to_chars(record.id);
    v.append(&mut part);
    let mut part = to_chars(" : ");
    v.append(&mut part);
    let mut part = to_chars(record.database.as_str());
    v.append(&mut part);
    let mut part = to_chars(" : ");
    v.append(&mut part);
    let mut part = timestamp_to_chars(&record.date);
    v.append(&mut part);
    v.push('\n');
    let mut part = to_chars(body);
    v.append(&mut part);
    v.push('\n');
    proof {
        assert(v@ =~= failure_line_chars(status as int, record@, body@));
    }
    chars_to_string(&v)
}

/// What one delivery attempt returned: the response status and body.
#[derive(Debug)]
pub struct DeliveryOutcome {
    pub status: u16,
    pub body: String,
}

/// The abstract value of a delivery outcome.
pub ghost struct OutcomeView {
    pub status: int,
    pub body: Seq<char>,
}

impl View for DeliveryOutcome {
    type V = OutcomeView;

    open spec fn view(&self) -> OutcomeView {
        OutcomeView { status: self.status as int, body: self.body@ }
    }
}

/// The views of a sequence of outcomes.
pub open spec fn views_of_outcomes(outs: Seq<DeliveryOutcome>) -> Seq<OutcomeView> {
    outs.map_values(|o: DeliveryOutcome| o@)
}

/// The failure report for records paired with their delivery outcomes:
/// one failure block per response whose status is not 200, in input order,
/// and nothing else.
pub open spec fn report_chars(recs: Seq<LogRecordView>, outs: Seq<OutcomeView>) -> Seq<char>
    decreases recs.len(),
{
    if recs.len() == 0 {
        Seq::empty()
    } else {
        (if outs[0].status == 200 {
            Seq::<char>::empty()
        } else {
            failure_line_chars(outs[0].status, recs[0], outs[0].body)
        }) + report_chars(recs.drop_first(), outs.drop_first())
    }
}

proof fn lemma_report_push(recs: Seq<LogRecordView>, outs: Seq<OutcomeView>, r: LogRecordView,
    o: OutcomeView)
    requires
        recs.len() == outs.len(),
    ensures
        report_chars(recs.push(r), outs.push(o)) == report_chars(recs, outs) + (if o.status == 200 {
            Seq::<char>::empty()
        } else {
            failure_line_chars(o.status, r, o.body)
        }),
    decreases recs.len(),
{
    let entry = if o.status == 200 {
        Seq::<char>::empty()
    } else {
        failure_line_chars(o.status, r, o.body)
    };
    let pr = recs.push(r);
    let po = outs.push(o);
    if recs.len() == 0 {
        assert(pr[0] == r);
        assert(po[0] == o);
        assert(pr.drop_first() =~= Seq::<LogRecordView>::empty());
        assert(po.drop_first() =~= Seq::<OutcomeView>::empty());
        assert(report_chars(pr, po) == entry + report_chars(pr.drop_first(), po.drop_first()));
        assert(report_chars(Seq::<LogRecordView>::empty(), Seq::<OutcomeView>::empty())
            =~= Seq::<char>::empty());
        assert(report_chars(recs, outs) =~= Seq::<char>::empty());
        assert(report_chars(pr, po) =~= report_chars(recs, outs) + entry);
    } else {
        assert(pr[0] == recs[0]);
        assert(po[0] == outs[0]);
        assert(pr.drop_first() =~= recs.drop_first().push(r));
        assert(po.drop_first() =~= outs.drop_first().push(o));
        lemma_report_push(recs.drop_first(), outs.drop_first(), r, o);
        let head = if outs[0].status == 200 {
            Seq::<char>::empty()
        } else {
            failure_line_chars(outs[0].status, recs[0], outs[0].body)
        };
        assert(report_chars(pr, po) == head + report_chars(pr.drop_first(), po.drop_first()));
        assert(report_chars(recs, outs) == head + report_chars(recs.drop_first(),
            outs.drop_first()));
        assert(report_chars(pr, po) =~= report_chars(recs, outs) + entry);
    }
}

/// Law: when every outcome is a success, the report is empty.
pub proof fn lemma_all_success_empty_report(recs: Seq<LogRecordView>, outs: Seq<OutcomeView>)
    requires
        recs.len() == outs.len(),
        forall|i: int| 0 <= i < outs.len() ==> (#[trigger] outs[i]).status == 200,
    ensures
        report_chars(recs, outs) == Seq::<char>::empty(),
    decreases recs.len(),
{
    if recs.len() > 0 {
        assert(outs[0].status == 200);
        lemma_all_success_empty_report(recs.drop_first(), outs.drop_first());
        assert(report_chars(recs, outs) =~= Seq::<char>::empty());
    }
}

/// Builds the failure report for the records of one source and the
/// outcome of each record's delivery attempt, paired by position.
pub fn build_report(records: &Vec<LogRecord>, outcomes: &Vec<DeliveryOutcome>) -> (s: String)
    requires
        records@.len() == outcomes@.len(),
    ensures
        s@ == report_chars(
            crate::resolver::views_of_records(records@),
            views_of_outcomes(outcomes@),
        ),
{
    let mut v: Vec<char> = Vec::new();
    let mut i: usize = 0;
    let ghost recs = crate::resolver::views_of_records(records@);
    let ghost outs = views_of_outcomes(outcomes@);
    proof {
        assert(recs.take(0) =~= Seq::<LogRecordView>::empty());
        assert(outs.take(0) =~= Seq::<OutcomeView>::empty());
    }
    while i < records.len()
        invariant
            i <= records@.len(),
            records@.len() == outcomes@.len(),
            recs == crate::resolver::views_of_records(records@),
            outs == views_of_outcomes(outcomes@),
            v@ == report_chars(recs.take(i as int), outs.take(i as int)),
        decreases records@.len() - i,
    {
        proof {
            assert(recs.take(i + 1) =~= recs.take(i as int).push(recs[i as int]));
            assert(outs.take(i + 1) =~= outs.take(i as int).push(outs[i as int]));
            lemma_report_push(recs.take(i as int), outs.take(i as int), recs[i as int],
                outs[i as int]);
        }
        let status = outcomes[i].status;
        if status != 200 {
            let line = failure_line(status, &records[i], outcomes[i].body.as_str());
            let mut part = to_chars(line.as_str());
            v.append(&mut part);
        }
        proof {
            assert(v@ =~= report_chars(recs.take(i + 1), outs.take(i + 1)));
        }
        i = i + 1;
    }
    proof {
        assert(recs.take(records@.len() as int) =~= recs);
        assert(outs.take(outcomes@.len() as int) =~= outs);
    }
    chars_to_string(&v)
}

proof fn lemma_digit_char_in_range(d: int)
    requires
        0 <= d < 10,
    ensures
        digit_char(d) != '-',
{
}

proof fn lemma_dec_chars_len(n: int)
    requires
        n >= 0,
    ensures
        dec_chars(n).len() >= 1,
        n >= 10 ==> dec_chars(n).len() >= 2,
        n < 10 ==> dec_chars(n).len() == 1,
    decreases n,
{
    if n >= 10 {
        lemma_dec_chars_len(n / 10);
    }
}

proof fn lemma_dec_chars_first(n: int)
    requires
        n >= 0,
    ensures
        dec_chars(n)[0] != '-',
    decreases n,
{
    if n < 10 {
        lemma_digit_char_in_range(n);
    } else {
        lemma_dec_chars_len(n / 10);
        lemma_dec_chars_first(n / 10);
        assert(dec_chars(n)[0] == dec_chars(n / 10)[0]);
    }
}

proof fn lemma_dec_chars_injective(a: int, b: int)
    requires
        a >= 0,
        b >= 0,
        dec_chars(a) == dec_chars(b),
    ensures
        a == b,
    decreases a,
{
    lemma_dec_chars_len(a);
    lemma_dec_chars_len(b);
    if a < 10 && b < 10 {
        assert(dec_chars(a)[0] == digit_char(a));
        assert(dec_chars(b)[0] == digit_char(b));
    } else if a >= 10 && b >= 10 {
        assert(dec_chars(a).last() == digit_char(a % 10));
        assert(dec_chars(b).last() == digit_char(b % 10));
        assert(a % 10 == b % 10);
        assert(dec_chars(a).drop_last() =~= dec_chars(a / 10));
        assert(dec_chars(b).drop_last() =~= dec_chars(b / 10));
        lemma_dec_chars_injective(a / 10, b / 10);
        vstd::arithmetic::div_mod::lemma_fundamental_div_mod(a, 10);
        vstd::arithmetic::div_mod::lemma_fundamental_div_mod(b, 10);
    } else {
        // One has a single digit, the other at least two: lengths differ.
        assert(false);
    }
}

proof fn lemma_int_chars_injective(a: int, b: int)
    requires
        int_chars(a) == int_chars(b),
    ensures
        a == b,
{
    if a >= 0 && b >= 0 {
        lemma_dec_chars_injective(a, b);
    } else if a < 0 && b < 0 {
        lemma_dec_chars_len(-a);
        lemma_dec_chars_len(-b);
        assert(int_chars(a).len() == 1 + dec_chars(-a).len());
        assert(int_chars(b).len() == 1 + dec_chars(-b).len());
        assert(dec_chars(-a).len() == dec_chars(-b).len());
        assert(dec_chars(-a) =~= dec_chars(-b)) by {
            assert forall|k: int| 0 <= k < dec_chars(-a).len() implies #[trigger] dec_chars(
                -a,
            )[k] == dec_chars(-b)[k] by {
                assert(int_chars(a)[k + 1] == dec_chars(-a)[k]);
                assert(int_chars(b)[k + 1] == dec_chars(-b)[k]);
            }
        }
        lemma_dec_chars_injective(-a, -b);
    } else if a < 0 {
        assert(int_chars(a)[0] == '-');
        lemma_dec_chars_first(b);
        assert(false);
    } else {
        assert(int_chars(b)[0] == '-');
        lemma_dec_chars_first(a);
        assert(false);
    }
}

/// Law: the upsert location determines the document. Two deliveries with
/// the same base and index address the same document exactly when their
/// record ids are equal, so delivering one record twice overwrites a
/// single document rather than creating a second one.
pub proof fn lemma_upsert_key_injective(base: Seq<char>, index_name: Seq<char>, a: int, b: int)
    ensures
        doc_url_chars(base, index_name, a) == doc_url_chars(base, index_name, b) <==> a == b,
{
    if doc_url_chars(base, index_name, a) == doc_url_chars(base, index_name, b) {
        let ua = doc_url_chars(base, index_name, a);
        let ub = doc_url_chars(base, index_name, b);
        let prefix = base + seq!['/'] + index_name + "/_doc/"@;
        assert(ua.len() == prefix.len() + int_chars(a).len());
        assert(int_chars(a).len() == int_chars(b).len());
        assert(int_chars(a) =~= int_chars(b)) by {
            assert forall|k: int| 0 <= k < int_chars(a).len() implies int_chars(a)[k]
                == int_chars(b)[k] by {
                assert(ua[prefix.len() + k] == int_chars(a)[k]);
                assert(ub[prefix.len() + k] == int_chars(b)[k]);
            }
        }
        lemma_int_chars_injective(a, b);
    }
}

} // verus!
