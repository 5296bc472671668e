//! The record resolver: takes the raw rows of one source's event-log table
//! together with its code tables, keeps the rows of the requested inclusive
//! id range, resolves every coded reference to its display name, derives
//! the error flag and the status text, decodes the timestamp, and returns
//! the normalized records ordered by id descending.
//!
//! An unresolved user, application or event reference fails the whole
//! fetch; an unresolved computer or metadata reference resolves to the
//! empty string.

use vstd::prelude::*;
use vstd::multiset::Multiset;
use crate::catalog::{catalog_display_name, display_name, is_error_event_name, name_marks_error,
    opt_name_view};
use crate::codec::{civil_from_millis, decode_record_id, EPOCH_OFFSET_MILLIS, MIN_RECORD_ID};
use crate::records::{CodePair, CodeTables, LogRecord, LogRecordView, RawLogRow};

verus! {

broadcast use vstd::seq_lib::group_to_multiset_ensures, vstd::multiset::group_multiset_axioms;

/// Why a fetch failed: a coded reference that every record must resolve
/// had no matching row in its lookup table.
#[derive(Clone, Copy, PartialEq, Eq, Structural, Debug)]
pub enum FetchError {
    UnknownUser,
    UnknownApplication,
    UnknownEvent,
}

/// The name paired with `code` in the table, searching from the front.
pub open spec fn table_lookup(t: Seq<CodePair>, code: int) -> Option<Seq<char>>
    decreases t.len(),
{
    if t.len() == 0 {
        None
    } else if t[0].code as int == code {
        Some(t[0].name@)
    } else {
        table_lookup(t.drop_first(), code)
    }
}

/// Looks `code` up in a code table.
pub fn find_name(t: &Vec<CodePair>, code: i64) -> (r: Option<String>)
    ensures
        opt_name_view(r) == table_lookup(t@, code as int),
{
    let mut i: usize = 0;
    proof {
        assert(t@.skip(0) =~= t@);
    }
    while i < t.len()
        invariant
            i <= t@.len(),
            table_lookup(t@, code as int) == table_lookup(t@.skip(i as int), code as int),
        decreases t@.len() - i,
    {
        proof {
            assert(t@.skip(i as int).len() > 0);
            assert(t@.skip(i as int)[0] == t@[i as int]);
            assert(t@.skip(i as int).drop_first() =~= t@.skip(i + 1));
        }
        if t[i].code == code {
            return Some(t[i].name.clone());
        }
        i = i + 1;
    }
    proof {
        assert(t@.skip(t@.len() as int) =~= Seq::<CodePair>::empty());
    }
    None
}

/// The display name of the row's event, resolved through the event-code
/// table and then the catalog.
pub open spec fn resolved_event_name(row: RawLogRow, tables: CodeTables) -> Option<Seq<char>> {
    match table_lookup(tables.events@, row.event_code as int) {
        Some(code_text) => catalog_display_name(code_text),
        None => None,
    }
}

/// The first reference of the row that fails to resolve, if any, in the
/// order user, application, event.
pub open spec fn row_error(row: RawLogRow, tables: CodeTables) -> Option<FetchError> {
    if table_lookup(tables.users@, row.user_code as int) is None {
        Some(FetchError::UnknownUser)
    } else if table_lookup(tables.apps@, row.app_code as int) is None {
        Some(FetchError::UnknownApplication)
    } else if resolved_event_name(row, tables) is None {
        Some(FetchError::UnknownEvent)
    } else {
        None
    }
}

/// A resolved name, or the empty string for a join miss.
pub open spec fn or_empty(o: Option<Seq<char>>) -> Seq<char> {
    match o {
        Some(s) => s,
        None => Seq::empty(),
    }
}

/// Display text of a transaction-status code: 1 committed, 2 rolled back,
/// anything else empty.
pub open spec fn transaction_status_chars(code: int) -> Seq<char> {
    if code == 1 {
        "Зафиксирована"@
    } else if code == 2 {
        "Отменена"@
    } else {
        Seq::empty()
    }
}

/// Display text of a transaction-status code.
pub fn transaction_status_text(code: i64) -> (s: String)
    ensures
        s@ == transaction_status_chars(code as int),
{
    if code == 1 {
        String::from_str("Зафиксирована")
    } else if code == 2 {
        String::from_str("Отменена")
    } else {
        String::new()
    }
}

/// The normalized record that a resolvable raw row denotes.
pub open spec fn resolved_view(
    row: RawLogRow,
    tables: CodeTables,
    server: Seq<char>,
    database: Seq<char>,
) -> LogRecordView {
    let event = or_empty(resolved_event_name(row, tables));
    let err = is_error_event_name(event);
    let tstat = transaction_status_chars(row.transaction_status as int);
    LogRecordView {
        id: row.id as int,
        date: civil_from_millis(row.id as int / 10 - EPOCH_OFFSET_MILLIS),
        user: or_empty(table_lookup(tables.users@, row.user_code as int)),
        comp: or_empty(table_lookup(tables.computers@, row.computer_code as int)),
        app: or_empty(table_lookup(tables.apps@, row.app_code as int)),
        event: event,
        comment: row.comment@,
        transaction_id: row.transaction_id as int,
        transaction_status: tstat,
        metadata: or_empty(table_lookup(tables.metadata_objects@, row.metadata_code as int)),
        data: row.data@,
        error: err,
        database: database,
        server: server,
        status: if err {
            "Ошибка"@
        } else {
            tstat
        },
    }
}

/// Resolves one raw row into a normalized record, or reports the first
/// reference that has no match.
pub fn resolve_row(row: RawLogRow, tables: &CodeTables, server: &str, database: &str) -> (r:
    Result<LogRecord, FetchError>)
    requires
        row.id >= MIN_RECORD_ID,
    ensures
        match row_error(row, *tables) {
            None => r matches Ok(rec) && rec@ == resolved_view(row, *tables, server@, database@),
            Some(e) => r == Err::<LogRecord, FetchError>(e),
        },
{
    let ghost grow = row;
    let user = match find_name(&tables.users, row.user_code) {
        Some(u) => u,
        None => {
            return Err(FetchError::UnknownUser);
        },
    };
    let app = match find_name(&tables.apps, row.app_code) {
        Some(a) => a,
        None => {
            return Err(FetchError::UnknownApplication);
        },
    };
    let event_code_text = match find_name(&tables.events, row.event_code) {
        Some(t) => t,
        None => {
            return Err(FetchError::UnknownEvent);
        },
    };
    let event = match display_name(&event_code_text) {
        Some(e) => e,
        None => {
            return Err(FetchError::UnknownEvent);
        },
    };
    let comp = match find_name(&tables.computers, row.computer_code) {
        Some(c) => c,
        None => String::new(),
    };
    let metadata = match find_name(&tables.metadata_objects, row.metadata_code) {
        Some(m) => m,
        None => String::new(),
    };
    let err = name_marks_error(&event);
    let tstat = transaction_status_text(row.transaction_status);
    let status = if err {
        String::from_str("Ошибка")
    } else {
        tstat.clone()
    };
    let date = decode_record_id(row.id);
    let rec = LogRecord {
        id: row.id,
        date,
        user,
        comp,
        app,
        event,
        comment: row.comment,
        transaction_id: row.transaction_id,
        transaction_status: tstat,
        metadata,
        data: row.data,
        error: err,
        database: String::from_str(database),
        server: String::from_str(server),
        status,
    };
    proof {
        assert(rec@ =~= resolved_view(grow, *tables, server@, database@));
    }
    Ok(rec)
}

/// The row's id lies in the inclusive range `[lo, hi]`.
pub open spec fn record_in_range(row: RawLogRow, lo: int, hi: int) -> bool {
    lo <= row.id as int && row.id as int <= hi
}

/// The range filter as a predicate value.
pub open spec fn in_range_pred(lo: int, hi: int) -> spec_fn(RawLogRow) -> bool {
    |row: RawLogRow| record_in_range(row, lo, hi)
}

/// The rows of `rows` that lie in `[lo, hi]`, in input order.
pub open spec fn rows_in_range(rows: Seq<RawLogRow>, lo: int, hi: int) -> Seq<RawLogRow> {
    rows.filter(in_range_pred(lo, hi))
}

/// The resolution of each row as a function value.
pub open spec fn resolved_of(
    tables: CodeTables,
    server: Seq<char>,
    database: Seq<char>,
) -> spec_fn(RawLogRow) -> LogRecordView {
    |row: RawLogRow| resolved_view(row, tables, server, database)
}

/// The abstract values of a sequence of records.
pub open spec fn views_of_records(recs: Seq<LogRecord>) -> Seq<LogRecordView> {
    recs.map_values(|r: LogRecord| r@)
}

/// Record ids are non-increasing: most recent first.
pub open spec fn sorted_desc(recs: Seq<LogRecord>) -> bool {
    forall|i: int, j: int| 0 <= i <= j < recs.len() ==> recs[i].id >= recs[j].id
}

proof fn lemma_map_values_remove<A, B>(s: Seq<A>, f: spec_fn(A) -> B, i: int)
    requires
        0 <= i < s.len(),
    ensures
        s.remove(i).map_values(f) == s.map_values(f).remove(i),
{
    assert(s.remove(i).map_values(f) =~= s.map_values(f).remove(i));
}

proof fn lemma_filter_member_index<A>(s: Seq<A>, pred: spec_fn(A) -> bool, x: A)
    requires
        s.filter(pred).contains(x),
    ensures
        exists|i: int| 0 <= i < s.len() && s[i] == x,
    decreases s.len(),
{
    reveal(Seq::filter);
    if s.len() > 0 {
        if pred(s.last()) && s.last() == x {
            assert(s[s.len() - 1] == x);
        } else {
            let sub = s.drop_last();
            if pred(s.last()) {
                let j = choose|j: int| 0 <= j < s.filter(pred).len() && s.filter(pred)[j] == x;
                assert(j < s.filter(pred).len() - 1);
                assert(sub.filter(pred)[j] == x);
                assert(sub.filter(pred).contains(x));
            }
            lemma_filter_member_index(sub, pred, x);
            let i = choose|i: int| 0 <= i < sub.len() && sub[i] == x;
            assert(s[i] == x);
        }
    }
}

fn index_of_max_id(v: &Vec<RawLogRow>) -> (b: usize)
    requires
        v@.len() > 0,
    ensures
        b < v@.len(),
        forall|k: int| 0 <= k < v@.len() ==> v@[b as int].id >= #[trigger] v@[k].id,
{
    let mut b: usize = 0;
    let mut k: usize = 1;
    while k < v.len()
        invariant
            b < k <= v@.len() || (k == 1 && b == 0),
            b < v@.len(),
            k <= v@.len() || k == 1,
            forall|t: int| 0 <= t < k ==> v@[b as int].id >= #[trigger] v@[t].id,
        decreases v@.len() - k,
    {
        if v[k].id > v[b].id {
            b = k;
        }
        k = k + 1;
    }
    b
}

/// Fetches the records of the inclusive range `[start_log_record,
/// end_log_record]` from the raw rows of one source, resolved and ordered
/// by id descending. Succeeds exactly when every row in range resolves;
/// the first unresolvable reference (in id-descending order) aborts the
/// whole fetch.
pub fn read_log_records(
    rows: Vec<RawLogRow>,
    tables: &CodeTables,
    start_log_record: i64,
    end_log_record: i64,
    server: &str,
    database: &str,
) -> (r: Result<Vec<LogRecord>, FetchError>)
    requires
        start_log_record >= MIN_RECORD_ID,
    ensures
        r is Ok <==> (forall|i: int|
            0 <= i < rows@.len() && record_in_range(
                #[trigger] rows@[i],
                start_log_record as int,
                end_log_record as int,
            ) ==> row_error(rows@[i], *tables) is None),
        r matches Ok(out) ==> {
            let wanted = rows_in_range(rows@, start_log_record as int, end_log_record as int);
            &&& out@.len() == wanted.len()
            &&& sorted_desc(out@)
            &&& views_of_records(out@).to_multiset() == wanted.map_values(
                resolved_of(*tables, server@, database@),
            ).to_multiset()
        },
        r matches Err(e) ==> exists|i: int|
            0 <= i < rows@.len() && record_in_range(
                #[trigger] rows@[i],
                start_log_record as int,
                end_log_record as int,
            ) && row_error(rows@[i], *tables) == Some(e),
{
    let ghost lo: int = start_log_record as int;
    let ghost hi: int = end_log_record as int;
    let ghost pred = in_range_pred(lo, hi);
    let ghost rv = resolved_of(*tables, server@, database@);

    let mut kept: Vec<RawLogRow> = Vec::new();
    let mut i: usize = 0;
    proof {
        reveal(Seq::filter);
        assert(rows@.take(0) =~= Seq::<RawLogRow>::empty());
    }
    while i < rows.len()
        invariant
            i <= rows@.len(),
            pred == in_range_pred(lo, hi),
            lo == start_log_record as int,
            hi == end_log_record as int,
            kept@ == rows@.take(i as int).filter(pred),
        decreases rows@.len() - i,
    {
        let row = rows[i].clone();
        proof {
            reveal(Seq::filter);
            assert(rows@.take(i + 1).drop_last() =~= rows@.take(i as int));
            assert(rows@.take(i + 1).last() == rows@[i as int]);
        }
        if start_log_record <= row.id && row.id <= end_log_record {
            proof {
                assert(pred(rows@[i as int]));
            }
            kept.push(row);
        } else {
            proof {
                assert(!pred(rows@[i as int]));
            }
        }
        i = i + 1;
    }
    proof {
        assert(rows@.take(rows@.len() as int) =~= rows@);
    }
    let ghost wanted: Seq<RawLogRow> = rows_in_range(rows@, lo, hi);
    let ghost wanted_views_ms = wanted.map_values(rv).to_multiset();
    proof {
        assert(kept@ == wanted);
        assert forall|j: int| 0 <= j < wanted.len() implies pred(#[trigger] wanted[j])
            && wanted.contains(wanted[j]) by {
            rows@.lemma_filter_pred(pred, j);
        }
    }

    let mut out: Vec<LogRecord> = Vec::new();
    while kept.len() > 0
        invariant
            pred == in_range_pred(lo, hi),
            rv == resolved_of(*tables, server@, database@),
            lo == start_log_record as int,
            hi == end_log_record as int,
            lo >= MIN_RECORD_ID,
            wanted == rows_in_range(rows@, lo, hi),
            wanted_views_ms == wanted.map_values(rv).to_multiset(),
            forall|k: int| 0 <= k < kept@.len() ==> pred(#[trigger] kept@[k]) && wanted.contains(
                kept@[k],
            ),
            views_of_records(out@).to_multiset().add(kept@.map_values(rv).to_multiset())
                == wanted_views_ms,
            forall|j: int|
                0 <= j < wanted.len() ==> (exists|k: int|
                    0 <= k < kept@.len() && kept@[k] == #[trigger] wanted[j]) || row_error(
                    wanted[j],
                    *tables,
                ) is None,
            sorted_desc(out@),
            forall|a: int, k: int|
                0 <= a < out@.len() && 0 <= k < kept@.len() ==> out@[a].id >= kept@[k].id,
        decreases kept@.len(),
    {
        let ghost kept_old = kept@;
        let b = index_of_max_id(&kept);
        let row = kept.remove(b);
        proof {
            assert(row == kept_old[b as int]);
            assert(kept@ == kept_old.remove(b as int));
            lemma_map_values_remove(kept_old, rv, b as int);
            assert(kept_old.map_values(rv)[b as int] == rv(row));
            assert(kept@.map_values(rv).to_multiset() == kept_old.map_values(
                rv,
            ).to_multiset().remove(rv(row)));
            assert(kept_old.map_values(rv).to_multiset().count(rv(row)) > 0);
            // Facts about the remaining elements after the removal.
            assert forall|k: int| 0 <= k < kept@.len() implies pred(#[trigger] kept@[k])
                && wanted.contains(kept@[k]) && kept_old.contains(kept@[k]) by {
                if k < b {
                    assert(kept@[k] == kept_old[k]);
                } else {
                    assert(kept@[k] == kept_old[k + 1]);
                }
            }
            assert(pred(row));
        }
        match resolve_row(row, tables, server, database) {
            Err(e) => {
                proof {
                    lemma_filter_member_index(rows@, pred, kept_old[b as int]);
                    let i0 = choose|i0: int|
                        0 <= i0 < rows@.len() && rows@[i0] == kept_old[b as int];
                    assert(record_in_range(rows@[i0], lo, hi));
                    assert(row_error(rows@[i0], *tables) == Some(e));
                }
                return Err(e);
            },
            Ok(rec) => {
                proof {
                    assert(rec@ == rv(kept_old[b as int]));
                    assert(views_of_records(out@.push(rec)) =~= views_of_records(out@).push(
                        rec@,
                    ));
                    assert(views_of_records(out@.push(rec)).to_multiset() == views_of_records(
                        out@,
                    ).to_multiset().insert(rec@));
                    assert(views_of_records(out@.push(rec)).to_multiset().add(
                        kept@.map_values(rv).to_multiset(),
                    ) =~= wanted_views_ms);
                    // The resolved row is no longer pending, but it now
                    // resolves, so the discovery invariant is preserved.
                    assert forall|j: int|
                        0 <= j < wanted.len() implies (exists|k: int|
                        0 <= k < kept@.len() && kept@[k] == #[trigger] wanted[j]) || row_error(
                        wanted[j],
                        *tables,
                    ) is None by {
                        if exists|k: int| 0 <= k < kept_old.len() && kept_old[k] == wanted[j] {
                            let k0 = choose|k0: int|
                                0 <= k0 < kept_old.len() && kept_old[k0] == wanted[j];
                            if kept_old[k0] == kept_old[b as int] {
                                assert(row_error(wanted[j], *tables) is None);
                            } else if k0 < b {
                                assert(kept@[k0] == kept_old[k0]);
                            } else {
                                assert(kept@[k0 - 1] == kept_old[k0]);
                            }
                        }
                    }
                    // Sortedness: the removed row had the largest id left.
                    assert(rec.id == row.id);
                    assert forall|k: int| 0 <= k < kept@.len() implies rec.id >= kept@[k].id by {
                        if k < b {
                            assert(kept@[k] == kept_old[k]);
                        } else {
                            assert(kept@[k] == kept_old[k + 1]);
                        }
                    }
                }
                out.push(rec);
            },
        }
    }
    proof {
        assert(kept@.map_values(rv).len() == 0);
        vstd::multiset::lemma_multiset_empty_len(kept@.map_values(rv).to_multiset());
        assert(views_of_records(out@).to_multiset().add(Multiset::<LogRecordView>::empty())
            =~= views_of_records(out@).to_multiset());
        assert(views_of_records(out@).to_multiset() == wanted_views_ms);
        assert(views_of_records(out@).len() == out@.len());
        assert(wanted.map_values(rv).len() == wanted.len());
        assert(views_of_records(out@).to_multiset().len() == views_of_records(out@).len());
        assert(wanted.map_values(rv).to_multiset().len() == wanted.map_values(rv).len());
        assert(out@.len() == wanted.len());
        // Every in-range row resolves: it appears in the filtered sequence,
        // and everything there was resolved during the loop.
        assert forall|i0: int|
            0 <= i0 < rows@.len() && record_in_range(#[trigger] rows@[i0], lo, hi) implies
            row_error(rows@[i0], *tables) is None by {
            assert(pred(rows@[i0]));
            rows@.lemma_filter_contains(pred, i0);
            assert(wanted.contains(rows@[i0]));
            let j = choose|j: int| 0 <= j < wanted.len() && wanted[j] == rows@[i0];
            assert(row_error(wanted[j], *tables) is None);
        }
    }
    Ok(out)
}

/// Law: a record whose resolved event display name contains the error
/// marker has its error flag set and its status forced to the error label,
/// whatever its transaction-status code says.
pub proof fn lemma_error_classification(
    row: RawLogRow,
    tables: CodeTables,
    server: Seq<char>,
    database: Seq<char>,
)
    requires
        is_error_event_name(or_empty(resolved_event_name(row, tables))),
    ensures
        resolved_view(row, tables, server, database).error,
        resolved_view(row, tables, server, database).status == "Ошибка"@,
{
}

/// Law: a record that is not an error event derives its status from the
/// transaction-status code: 1 is committed, 2 is rolled back, anything
/// else is the empty string.
pub proof fn lemma_status_derivation(
    row: RawLogRow,
    tables: CodeTables,
    server: Seq<char>,
    database: Seq<char>,
)
    requires
        !is_error_event_name(or_empty(resolved_event_name(row, tables))),
    ensures
        !resolved_view(row, tables, server, database).error,
        resolved_view(row, tables, server, database).status == transaction_status_chars(
            row.transaction_status as int,
        ),
        row.transaction_status == 1 ==> resolved_view(row, tables, server, database).status
            == "Зафиксирована"@,
        row.transaction_status == 2 ==> resolved_view(row, tables, server, database).status
            == "Отменена"@,
        row.transaction_status != 1 && row.transaction_status != 2 ==> resolved_view(
            row,
            tables,
            server,
            database,
        ).status == Seq::<char>::empty(),
{
}

/// Law: an unresolved computer or metadata reference resolves to the empty
/// string instead of failing the record.
pub proof fn lemma_unresolved_join(
    row: RawLogRow,
    tables: CodeTables,
    server: Seq<char>,
    database: Seq<char>,
)
    ensures
        table_lookup(tables.computers@, row.computer_code as int) is None ==> resolved_view(
            row,
            tables,
            server,
            database,
        ).comp == Seq::<char>::empty(),
        table_lookup(tables.metadata_objects@, row.metadata_code as int) is None
            ==> resolved_view(row, tables, server, database).metadata == Seq::<char>::empty(),
{
}

} // verus!
