//! Source configuration: parsing one pipe-delimited line into a
//! [`BaseOptions`], and planning which configured sources to process —
//! a source whose database file is absent is skipped silently, which is a
//! normal condition and not an error.

use vstd::prelude::*;
use crate::records::BaseOptions;
use crate::text::{
    chars_to_string, int_text_val, parse_i64, parses_to_i64, split_chars, split_on, to_chars,
    trim_blanks, trim_chars, views_of_parts,
};

verus! {

/// Why a configuration line was rejected. Any of these is fatal to the
/// whole run: no source is processed from a malformed configuration.
#[derive(Clone, Copy, PartialEq, Eq, Structural, Debug)]
pub enum OptionsError {
    MissingFields,
    BadStartRecord,
    BadEndRecord,
}

/// The pipe-separated fields of a configuration line. The first field is
/// reserved and ignored; then server label, display name, start and end
/// record ids, and the database path.
pub open spec fn line_fields(line: Seq<char>) -> Seq<Seq<char>> {
    split_chars(line, '|')
}

/// Parses one configuration line. The line must have at least six fields;
/// the record-id fields are taken verbatim (untrimmed) as decimal
/// integers, the text fields are trimmed.
pub fn parse_base_options_line(line: &str) -> (r: Result<BaseOptions, OptionsError>)
    ensures
        ({
            let fields = line_fields(line@);
            match r {
                Ok(b) => {
                    &&& fields.len() >= 6
                    &&& parses_to_i64(fields[3])
                    &&& parses_to_i64(fields[4])
                    &&& b.server@ == trim_chars(fields[1])
                    &&& b.name@ == trim_chars(fields[2])
                    &&& b.start_log_record as int == int_text_val(fields[3])
                    &&& b.end_log_record as int == int_text_val(fields[4])
                    &&& b.log@ == trim_chars(fields[5])
                },
                Err(OptionsError::MissingFields) => fields.len() < 6,
                Err(OptionsError::BadStartRecord) => fields.len() >= 6 && !parses_to_i64(
                    fields[3],
                ),
                Err(OptionsError::BadEndRecord) => fields.len() >= 6 && parses_to_i64(fields[3])
                    && !parses_to_i64(fields[4]),
            }
        }),
{
    let chars = to_chars(line);
    let parts = split_on(&chars, '|');
    let ghost fields = line_fields(line@);
    proof {
        assert(views_of_parts(parts@) == fields);
        assert(fields.len() == parts@.len());
    }
    if parts.len() < 6 {
        return Err(OptionsError::MissingFields);
    }
    proof {
        assert(fields[1] == parts@[1]@);
        assert(fields[2] == parts@[2]@);
        assert(fields[3] == parts@[3]@);
        assert(fields[4] == parts@[4]@);
        assert(fields[5] == parts@[5]@);
    }
    let start_log_record = match parse_i64(&parts[3]) {
        Some(v) => v,
        None => {
            return Err(OptionsError::BadStartRecord);
        },
    };
    let end_log_record = match parse_i64(&parts[4]) {
        Some(v) => v,
        None => {
            return Err(OptionsError::BadEndRecord);
        },
    };
    let server_t = trim_blanks(&parts[1]);
    let name_t = trim_blanks(&parts[2]);
    let log_t = trim_blanks(&parts[5]);
    Ok(
        BaseOptions {
            server: chars_to_string(&server_t),
            name: chars_to_string(&name_t),
            start_log_record,
            end_log_record,
            log: chars_to_string(&log_t),
        },
    )
}

/// The configured sources whose database file is present, in
/// configuration order.
pub open spec fn selected_sources(opts: Seq<BaseOptions>, present: Seq<bool>) -> Seq<
    BaseOptions,
>
    decreases opts.len(),
{
    if opts.len() == 0 {
        Seq::empty()
    } else {
        (if present[0] {
            seq![opts[0]]
        } else {
            Seq::empty()
        }) + selected_sources(opts.drop_first(), present.drop_first())
    }
}

proof fn lemma_selected_push(opts: Seq<BaseOptions>, present: Seq<bool>, o: BaseOptions, p: bool)
    requires
        opts.len() == present.len(),
    ensures
        selected_sources(opts.push(o), present.push(p)) == selected_sources(opts, present) + (
        if p {
            seq![o]
        } else {
            Seq::<BaseOptions>::empty()
        }),
    decreases opts.len(),
{
    let tail = if p {
        seq![o]
    } else {
        Seq::<BaseOptions>::empty()
    };
    let po = opts.push(o);
    let pp = present.push(p);
    if opts.len() == 0 {
        assert(po[0] == o);
        assert(pp[0] == p);
        assert(po.drop_first() =~= Seq::<BaseOptions>::empty());
        assert(pp.drop_first() =~= Seq::<bool>::empty());
        assert(selected_sources(Seq::<BaseOptions>::empty(), Seq::<bool>::empty())
            =~= Seq::<BaseOptions>::empty());
        assert(selected_sources(po, pp) =~= selected_sources(opts, present) + tail);
    } else {
        assert(po[0] == opts[0]);
        assert(pp[0] == present[0]);
        assert(po.drop_first() =~= opts.drop_first().push(o));
        assert(pp.drop_first() =~= present.drop_first().push(p));
        lemma_selected_push(opts.drop_first(), present.drop_first(), o, p);
        let head = if present[0] {
            seq![opts[0]]
        } else {
            Seq::<BaseOptions>::empty()
        };
        assert(selected_sources(po, pp) == head + selected_sources(po.drop_first(),
            pp.drop_first()));
        assert(selected_sources(opts, present) == head + selected_sources(opts.drop_first(),
            present.drop_first()));
        assert(selected_sources(po, pp) =~= selected_sources(opts, present) + tail);
    }
}

/// Plans one run: keeps the configured sources whose database file is
/// present, in order, and drops the rest.
pub fn sources_to_process(options: &Vec<BaseOptions>, present: &Vec<bool>) -> (r: Vec<
    BaseOptions,
>)
    requires
        options@.len() == present@.len(),
    ensures
        r@ == selected_sources(options@, present@),
{
    let mut r: Vec<BaseOptions> = Vec::new();
    let mut i: usize = 0;
    proof {
        assert(options@.take(0) =~= Seq::<BaseOptions>::empty());
        assert(present@.take(0) =~= Seq::<bool>::empty());
        assert(r@ =~= selected_sources(options@.take(0), present@.take(0)));
    }
    while i < options.len()
        invariant
            i <= options@.len(),
            options@.len() == present@.len(),
            r@ == selected_sources(options@.take(i as int), present@.take(i as int)),
        decreases options@.len() - i,
    {
        proof {
            assert(options@.take(i + 1) =~= options@.take(i as int).push(options@[i as int]));
            assert(present@.take(i + 1) =~= present@.take(i as int).push(present@[i as int]));
            lemma_selected_push(
                options@.take(i as int),
                present@.take(i as int),
                options@[i as int],
                present@[i as int],
            );
        }
        if present[i] {
            r.push(options[i].clone());
            proof {
                assert(r@ =~= selected_sources(options@.take(i + 1), present@.take(i + 1)));
            }
        } else {
            proof {
                assert(r@ =~= selected_sources(options@.take(i + 1), present@.take(i + 1)));
            }
        }
        i = i + 1;
    }
    proof {
        assert(options@.take(options@.len() as int) =~= options@);
        assert(present@.take(present@.len() as int) =~= present@);
    }
    r
}

/// Law: when no configured source has its database file present, nothing
/// is processed — absent sources cause no fetch, no delivery and no error.
pub proof fn lemma_absent_sources_skipped(opts: Seq<BaseOptions>, present: Seq<bool>)
    requires
        opts.len() == present.len(),
        forall|i: int| 0 <= i < present.len() ==> !(#[trigger] present[i]),
    ensures
        selected_sources(opts, present) == Seq::<BaseOptions>::empty(),
    decreases opts.len(),
{
    if opts.len() > 0 {
        assert(!present[0]);
        lemma_absent_sources_skipped(opts.drop_first(), present.drop_first());
        assert(selected_sources(opts, present) =~= Seq::<BaseOptions>::empty());
    }
}

/// Law: when every configured source is present, all of them are
/// processed, in configuration order.
pub proof fn lemma_present_sources_kept(opts: Seq<BaseOptions>, present: Seq<bool>)
    requires
        opts.len() == present.len(),
        forall|i: int| 0 <= i < present.len() ==> #[trigger] present[i],
    ensures
        selected_sources(opts, present) == opts,
    decreases opts.len(),
{
    if opts.len() > 0 {
        assert(present[0]);
        lemma_present_sources_kept(opts.drop_first(), present.drop_first());
        assert(selected_sources(opts, present) =~= opts);
    }
}

} // verus!
