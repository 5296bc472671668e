use collect_logs::options::{parse_base_options_line, sources_to_process, OptionsError};
use collect_logs::records::BaseOptions;

#[test]
fn parses_a_configuration_line() {
    let line = "0| srv-1 | My Base |637949088000000|637949088001000| /var/data/base.sqlite ";
    let b = parse_base_options_line(line).unwrap();
    assert_eq!(b.server, "srv-1");
    assert_eq!(b.name, "My Base");
    assert_eq!(b.start_log_record, 637949088000000);
    assert_eq!(b.end_log_record, 637949088001000);
    assert_eq!(b.log, "/var/data/base.sqlite");
}

#[test]
fn parses_negative_and_signed_numbers() {
    let b = parse_base_options_line("x|s|n|-5|+10|p").unwrap();
    assert_eq!(b.start_log_record, -5);
    assert_eq!(b.end_log_record, 10);
}

#[test]
fn rejects_short_lines() {
    assert_eq!(parse_base_options_line("a|b|c").unwrap_err(), OptionsError::MissingFields);
    assert_eq!(parse_base_options_line("").unwrap_err(), OptionsError::MissingFields);
}

#[test]
fn rejects_non_numeric_record_ids() {
    assert_eq!(
        parse_base_options_line("0|s|n|12x|34|p").unwrap_err(),
        OptionsError::BadStartRecord
    );
    assert_eq!(
        parse_base_options_line("0|s|n| 12|34|p").unwrap_err(),
        OptionsError::BadStartRecord
    );
    assert_eq!(
        parse_base_options_line("0|s|n|12|3 4|p").unwrap_err(),
        OptionsError::BadEndRecord
    );
    assert_eq!(parse_base_options_line("0|s|n||34|p").unwrap_err(), OptionsError::BadStartRecord);
}

#[test]
fn rejects_out_of_range_record_ids() {
    assert_eq!(
        parse_base_options_line("0|s|n|9223372036854775808|1|p").unwrap_err(),
        OptionsError::BadStartRecord
    );
    let b = parse_base_options_line("0|s|n|9223372036854775807|-9223372036854775808|p").unwrap();
    assert_eq!(b.start_log_record, i64::MAX);
    assert_eq!(b.end_log_record, i64::MIN);
}

fn options(name: &str) -> BaseOptions {
    BaseOptions {
        server: "srv".to_string(),
        name: name.to_string(),
        start_log_record: 1,
        end_log_record: 2,
        log: format!("/tmp/{name}.sqlite"),
    }
}

#[test]
fn absent_sources_are_skipped_without_error() {
    // A configured source whose database file does not exist is simply not
    // part of the plan: no fetch, no delivery, no error.
    let opts = vec![options("a"), options("b"), options("c")];
    let present = vec![true, false, true];
    let plan = sources_to_process(&opts, &present);
    assert_eq!(plan.len(), 2);
    assert_eq!(plan[0].name, "a");
    assert_eq!(plan[1].name, "c");

    let none = sources_to_process(&opts, &vec![false, false, false]);
    assert!(none.is_empty());

    let all = sources_to_process(&opts, &vec![true, true, true]);
    assert_eq!(all.len(), 3);
}
