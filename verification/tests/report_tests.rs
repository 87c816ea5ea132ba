//! Deterministic tests of the report formatter on chosen event logs.

use seq_timer::format_report;

#[test]
fn report_sorts_by_duration_desc() {
    let names: Vec<&'static str> = vec!["a", "bb", "c"];
    let durs: Vec<u64> = vec![5, 700, 60];
    let r = format_report(&names, &durs, false);
    assert_eq!(r, "bb | 700 ns |  91%\n c |  60 ns |   7%\n a |   5 ns |   0%\n");
}

#[test]
fn report_keeps_tie_order() {
    let names: Vec<&'static str> = vec!["x", "y"];
    let durs: Vec<u64> = vec![10, 10];
    let r = format_report(&names, &durs, false);
    assert_eq!(r, "x | 10 ns |  50%\ny | 10 ns |  50%\n");
}

#[test]
fn report_zero_total_shows_zero_percent() {
    let names: Vec<&'static str> = vec!["a", "b"];
    let durs: Vec<u64> = vec![0, 0];
    let r = format_report(&names, &durs, false);
    assert_eq!(r, "a | 0 ns |   0%\nb | 0 ns |   0%\n");
}

#[test]
fn report_open_event_appends_warning() {
    let names: Vec<&'static str> = vec!["a", "b"];
    let durs: Vec<u64> = vec![7];
    let r = format_report(&names, &durs, true);
    assert_eq!(
        r,
        "a | 7 ns | 100%\nWARNING: timer event `b` has not been finished properly, run finish()\n"
    );
}

#[test]
fn report_open_without_names_shows_empty_event_name() {
    let names: Vec<&'static str> = vec![];
    let durs: Vec<u64> = vec![];
    let r = format_report(&names, &durs, true);
    assert_eq!(r, "WARNING: timer event `` has not been finished properly, run finish()\n");
}

#[test]
fn report_empty_log_is_empty() {
    let names: Vec<&'static str> = vec![];
    let durs: Vec<u64> = vec![];
    let r = format_report(&names, &durs, false);
    assert_eq!(r, "");
}

#[test]
fn report_truncated_percentages_sum_below_100() {
    let names: Vec<&'static str> = vec!["a", "b", "c"];
    let durs: Vec<u64> = vec![1, 1, 1];
    let r = format_report(&names, &durs, false);
    assert_eq!(r, "a | 1 ns |  33%\nb | 1 ns |  33%\nc | 1 ns |  33%\n");
}

#[test]
fn report_aligns_to_widest_name() {
    let names: Vec<&'static str> = vec!["abc", "z"];
    let durs: Vec<u64> = vec![3, 4];
    let r = format_report(&names, &durs, false);
    assert_eq!(r, "  z | 4 ns |  57%\nabc | 3 ns |  42%\n");
}

#[test]
fn report_counts_open_name_for_width() {
    let names: Vec<&'static str> = vec!["a", "longname"];
    let durs: Vec<u64> = vec![5];
    let r = format_report(&names, &durs, true);
    assert_eq!(
        r,
        "       a | 5 ns | 100%\nWARNING: timer event `longname` has not been finished properly, run finish()\n"
    );
}

#[test]
fn report_wide_duration_column() {
    let names: Vec<&'static str> = vec!["n"];
    let durs: Vec<u64> = vec![12345];
    let r = format_report(&names, &durs, false);
    assert_eq!(r, "n | 12345 ns | 100%\n");
}
