//! Tests of the timer itself, driving it through start/finish/render.

use std::time::Duration;
use std::time::Instant;

use seq_timer::Timer;

fn spin(d: Duration) {
    let from = Instant::now();
    while from.elapsed() < d {}
}

fn percent_of_line(line: &str) -> u32 {
    let no_percent = line.strip_suffix('%').expect("line should end with %");
    let (_, digits) = no_percent.rsplit_once(' ').unwrap_or(("", no_percent));
    digits.trim().parse().expect("percent should be a number")
}

#[test]
fn fresh_timer_renders_empty() {
    let t = Timer::new();
    assert_eq!(t.render(), "");
}

#[test]
fn default_timer_renders_empty() {
    let t = Timer::default();
    assert_eq!(t.render(), "");
}

#[test]
fn open_event_warning_names_event() {
    let mut t = Timer::new();
    t.start("x");
    let r = t.render();
    assert_eq!(r, "WARNING: timer event `x` has not been finished properly, run finish()\n");
}

#[test]
fn two_timed_events_most_expensive_first() {
    let mut t = Timer::new();
    t.start("a");
    spin(Duration::from_millis(1));
    t.start("b");
    spin(Duration::from_millis(10));
    t.finish();
    let r = t.render();
    let lines: Vec<&str> = r.lines().collect();
    assert_eq!(lines.len(), 2);
    assert!(lines[0].starts_with("b | "));
    assert!(lines[1].starts_with("a | "));
    assert!(!r.contains("WARNING"));
    let pb = percent_of_line(lines[0]);
    let pa = percent_of_line(lines[1]);
    assert!(pb >= 60, "expected b to dominate, got {pb}%");
    assert!(pa <= 40, "expected a to be minor, got {pa}%");
    assert!(pa + pb <= 100);
}

#[test]
fn start_auto_closes_previous_event() {
    let mut t = Timer::new();
    t.start("a");
    t.start("b");
    t.finish();
    let r = t.render();
    assert_eq!(r.lines().count(), 2);
    assert!(!r.contains("WARNING"));
    assert!(r.contains("a | "));
    assert!(r.contains("b | "));
}

#[test]
fn finish_is_idempotent() {
    let mut t = Timer::new();
    t.start("only");
    t.finish();
    let r1 = t.render();
    t.finish();
    let r2 = t.render();
    assert_eq!(r1, r2);
    assert_eq!(r1.lines().count(), 1);
    assert!(!r1.contains("WARNING"));
}

#[test]
fn finish_on_fresh_timer_is_noop() {
    let mut t = Timer::new();
    t.finish();
    assert_eq!(t.render(), "");
}

#[test]
fn single_event_gets_full_percentage() {
    let mut t = Timer::new();
    t.start("solo");
    spin(Duration::from_millis(1));
    t.finish();
    let r = t.render();
    let lines: Vec<&str> = r.lines().collect();
    assert_eq!(lines.len(), 1);
    assert!(lines[0].starts_with("solo | "));
    assert!(lines[0].ends_with(" ns | 100%"));
}
