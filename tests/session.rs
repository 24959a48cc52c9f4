use timeguardian::app::App;
use timeguardian::hosts::HostFiles;
use timeguardian::session::{BlockingSession, SessionState, StartError};

const PRISTINE: &str = "127.0.0.1\tlocalhost\n";

fn one(d: &str) -> Vec<String> {
    vec![d.to_string()]
}

#[test]
fn session_expires_at_its_end_exactly_once() {
    let mut files = HostFiles::new(PRISTINE.to_string(), None);
    let mut s = BlockingSession::new();
    let t = 10_000;
    assert_eq!(s.start(&mut files, &one("a.com"), t, 500, "work".to_string()), Ok(()));
    assert!(files.hosts.contains("127.0.0.1\ta.com\n"));
    let mut restores = 0;
    for now in [t, t + 1, t + 250, t + 499] {
        assert!(!s.tick(&mut files, now));
        assert!(s.is_blocking());
    }
    for now in [t + 500, t + 501, t + 10_000] {
        if s.tick(&mut files, now) {
            restores += 1;
        }
        assert_eq!(s.state, SessionState::Idle);
    }
    assert_eq!(restores, 1);
    assert_eq!(files.hosts, PRISTINE);
}

#[test]
fn start_refuses_empty_domains_and_zero_duration() {
    let mut files = HostFiles::new(PRISTINE.to_string(), None);
    let mut s = BlockingSession::new();
    assert_eq!(s.start(&mut files, &Vec::new(), 0, 500, String::new()), Err(StartError::NoDomains));
    assert_eq!(s.start(&mut files, &one("a.com"), 0, 0, String::new()), Err(StartError::ZeroDuration));
    assert_eq!(s.state, SessionState::Idle);
    assert_eq!(files.hosts, PRISTINE);
    assert!(files.backup.is_none());
}

#[test]
fn remaining_time_counts_down_to_zero() {
    let mut files = HostFiles::new(String::new(), None);
    let mut s = BlockingSession::new();
    assert_eq!(s.remaining_time(0), None);
    s.start(&mut files, &one("a.com"), 1_000, 60_000, String::new()).unwrap();
    assert_eq!(s.remaining_time(1_000), Some(60_000));
    assert_eq!(s.remaining_time(31_000), Some(30_000));
    assert_eq!(s.remaining_time(61_000), Some(0));
    assert_eq!(s.remaining_time(99_000), Some(0));
}

#[test]
fn cancel_ends_a_headless_session() {
    let mut files = HostFiles::new(PRISTINE.to_string(), None);
    let mut s = BlockingSession::new();
    s.start(&mut files, &one("a.com"), 0, 60_000, "task".to_string()).unwrap();
    assert!(!s.poll(&mut files, 100, false));
    assert!(s.poll(&mut files, 200, true));
    assert_eq!(files.hosts, PRISTINE);
    assert!(!s.poll(&mut files, 300, true));
    assert_eq!(s.task, "task");
}

#[test]
fn work_list_blocks_and_restores() {
    let mut app = App::new();
    app.add_list("Work".to_string());
    app.add_website("example.com".to_string());
    app.block_duration_ms = 60_000;
    let mut files = HostFiles::new(PRISTINE.to_string(), None);
    assert_eq!(app.start_blocking(&mut files, 5), Ok(()));
    assert_eq!(files.hosts.matches("127.0.0.1\texample.com\n").count(), 1);
    assert_eq!(app.status_message, "Blocking websites for \"1m 00s\"");
    app.stop_blocking(&mut files);
    assert_eq!(files.hosts, PRISTINE);
    assert!(!app.is_blocking());
    assert_eq!(app.status_message, "Website blocking stopped");
}

#[test]
fn app_tick_stops_expired_session() {
    let mut app = App::new();
    app.add_list("L".to_string());
    app.add_website("a.com".to_string());
    let mut files = HostFiles::new(PRISTINE.to_string(), None);
    app.start_blocking(&mut files, 0).unwrap();
    assert!(!app.tick(&mut files, 1_499_999));
    assert_eq!(app.get_remaining_time(1_499_999), Some(1));
    assert!(app.tick(&mut files, 1_500_000));
    assert_eq!(files.hosts, PRISTINE);
    assert_eq!(app.get_remaining_time(1_500_000), None);
}

#[test]
fn start_without_domains_is_refused() {
    let mut app = App::new();
    app.add_list("Empty".to_string());
    let mut files = HostFiles::new(PRISTINE.to_string(), None);
    assert_eq!(app.start_blocking(&mut files, 0), Err(StartError::NoDomains));
    assert!(!app.is_blocking());
}

#[test]
fn format_duration_shapes() {
    let app = App::new();
    assert_eq!(app.format_duration(3_723_000), "1h 02m 03s");
    assert_eq!(app.format_duration(36_000_000), "10h 00m 00s");
    assert_eq!(app.format_duration(270_000), "4m 30s");
    assert_eq!(app.format_duration(45_999), "45s");
    assert_eq!(app.format_duration(0), "0s");
}
