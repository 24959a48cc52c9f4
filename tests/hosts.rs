use timeguardian::hosts::{patch_hosts, HostFiles, BEGIN_MARKER, END_MARKER};
use timeguardian::setup::{get_hosts_path, HostOs};

fn domains(d: &[&str]) -> Vec<String> {
    d.iter().map(|s| s.to_string()).collect()
}

fn count(h: &str, n: &str) -> usize {
    h.matches(n).count()
}

const PRISTINE: &str = "127.0.0.1\tlocalhost\n::1\tlocalhost\n";

#[test]
fn region_has_exact_format() {
    let r = patch_hosts(PRISTINE, &domains(&["a.com", "b.org"]));
    assert_eq!(
        r,
        "127.0.0.1\tlocalhost\n::1\tlocalhost\n\n# ===== TimeGuardian Temporary Hosts =====\n127.0.0.1\ta.com\n127.0.0.1\tb.org\n# ===== End Temporary Hosts =====\n"
    );
}

#[test]
fn blank_and_duplicate_domains_are_skipped() {
    let r = patch_hosts("", &domains(&["x.com", "  ", "", "x.com"]));
    assert_eq!(
        r,
        format!("\n{}\n127.0.0.1\tx.com\n{}\n", BEGIN_MARKER, END_MARKER)
    );
}

#[test]
fn domain_already_in_file_is_skipped() {
    let r = patch_hosts(PRISTINE, &domains(&["localhost", "notasite.a.com", "a.com"]));
    assert!(!r.contains("127.0.0.1\tlocalhost\n127.0.0.1\tlocalhost"));
    assert!(r.contains("127.0.0.1\tnotasite.a.com\n"));
    assert!(!r.contains("127.0.0.1\ta.com\n"));
}

#[test]
fn blocking_twice_keeps_the_same_region() {
    let d = domains(&["a.com", "b.com"]);
    let once = patch_hosts(PRISTINE, &d);
    let twice = patch_hosts(&once, &d);
    assert_eq!(twice, format!("{}\n{}", PRISTINE, &once[PRISTINE.len()..]));
    assert_eq!(count(&twice, BEGIN_MARKER), 1);
    assert_eq!(count(&twice, END_MARKER), 1);
    assert!(twice.find(BEGIN_MARKER) < twice.find(END_MARKER));
    assert_eq!(count(&twice, "127.0.0.1\ta.com\n"), 1);
    assert_eq!(count(&twice, "127.0.0.1\tb.com\n"), 1);
}

#[test]
fn new_domains_replace_the_old_region() {
    let first = patch_hosts(PRISTINE, &domains(&["a.com"]));
    let second = patch_hosts(&first, &domains(&["b.com"]));
    assert_eq!(second, patch_hosts(&format!("{}\n", PRISTINE), &domains(&["b.com"])));
    assert!(!second.contains("a.com"));
}

#[test]
fn many_rounds_keep_one_marker_pair() {
    let mut h = PRISTINE.to_string();
    for round in [vec!["a.com"], vec![], vec!["b.com", "c.com"], vec!["a.com"]] {
        h = patch_hosts(&h, &domains(&round));
        assert_eq!(count(&h, BEGIN_MARKER), 1);
        assert_eq!(count(&h, END_MARKER), 1);
    }
}

#[test]
fn excision_keeps_trailing_content() {
    let h = format!(
        "a\n\n{}\n127.0.0.1\tx.com\n{}\n10.0.0.1\tafter\n",
        BEGIN_MARKER, END_MARKER
    );
    let r = patch_hosts(&h, &domains(&["y.com"]));
    assert_eq!(
        r,
        format!(
            "a\n\n10.0.0.1\tafter\n\n{}\n127.0.0.1\ty.com\n{}\n",
            BEGIN_MARKER, END_MARKER
        )
    );
}

#[test]
fn opening_marker_without_closing_is_left_alone() {
    let h = format!("{}\n", BEGIN_MARKER);
    let r = patch_hosts(&h, &domains(&["z.com"]));
    assert!(r.starts_with(&h));
    assert_eq!(count(&r, BEGIN_MARKER), 2);
}

#[test]
fn round_trip_restores_pristine_content() {
    let mut f = HostFiles::new(PRISTINE.to_string(), None);
    f.ensure_backup();
    f.apply_block(&domains(&["a.com", "b.com"]));
    assert_ne!(f.hosts, PRISTINE);
    f.remove_block();
    assert_eq!(f.hosts, PRISTINE);
}

#[test]
fn empty_backup_is_replaced() {
    let mut f = HostFiles::new(PRISTINE.to_string(), Some(String::new()));
    f.ensure_backup();
    assert_eq!(f.backup.as_deref(), Some(PRISTINE));
}

#[test]
fn white_space_backup_is_kept() {
    let mut f = HostFiles::new(PRISTINE.to_string(), Some(" \n".to_string()));
    f.ensure_backup();
    assert_eq!(f.backup.as_deref(), Some(" \n"));
}

#[test]
fn cut_keeps_the_line_break_before_the_marker() {
    let h = format!("\n{}\n{}", BEGIN_MARKER, END_MARKER);
    let r = patch_hosts(&h, &Vec::new());
    assert_eq!(r.len(), 79);
    assert_eq!(r, format!("\n\n{}\n{}\n", BEGIN_MARKER, END_MARKER));
}

#[test]
fn existing_backup_is_never_overwritten() {
    let blocked = patch_hosts(PRISTINE, &domains(&["a.com"]));
    let mut f = HostFiles::new(blocked.clone(), Some(PRISTINE.to_string()));
    f.ensure_backup();
    assert_eq!(f.backup.as_deref(), Some(PRISTINE));
    f.remove_block();
    assert_eq!(f.hosts, PRISTINE);
}

#[test]
fn restore_without_backup_changes_nothing() {
    let mut f = HostFiles::new("x\n".to_string(), None);
    f.remove_block();
    assert_eq!(f.hosts, "x\n");
    assert!(f.backup.is_none());
}

#[test]
fn hosts_path_per_os() {
    assert_eq!(get_hosts_path(HostOs::Linux), "/etc/hosts");
    assert_eq!(get_hosts_path(HostOs::MacOs), "/etc/hosts");
    assert_eq!(get_hosts_path(HostOs::Windows), r"C:\Windows\System32\drivers\etc\hosts");
}
