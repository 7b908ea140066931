use domain_watch::domain::{verify_domain, Checker, DomainReport, NUL_IN_NAME};
use domain_watch::status::{short_error_message, CertificateStatus, ReachabilityStatus, Severity};

const DAY: i32 = 86400;

fn entry(domain: &str, certificate: CertificateStatus, reachability: ReachabilityStatus) -> DomainReport {
    DomainReport { domain: domain.to_string(), certificate, reachability }
}

fn summary(report: &str) -> &str {
    report.split("\n\n").next().unwrap()
}

#[test]
fn seconds_become_whole_days() {
    assert_eq!(CertificateStatus::from_outcome(Ok(30 * DAY)), CertificateStatus::ValidFor(30));
    assert_eq!(CertificateStatus::from_outcome(Ok(30 * DAY - 1)), CertificateStatus::ValidFor(29));
    assert_eq!(CertificateStatus::from_outcome(Ok(0)), CertificateStatus::ValidFor(0));
    assert_eq!(CertificateStatus::from_outcome(Ok(-1)), CertificateStatus::Expired);
    assert_eq!(CertificateStatus::from_outcome(Ok(i32::MAX)), CertificateStatus::ValidFor(24855));
    assert_eq!(
        CertificateStatus::from_outcome(Err("HandshakeError: refused".to_string())),
        CertificateStatus::ValidationFailed("HandshakeError: refused".to_string())
    );
}

#[test]
fn day_counts_step_through_the_tiers() {
    for days in [-3, 0, 1] {
        let (severity, line) = CertificateStatus::ValidFor(days).classify();
        assert_eq!(severity, Severity::Warning);
        assert_eq!(line, format!("⚠️ Certificate about to expire ({days} days left)"));
    }
    for days in [2, 7, 13] {
        let (severity, line) = CertificateStatus::ValidFor(days).classify();
        assert_eq!(severity, Severity::Warning);
        assert_eq!(line, format!("⚠️ Certificate valid for {days} days"));
    }
    for days in [14, 30, 1000, i32::MAX] {
        let (severity, line) = CertificateStatus::ValidFor(days).classify();
        assert_eq!(severity, Severity::Good);
        assert_eq!(line, format!("✅ Certificate valid for {days} days"));
    }
}

#[test]
fn expired_and_failed_certificates_are_errors() {
    let (severity, line) = CertificateStatus::Expired.classify();
    assert_eq!(severity, Severity::Error);
    assert_eq!(line, "⌛️ Certificate expired");
    let (severity, line) = CertificateStatus::ValidationFailed("no handshake".to_string()).classify();
    assert_eq!(severity, Severity::Error);
    assert_eq!(line, "🛑 Certificate error: no handshake");
}

#[test]
fn any_status_code_is_reachable() {
    for code in [200u16, 404, 500] {
        let status = ReachabilityStatus::from_outcome(Ok(code));
        assert_eq!(status, ReachabilityStatus::Reachable(code));
        let (severity, line) = status.classify();
        assert_eq!(severity, Severity::Good);
        assert_eq!(line, format!("✅ {code} OK"));
    }
}

#[test]
fn transport_failures_are_errors_with_short_messages() {
    let text = "error sending request for url (https://expired.test/): error trying to connect: dns error: failed to lookup address information: Name or service not known.";
    let status = ReachabilityStatus::from_outcome(Err(text.to_string()));
    assert_eq!(status, ReachabilityStatus::Failed("Name or service not known".to_string()));
    let (severity, line) = status.classify();
    assert_eq!(severity, Severity::Error);
    assert_eq!(line, "🛑 Error: Name or service not known");
}

#[test]
fn short_messages_keep_the_last_piece() {
    assert_eq!(short_error_message("timed out"), "timed out");
    assert_eq!(short_error_message(" a : b. "), "b");
    assert_eq!(short_error_message("x:\t..done..\n"), "..done");
    assert_eq!(short_error_message("x: .y"), ".y");
    assert_eq!(short_error_message("trailing:"), "");
    assert_eq!(short_error_message(""), "");
}

#[test]
fn valid_and_reachable_domain_has_no_findings() {
    let checker = Checker::new(vec!["example.com".to_string()], false);
    let entries = vec![entry(
        "example.com",
        CertificateStatus::from_outcome(Ok(30 * DAY)),
        ReachabilityStatus::from_outcome(Ok(200)),
    )];
    let report = checker.parse_statusses_to_string(&entries);
    assert_eq!(summary(&report), "Found 0 warning(s) / 0 error(s)");
    assert!(report.contains("example.com"));
    assert!(report.contains("✅ Certificate valid for 30 days"));
    assert!(report.contains("✅ 200 OK"));
}

#[test]
fn expired_and_unreachable_domain_has_two_errors() {
    let checker = Checker::new(vec!["expired.test".to_string()], false);
    let entries = vec![entry(
        "expired.test",
        CertificateStatus::from_outcome(Ok(-5 * DAY)),
        ReachabilityStatus::from_outcome(Err("dns error: failed to lookup address information".to_string())),
    )];
    let report = checker.parse_statusses_to_string(&entries);
    assert_eq!(summary(&report), "Found 0 warning(s) / 2 error(s)");
    assert!(report.contains("expired.test"));
    assert!(report.contains("Certificate expired"));
    assert!(report.contains("Error: failed to lookup address information"));
}

#[test]
fn empty_list_gives_empty_report() {
    let checker = Checker::new(Vec::new(), false);
    let report = checker.parse_statusses_to_string(&Vec::new());
    assert!(report.starts_with("Found 0 warning(s) / 0 error(s)\n\nResult Details:\n<pre language=\"text\">\n"));
    assert!(report.ends_with("\n</pre>"));
    assert!(report.contains("Domain"));
    assert!(report.contains("SSL Status"));
    assert!(report.contains("HTTP Status"));
    assert!(report.contains("---"));
    assert!(!report.contains("Certificate"));
}

#[test]
fn scheduled_report_has_daily_prefix() {
    let checker = Checker::new(vec!["a.test".to_string()], true);
    let entries = vec![entry("a.test", CertificateStatus::ValidFor(1), ReachabilityStatus::Reachable(503))];
    let report = checker.parse_statusses_to_string(&entries);
    assert_eq!(summary(&report), "Your daily report: Found 1 warning(s) / 0 error(s)");
}

#[test]
fn every_domain_gets_one_row_and_counts_add_up() {
    let checker = Checker::new(Vec::new(), false);
    let entries = vec![
        entry("dup.test", CertificateStatus::ValidFor(5), ReachabilityStatus::Reachable(200)),
        entry("dup.test", CertificateStatus::Expired, ReachabilityStatus::Failed("refused".to_string())),
        entry("ok.test", CertificateStatus::ValidFor(90), ReachabilityStatus::Reachable(404)),
        entry("bad.test", CertificateStatus::ValidationFailed("x".to_string()), ReachabilityStatus::Reachable(500)),
    ];
    let report = checker.parse_statusses_to_string(&entries);
    assert_eq!(summary(&report), "Found 1 warning(s) / 3 error(s)");
    assert_eq!(report.matches("dup.test").count(), 2);
    assert_eq!(report.matches("ok.test").count(), 1);
    assert_eq!(report.matches("bad.test").count(), 1);
    let dup = report.find("dup.test").unwrap();
    let ok = report.find("ok.test").unwrap();
    let bad = report.find("bad.test").unwrap();
    assert!(dup < ok && ok < bad);
}

#[test]
fn same_findings_give_same_counts() {
    let checker = Checker::new(Vec::new(), true);
    let first = vec![
        entry("a.test", CertificateStatus::ValidFor(20), ReachabilityStatus::Reachable(200)),
        entry("b.test", CertificateStatus::ValidFor(3), ReachabilityStatus::Failed("timeout".to_string())),
    ];
    let second = vec![
        entry("a.test", CertificateStatus::ValidFor(19), ReachabilityStatus::Reachable(200)),
        entry("b.test", CertificateStatus::ValidFor(2), ReachabilityStatus::Failed("timeout".to_string())),
    ];
    let a = checker.parse_statusses_to_string(&first);
    let b = checker.parse_statusses_to_string(&second);
    assert_eq!(summary(&a), summary(&b));
    assert_eq!(a, checker.parse_statusses_to_string(&first));
}

#[test]
fn statuses_pair_domains_with_reachability() {
    let checker = Checker::new(vec!["one.invalid".to_string(), "two.invalid".to_string()], false);
    let reports = checker.get_domain_statusses(
        vec![Ok(20 * DAY), Err("HandshakeError: refused".to_string())],
        vec![ReachabilityStatus::Reachable(200), ReachabilityStatus::Failed("down".to_string())],
    );
    assert_eq!(reports.len(), 2);
    assert_eq!(reports[0].domain, "one.invalid");
    assert_eq!(reports[1].domain, "two.invalid");
    assert_eq!(reports[0].reachability, ReachabilityStatus::Reachable(200));
    assert_eq!(reports[1].reachability, ReachabilityStatus::Failed("down".to_string()));
    assert_eq!(reports[0].certificate, CertificateStatus::ValidFor(20));
    assert_eq!(reports[1].certificate, CertificateStatus::ValidationFailed("HandshakeError: refused".to_string()));
}

#[test]
fn name_with_nul_is_not_probed() {
    assert_eq!(verify_domain("bad\0name", Ok(30 * DAY)), CertificateStatus::ValidationFailed(NUL_IN_NAME.to_string()));
    let checker = Checker::new(vec!["bad\0name".to_string()], false);
    assert_eq!(
        checker.check_certificate("bad\0name", Ok(-DAY)),
        CertificateStatus::ValidationFailed(NUL_IN_NAME.to_string())
    );
}

#[test]
fn probe_outcome_decides_the_certificate_status() {
    assert_eq!(verify_domain("example.com", Ok(30 * DAY)), CertificateStatus::ValidFor(30));
    assert_eq!(verify_domain("expired.test", Ok(-1)), CertificateStatus::Expired);
    assert_eq!(
        verify_domain("down.test", Err("Couldn't resolve any address".to_string())),
        CertificateStatus::ValidationFailed("Couldn't resolve any address".to_string())
    );
}

#[test]
fn escape_characters_are_left_out_of_the_table() {
    let checker = Checker::new(Vec::new(), false);
    let odd = "a\u{1b}[\u{644}\u{627}\u{644}\u{627}.test";
    let entries = vec![entry(odd, CertificateStatus::ValidationFailed("x\u{1b}y".to_string()), ReachabilityStatus::Reachable(200))];
    let report = checker.parse_statusses_to_string(&entries);
    assert!(!report.contains('\u{1b}'));
    assert!(report.contains("a[\u{644}\u{627}\u{644}\u{627}.test"));
    assert!(report.contains("Certificate error: xy"));
    assert_eq!(summary(&report), "Found 0 warning(s) / 1 error(s)");
}
