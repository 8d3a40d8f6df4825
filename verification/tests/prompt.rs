use primer::osv::Vulnerability;
use primer::prompt::{blocking_count, evaluate, is_allow_all, is_blocking, mode, writes_report, Decision, Mode};
use primer::report::build_report;

fn vuln(id: &str, severity: &str) -> Vulnerability {
    Vulnerability {
        id: id.to_owned(),
        summary: Some(format!("Test vuln {}", id)),
        cvss_vector: None,
        severity: Some(severity.to_owned()),
    }
}

#[test]
fn empty_vulns_always_proceeds() {
    assert_eq!(evaluate("pkg", "PyPI", &[], false, true, false, false), Decision::Proceed);
}

#[test]
fn force_true_proceeds_despite_critical() {
    let vulns = vec![vuln("GHSA-0001", "CRITICAL")];
    assert_eq!(evaluate("pkg", "PyPI", &vulns, true, true, false, false), Decision::Proceed);
}

#[test]
fn ci_allow_all_proceeds() {
    let vulns = vec![vuln("GHSA-0001", "CRITICAL")];
    assert_eq!(evaluate("pkg", "PyPI", &vulns, false, true, true, false), Decision::Proceed);
}

#[test]
fn ci_blocks_on_critical() {
    let vulns = vec![vuln("GHSA-0001", "CRITICAL")];
    assert_eq!(evaluate("pkg", "PyPI", &vulns, false, true, false, false), Decision::Abort);
}

#[test]
fn ci_proceeds_on_low_only() {
    let vulns = vec![vuln("GHSA-0001", "LOW")];
    assert_eq!(evaluate("pkg", "PyPI", &vulns, false, true, false, false), Decision::Proceed);
}

#[test]
fn ci_proceeds_on_medium_only() {
    let vulns = vec![vuln("GHSA-0001", "MEDIUM")];
    assert_eq!(evaluate("pkg", "PyPI", &vulns, false, true, false, false), Decision::Proceed);
}

#[test]
fn is_blocking_for_critical_and_high() {
    assert!(is_blocking("CRITICAL"));
    assert!(is_blocking("HIGH"));
    assert!(!is_blocking("MEDIUM"));
    assert!(!is_blocking("LOW"));
    assert!(!is_blocking("UNKNOWN"));
}

#[test]
fn report_serialises_correctly() {
    let vulns = vec![vuln("GHSA-0001", "CRITICAL"), vuln("GHSA-0002", "LOW")];
    let report = build_report("requests", "PyPI", &vulns);
    assert_eq!(report.package, "requests");
    assert_eq!(report.ecosystem, "PyPI");
    assert!(report.blocked);
    assert_eq!(report.findings.len(), 2);
}

#[test]
fn report_not_blocked_when_no_critical_or_high() {
    let vulns = vec![vuln("GHSA-0001", "LOW")];
    let report = build_report("pkg", "PyPI", &vulns);
    assert!(!report.blocked);
}

// --- further cases ---

#[test]
fn interactive_asks_only_on_blocking() {
    let high = vec![vuln("GHSA-1", "LOW"), vuln("GHSA-2", "HIGH")];
    assert_eq!(mode(&high, false, false, false), Mode::Interactive);
    assert_eq!(evaluate("p", "npm", &high, false, false, false, false), Decision::Abort);
    assert_eq!(evaluate("p", "npm", &high, false, false, false, true), Decision::Proceed);
    let low = vec![vuln("GHSA-1", "LOW")];
    assert_eq!(evaluate("p", "npm", &low, false, false, false, false), Decision::Proceed);
}

#[test]
fn modes_follow_flags() {
    let v = vec![vuln("GHSA-1", "HIGH")];
    assert_eq!(mode(&[], true, true, true), Mode::NoFindings);
    assert_eq!(mode(&v, true, true, true), Mode::Forced);
    assert_eq!(mode(&v, false, true, true), Mode::CiAllowAll);
    assert_eq!(mode(&v, false, true, false), Mode::Ci);
}

#[test]
fn unknown_severity_does_not_block() {
    let mut v = vuln("GHSA-1", "HIGH");
    v.severity = None;
    assert_eq!(v.severity_label(), "UNKNOWN");
    assert_eq!(blocking_count(&[v.clone()]), 0);
    assert_eq!(evaluate("p", "npm", &[v], false, true, false, false), Decision::Proceed);
    // Labels are compared exactly.
    assert!(!is_blocking("high"));
}

#[test]
fn report_records_each_finding() {
    let mut a = vuln("GHSA-1", "HIGH");
    a.cvss_vector = Some("CVSS:3.1/AV:N".into());
    let mut b = vuln("GHSA-2", "LOW");
    b.severity = None;
    b.summary = None;
    let r = build_report("pkg", "Go", &[a, b]);
    assert_eq!(r.findings[0].id, "GHSA-1");
    assert_eq!(r.findings[0].cvss_vector.as_deref(), Some("CVSS:3.1/AV:N"));
    assert_eq!(r.findings[1].severity, "UNKNOWN");
    assert_eq!(r.findings[1].summary, None);
    assert_eq!(blocking_count(&[vuln("1", "CRITICAL"), vuln("2", "HIGH"), vuln("3", "LOW")]), 2);
}

#[test]
fn allow_all_setting_ignores_case() {
    assert!(is_allow_all("allow-all"));
    assert!(is_allow_all("Allow-ALL"));
    assert!(!is_allow_all("allow"));
    assert!(!is_allow_all(" allow-all"));
}

#[test]
fn ci_reports_every_scan_with_findings() {
    let low = vec![vuln("GHSA-0001", "LOW")];
    let high = vec![vuln("GHSA-0002", "HIGH")];
    assert!(writes_report(&low, false, true, false));
    assert!(writes_report(&high, false, true, false));
    assert!(!writes_report(&[], false, true, false));
    assert!(!writes_report(&high, true, true, false));
    assert!(!writes_report(&high, false, true, true));
    assert!(!writes_report(&high, false, false, false));
}
