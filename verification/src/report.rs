//! The CI report (`primer-report.json`): the package, whether the install
//! was blocked, and every finding.  It is serialised outside this library.

use vstd::prelude::*;
use crate::osv::Vulnerability;
use crate::prompt::{
    blocking_count, blocking_label, count_blocking, decision_spec, law_blocking_count_positive,
    law_ci_blocks_iff_blocking, Decision,
};
use crate::text::opt_view;

verus! {

/// One finding in the report.
#[derive(Debug, Clone)]
pub struct Finding {
    pub id: String,
    pub severity: String,
    pub summary: Option<String>,
    pub cvss_vector: Option<String>,
}

/// The report on one package.
#[derive(Debug, Clone)]
pub struct Report {
    pub package: String,
    pub ecosystem: String,
    pub blocked: bool,
    pub findings: Vec<Finding>,
}

/// `f` records the finding `v`.
pub open spec fn records(f: Finding, v: Vulnerability) -> bool {
    &&& f.id@ == v.id@
    &&& f.severity@ == v.label()
    &&& opt_view(f.summary) == opt_view(v.summary)
    &&& opt_view(f.cvss_vector) == opt_view(v.cvss_vector)
}

fn clone_opt(o: &Option<String>) -> (r: Option<String>)
    ensures
        opt_view(r) == opt_view(*o),
{
    match o {
        Some(s) => Some(s.clone()),
        None => None,
    }
}

/// The report on `package` of `ecosystem` with findings `vulns`: blocked
/// when some finding is CRITICAL or HIGH.
pub fn build_report(package: &str, ecosystem: &str, vulns: &[Vulnerability]) -> (r: Report)
    ensures
        r.package@ == package@,
        r.ecosystem@ == ecosystem@,
        r.blocked == (count_blocking(vulns@) > 0),
        r.blocked <==> exists|i: int|
            0 <= i < vulns@.len() && blocking_label(#[trigger] vulns@[i].label()),
        r.findings@.len() == vulns@.len(),
        forall|i: int| 0 <= i < vulns@.len() ==> records(#[trigger] r.findings@[i], vulns@[i]),
{
    let blocked = blocking_count(vulns) > 0;
    proof {
        law_blocking_count_positive(vulns@);
    }
    let mut findings: Vec<Finding> = Vec::new();
    let n = vulns.len();
    let mut i: usize = 0;
    while i < n
        invariant
            i <= n,
            n == vulns@.len(),
            findings@.len() == i,
            forall|j: int| 0 <= j < i ==> records(#[trigger] findings@[j], vulns@[j]),
        decreases n - i,
    {
        let v = &vulns[i];
        let f = Finding {
            id: v.id.clone(),
            severity: String::from_str(v.severity_label()),
            summary: clone_opt(&v.summary),
            cvss_vector: clone_opt(&v.cvss_vector),
        };
        findings.push(f);
        i = i + 1;
    }
    Report {
        package: String::from_str(package),
        ecosystem: String::from_str(ecosystem),
        blocked,
        findings,
    }
}


/// In CI (not forced, not allow-all) the install is blocked exactly when
/// the report says it is: when some finding is CRITICAL or HIGH.
pub proof fn law_ci_decision_matches_report(vs: Seq<Vulnerability>, confirm: bool)
    ensures
        decision_spec(vs, false, true, false, confirm) == Decision::Abort <==> exists|i: int|
            0 <= i < vs.len() && blocking_label(#[trigger] vs[i].label()),
{
    law_ci_blocks_iff_blocking(vs, confirm);
    law_blocking_count_positive(vs);
}

} // verus!
