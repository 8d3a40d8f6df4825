//! The install decision: whether a package with known vulnerabilities may
//! be installed, under `--force`, in CI, or after asking the user.

use vstd::prelude::*;
use crate::osv::Vulnerability;
use crate::text::{chars_of, eq_str, lowercase, lowercase_v};

verus! {

/// Whether the install goes ahead.
#[derive(Debug, PartialEq, Eq, Structural, Clone, Copy)]
pub enum Decision {
    Proceed,
    Abort,
}

/// How the findings are handled, which decides what is shown and asked.
#[derive(Debug, PartialEq, Eq, Structural, Clone, Copy)]
pub enum Mode {
    /// Nothing was found: the install proceeds silently.
    NoFindings,
    /// `--force` (or `PRIMER_FORCE`): warn and proceed.
    Forced,
    /// CI with `PRIMER_CI_MODE=allow-all`: note the skip and proceed.
    CiAllowAll,
    /// CI: print the findings and write them all to the report; block on
    /// CRITICAL/HIGH.
    Ci,
    /// A terminal: list the findings and ask the user on CRITICAL/HIGH.
    Interactive,
}

/// A severity label that blocks an install.
pub open spec fn blocking_label(label: Seq<char>) -> bool {
    label == "CRITICAL"@ || label == "HIGH"@
}

/// The number of findings in `vs` with a blocking severity.
pub open spec fn count_blocking(vs: Seq<Vulnerability>) -> nat
    decreases vs.len(),
{
    if vs.len() == 0 {
        0
    } else {
        count_blocking(vs.drop_last()) + if blocking_label(vs.last().label()) {
            1nat
        } else {
            0nat
        }
    }
}

/// How findings `vs` are handled under the given flags.
pub open spec fn mode_spec(vs: Seq<Vulnerability>, force: bool, ci: bool, allow_all: bool) -> Mode {
    if vs.len() == 0 {
        Mode::NoFindings
    } else if force {
        Mode::Forced
    } else if ci {
        if allow_all {
            Mode::CiAllowAll
        } else {
            Mode::Ci
        }
    } else {
        Mode::Interactive
    }
}

/// Whether the findings `vs` are written to the CI report: in CI (not
/// forced, not allow-all) whenever there are findings, blocking or not.
pub open spec fn report_spec(vs: Seq<Vulnerability>, force: bool, ci: bool, allow_all: bool) -> bool {
    mode_spec(vs, force, ci, allow_all) == Mode::Ci
}

/// The decision for findings `vs`: block on a CRITICAL/HIGH finding in CI,
/// and in a terminal unless the user `confirm`s; proceed otherwise.
pub open spec fn decision_spec(
    vs: Seq<Vulnerability>,
    force: bool,
    ci: bool,
    allow_all: bool,
    confirm: bool,
) -> Decision {
    match mode_spec(vs, force, ci, allow_all) {
        Mode::Ci => if count_blocking(vs) > 0 {
            Decision::Abort
        } else {
            Decision::Proceed
        },
        Mode::Interactive => if count_blocking(vs) > 0 && !confirm {
            Decision::Abort
        } else {
            Decision::Proceed
        },
        _ => Decision::Proceed,
    }
}

/// Whether the `PRIMER_CI_MODE` value `value` asks for audit-only CI:
/// `allow-all` in any letter case.
pub fn is_allow_all(value: &str) -> (r: bool)
    ensures
        r == (lowercase(value@) == "allow-all"@),
{
    let low = lowercase_v(&chars_of(value));
    eq_str(&low, "allow-all")
}

/// Whether `label` is a severity that blocks an install (CRITICAL, HIGH).
pub fn is_blocking(label: &str) -> (r: bool)
    ensures
        r == blocking_label(label@),
{
    let l = chars_of(label);
    eq_str(&l, "CRITICAL") || eq_str(&l, "HIGH")
}

/// The number of CRITICAL/HIGH findings in `vulns`.
pub fn blocking_count(vulns: &[Vulnerability]) -> (r: usize)
    ensures
        r == count_blocking(vulns@),
{
    let n = vulns.len();
    let mut c: usize = 0;
    let mut i: usize = 0;
    assert(vulns@.take(0) =~= Seq::<Vulnerability>::empty());
    while i < n
        invariant
            i <= n,
            n == vulns@.len(),
            c == count_blocking(vulns@.take(i as int)),
            c <= i,
        decreases n - i,
    {
        assert(vulns@.take(i + 1).drop_last() =~= vulns@.take(i as int));
        if is_blocking(vulns[i].severity_label()) {
            c = c + 1;
        }
        i = i + 1;
    }
    assert(vulns@.take(n as int) =~= vulns@);
    c
}

/// How the findings `vulns` are handled under the given flags.
pub fn mode(vulns: &[Vulnerability], force: bool, ci: bool, allow_all: bool) -> (r: Mode)
    ensures
        r == mode_spec(vulns@, force, ci, allow_all),
{
    if vulns.len() == 0 {
        Mode::NoFindings
    } else if force {
        Mode::Forced
    } else if ci {
        if allow_all {
            Mode::CiAllowAll
        } else {
            Mode::Ci
        }
    } else {
        Mode::Interactive
    }
}

/// Whether the findings `vulns` go to the CI report under the given flags.
pub fn writes_report(vulns: &[Vulnerability], force: bool, ci: bool, allow_all: bool) -> (r: bool)
    ensures
        r == report_spec(vulns@, force, ci, allow_all),
        r == (vulns@.len() > 0 && !force && ci && !allow_all),
{
    match mode(vulns, force, ci, allow_all) {
        Mode::Ci => true,
        _ => false,
    }
}

/// Evaluates the findings for `package` of `ecosystem` and returns whether
/// the install proceeds.  `force`, `ci` and `allow_all` are the
/// `--force`/`PRIMER_FORCE`, CI and `PRIMER_CI_MODE=allow-all` settings;
/// `confirm` is the user's answer to "Continue install anyway?", which
/// counts only in a terminal when a CRITICAL/HIGH finding was made.
pub fn evaluate(
    package: &str,
    ecosystem: &str,
    vulns: &[Vulnerability],
    force: bool,
    ci: bool,
    allow_all: bool,
    confirm: bool,
) -> (r: Decision)
    ensures
        r == decision_spec(vulns@, force, ci, allow_all, confirm),
        vulns@.len() == 0 ==> r == Decision::Proceed,
        force ==> r == Decision::Proceed,
        r == Decision::Abort ==> count_blocking(vulns@) > 0,
{
    let m = mode(vulns, force, ci, allow_all);
    match m {
        Mode::Ci => {
            if blocking_count(vulns) > 0 {
                Decision::Abort
            } else {
                Decision::Proceed
            }
        },
        Mode::Interactive => {
            if blocking_count(vulns) > 0 && !confirm {
                Decision::Abort
            } else {
                Decision::Proceed
            }
        },
        _ => Decision::Proceed,
    }
}


/// With no findings the install always proceeds.
pub proof fn law_no_findings_proceed(
    vs: Seq<Vulnerability>,
    force: bool,
    ci: bool,
    allow_all: bool,
    confirm: bool,
)
    requires
        vs.len() == 0,
    ensures
        decision_spec(vs, force, ci, allow_all, confirm) == Decision::Proceed,
{
}

/// `--force` always lets the install proceed.
pub proof fn law_force_proceeds(vs: Seq<Vulnerability>, ci: bool, allow_all: bool, confirm: bool)
    ensures
        decision_spec(vs, true, ci, allow_all, confirm) == Decision::Proceed,
{
}

/// In CI, `PRIMER_CI_MODE=allow-all` never blocks.
pub proof fn law_ci_allow_all_proceeds(vs: Seq<Vulnerability>, force: bool, confirm: bool)
    ensures
        decision_spec(vs, force, true, true, confirm) == Decision::Proceed,
{
}

/// In CI (not forced, not allow-all) the install is blocked exactly when
/// some finding is CRITICAL or HIGH, whatever the (unasked) answer.
pub proof fn law_ci_blocks_iff_blocking(vs: Seq<Vulnerability>, confirm: bool)
    ensures
        decision_spec(vs, false, true, false, confirm) == Decision::Abort <==> count_blocking(vs)
            > 0,
{
    if count_blocking(vs) > 0 {
        lemma_count_blocking_nonempty(vs);
    }
}

/// In a terminal, findings that are neither CRITICAL nor HIGH never block;
/// a CRITICAL/HIGH finding blocks unless the user confirms.
pub proof fn law_interactive_blocks_iff_refused(vs: Seq<Vulnerability>, confirm: bool)
    requires
        vs.len() > 0,
    ensures
        decision_spec(vs, false, false, false, confirm) == Decision::Abort <==> (count_blocking(vs)
            > 0 && !confirm),
{
}

/// In CI (not forced, not allow-all) every scan with findings is
/// reported, whether or not it blocks; a clean scan is not.
pub proof fn law_ci_reports_all_findings(vs: Seq<Vulnerability>)
    ensures
        report_spec(vs, false, true, false) <==> vs.len() > 0,
{
}

/// A blocked install in CI always comes with a report.
pub proof fn law_ci_block_is_reported(vs: Seq<Vulnerability>, force: bool, allow_all: bool, confirm: bool)
    requires
        decision_spec(vs, force, true, allow_all, confirm) == Decision::Abort,
    ensures
        report_spec(vs, force, true, allow_all),
{
}

/// Only CRITICAL and HIGH findings block: in CI (not forced, not
/// allow-all) the install proceeds when no finding is labelled CRITICAL
/// or HIGH and is blocked when one is; in a terminal such findings alone
/// never block.  Other labels (MODERATE, MEDIUM, LOW, UNKNOWN, ...) never
/// block.
pub proof fn law_only_critical_and_high_block(vs: Seq<Vulnerability>, confirm: bool)
    ensures
        (forall|i: int|
            0 <= i < vs.len() ==> #[trigger] vs[i].label() != "CRITICAL"@ && vs[i].label()
                != "HIGH"@) ==> decision_spec(vs, false, true, false, confirm) == Decision::Proceed
            && decision_spec(vs, false, false, false, confirm) == Decision::Proceed,
        (exists|i: int|
            0 <= i < vs.len() && (#[trigger] vs[i].label() == "CRITICAL"@ || vs[i].label()
                == "HIGH"@)) ==> decision_spec(vs, false, true, false, confirm) == Decision::Abort,
{
    law_blocking_count_positive(vs);
    law_ci_blocks_iff_blocking(vs, confirm);
    if exists|i: int| 0 <= i < vs.len() && blocking_label(#[trigger] vs[i].label()) {
        let i = choose|i: int| 0 <= i < vs.len() && blocking_label(#[trigger] vs[i].label());
        assert(vs[i].label() == "CRITICAL"@ || vs[i].label() == "HIGH"@);
    }
    if exists|i: int|
        0 <= i < vs.len() && (#[trigger] vs[i].label() == "CRITICAL"@ || vs[i].label() == "HIGH"@) {
        let i = choose|i: int|
            0 <= i < vs.len() && (#[trigger] vs[i].label() == "CRITICAL"@ || vs[i].label()
                == "HIGH"@);
        assert(blocking_label(vs[i].label()));
    }
}

/// A severity label blocks exactly when it is CRITICAL or HIGH.
pub proof fn law_blocking_labels(label: Seq<char>)
    ensures
        blocking_label(label) <==> (label == "CRITICAL"@ || label == "HIGH"@),
{
}

/// A CRITICAL or HIGH finding makes the blocking count positive.
pub proof fn lemma_count_blocking_witness(vs: Seq<Vulnerability>, i: int)
    requires
        0 <= i < vs.len(),
        blocking_label(vs[i].label()),
    ensures
        count_blocking(vs) > 0,
    decreases vs.len(),
{
    if i < vs.len() - 1 {
        assert(vs.drop_last()[i] == vs[i]);
        lemma_count_blocking_witness(vs.drop_last(), i);
    }
}

/// The blocking count is positive exactly when some finding is CRITICAL or
/// HIGH.
pub proof fn law_blocking_count_positive(vs: Seq<Vulnerability>)
    ensures
        count_blocking(vs) > 0 <==> exists|i: int|
            0 <= i < vs.len() && blocking_label(#[trigger] vs[i].label()),
{
    if count_blocking(vs) > 0 {
        lemma_count_blocking_nonempty(vs);
    }
    if exists|i: int| 0 <= i < vs.len() && blocking_label(#[trigger] vs[i].label()) {
        let i = choose|i: int| 0 <= i < vs.len() && blocking_label(#[trigger] vs[i].label());
        lemma_count_blocking_witness(vs, i);
    }
}

/// Only findings with a blocking severity are counted: a count above zero
/// means some finding is CRITICAL or HIGH.
pub proof fn lemma_count_blocking_nonempty(vs: Seq<Vulnerability>)
    requires
        count_blocking(vs) > 0,
    ensures
        vs.len() > 0,
        exists|i: int| 0 <= i < vs.len() && blocking_label(#[trigger] vs[i].label()),
    decreases vs.len(),
{
    if blocking_label(vs.last().label()) {
        assert(blocking_label(vs[vs.len() - 1].label()));
    } else {
        lemma_count_blocking_nonempty(vs.drop_last());
        let i = choose|i: int| 0 <= i < vs.drop_last().len() && blocking_label(
            #[trigger] vs.drop_last()[i].label(),
        );
        assert(vs[i] == vs.drop_last()[i]);
    }
}

} // verus!
