//! A vulnerability finding as the advisory lookup reports it.

use vstd::prelude::*;

verus! {

/// One known vulnerability of a package.
#[derive(Debug, Clone)]
pub struct Vulnerability {
    pub id: String,
    pub summary: Option<String>,
    pub cvss_vector: Option<String>,
    /// Severity label such as `CRITICAL`, `HIGH`, `MEDIUM` or `LOW`.
    pub severity: Option<String>,
}

impl Vulnerability {
    /// The severity label: the reported severity, `UNKNOWN` when there is
    /// none.
    pub open spec fn label(&self) -> Seq<char> {
        match self.severity {
            Some(s) => s@,
            None => "UNKNOWN"@,
        }
    }

    /// The severity label: the reported severity, `UNKNOWN` when there is
    /// none.
    pub fn severity_label(&self) -> (r: &str)
        ensures
            r@ == self.label(),
    {
        match &self.severity {
            Some(s) => s.as_str(),
            None => "UNKNOWN",
        }
    }
}

} // verus!
