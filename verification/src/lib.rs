//! Verified core of a pre-install security interceptor for package
//! managers: which package manager an invocation stands for and what an
//! install command fetches, which packages a manifest diff adds, the
//! allow-list, the configuration keys, the shell-configuration block, and
//! whether an install with known vulnerabilities may proceed.

pub mod advisory;
pub mod allowlist;
pub mod config;
pub mod doctor;
pub mod init;
pub mod manifest;
pub mod model;
pub mod osv;
pub mod prompt;
pub mod report;
pub mod shim;
pub mod text;
pub mod uninit;
