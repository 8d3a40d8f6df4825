use primer::shim::{extract_packages, parse_package_spec, restore_manifests, Ecosystem, PackageManager};

#[test]
fn detects_pip_from_full_path() {
    assert_eq!(PackageManager::from_argv0("/usr/bin/pip"), Some(PackageManager::Pip));
}

#[test]
fn detects_pip3() {
    assert_eq!(PackageManager::from_argv0("pip3"), Some(PackageManager::Pip));
}

#[test]
fn detects_npm() {
    assert_eq!(PackageManager::from_argv0("npm"), Some(PackageManager::Npm));
}

#[test]
fn detects_cargo() {
    assert_eq!(PackageManager::from_argv0("/Users/user/.cargo/bin/cargo"), Some(PackageManager::Cargo));
}

#[test]
fn returns_none_for_motionstream() {
    assert!(PackageManager::from_argv0("motionstream").is_none());
}

#[test]
fn returns_none_for_unknown() {
    assert!(PackageManager::from_argv0("ruby").is_none());
}

fn args(s: &str) -> Vec<String> {
    s.split_whitespace().map(str::to_owned).collect()
}

#[test]
fn pip_install_single_package() {
    let pkgs = extract_packages(&PackageManager::Pip, &args("install requests")).unwrap();
    assert_eq!(pkgs[0].name, "requests");
    assert_eq!(pkgs[0].version, None);
}

#[test]
fn pip_install_with_version() {
    let pkgs = extract_packages(&PackageManager::Pip, &args("install requests==2.28.0")).unwrap();
    assert_eq!(pkgs[0].name, "requests");
    assert_eq!(pkgs[0].version, Some("2.28.0".into()));
}

#[test]
fn pip_list_passes_through() {
    assert!(extract_packages(&PackageManager::Pip, &args("list")).is_none());
}

#[test]
fn pip_install_flags_only_passes_through() {
    assert!(extract_packages(&PackageManager::Pip, &args("install -r requirements.txt")).is_none());
}

#[test]
fn npm_install_with_at_version() {
    let pkgs = extract_packages(&PackageManager::Npm, &args("install lodash@4.17.21")).unwrap();
    assert_eq!(pkgs[0].name, "lodash");
    assert_eq!(pkgs[0].version, Some("4.17.21".into()));
}

#[test]
fn npm_alias_i() {
    let pkgs = extract_packages(&PackageManager::Npm, &args("i express")).unwrap();
    assert_eq!(pkgs[0].name, "express");
}

#[test]
fn npm_run_passes_through() {
    assert!(extract_packages(&PackageManager::Npm, &args("run build")).is_none());
}

#[test]
fn cargo_add_with_version() {
    let pkgs = extract_packages(&PackageManager::Cargo, &args("add serde@1.0")).unwrap();
    assert_eq!(pkgs[0].name, "serde");
    assert_eq!(pkgs[0].version, Some("1.0".into()));
}

#[test]
fn go_get_module() {
    let pkgs = extract_packages(&PackageManager::Go, &args("get golang.org/x/net")).unwrap();
    assert_eq!(pkgs[0].name, "golang.org/x/net");
}

#[test]
fn go_mod_download_passes_through() {
    assert!(extract_packages(&PackageManager::Go, &args("mod download")).is_none());
}

#[test]
fn pip_install_multiple_packages() {
    let pkgs = extract_packages(&PackageManager::Pip, &args("install requests flask")).unwrap();
    assert_eq!(pkgs.len(), 2);
    assert_eq!(pkgs[0].name, "requests");
    assert_eq!(pkgs[1].name, "flask");
}

// --- further cases ---

#[test]
fn detects_from_paths_with_trailing_parts() {
    assert_eq!(PackageManager::from_argv0("/usr/bin/pip/"), Some(PackageManager::Pip));
    assert_eq!(PackageManager::from_argv0("./bin/./yarn/."), Some(PackageManager::Yarn));
    assert_eq!(PackageManager::from_argv0("uv"), Some(PackageManager::Uv));
    assert!(PackageManager::from_argv0("/usr/bin/..").is_none());
    assert!(PackageManager::from_argv0("/").is_none());
    assert!(PackageManager::from_argv0("").is_none());
}

#[test]
fn names_and_ecosystems() {
    let all = PackageManager::all();
    assert_eq!(all.len(), 8);
    let names: Vec<&str> = all.iter().map(|p| p.name()).collect();
    assert_eq!(names, ["pip", "uv", "poetry", "npm", "yarn", "pnpm", "go", "cargo"]);
    let ecos: Vec<&str> = all.iter().map(|p| p.ecosystem()).collect();
    assert_eq!(ecos, ["PyPI", "PyPI", "PyPI", "npm", "npm", "npm", "Go", "crates.io"]);
    for pm in &all {
        assert_eq!(PackageManager::from_argv0(pm.name()), Some(*pm));
    }
}

#[test]
fn python_specs() {
    let a = parse_package_spec(&PackageManager::Pip, "requests[security]>=2.0");
    assert_eq!(a.name, "requests");
    assert_eq!(a.version, None);
    let b = parse_package_spec(&PackageManager::Poetry, "flask==");
    assert_eq!(b.name, "flask");
    assert_eq!(b.version, Some(String::new()));
    let c = parse_package_spec(&PackageManager::Uv, "x!=1,==2.0");
    assert_eq!(c.name, "x");
    assert_eq!(c.version, Some("2.0".into()));
}

#[test]
fn at_specs_split_at_first_at() {
    let a = parse_package_spec(&PackageManager::Pnpm, "@scope/pkg@1.0");
    assert_eq!(a.name, "");
    assert_eq!(a.version, Some("scope/pkg@1.0".into()));
    let b = parse_package_spec(&PackageManager::Yarn, "left-pad");
    assert_eq!(b.name, "left-pad");
    assert_eq!(b.version, None);
}

#[test]
fn install_skips_manifest_arguments() {
    let pkgs = extract_packages(&PackageManager::Pnpm, &args("install --save-dev x.json y")).unwrap();
    assert_eq!(pkgs.len(), 1);
    assert_eq!(pkgs[0].name, "y");
    assert!(extract_packages(&PackageManager::Yarn, &args("install y")).is_none());
    assert!(extract_packages(&PackageManager::Poetry, &[]).is_none());
}

#[test]
fn ecosystem_osv_names() {
    assert_eq!(Ecosystem::PyPI.as_osv_str(), "PyPI");
    assert_eq!(Ecosystem::Npm.as_osv_str(), "npm");
    assert_eq!(Ecosystem::Go.as_osv_str(), "Go");
    assert_eq!(Ecosystem::Cargo.as_osv_str(), "crates.io");
}

#[test]
fn from_argv0_inverts_name() {
    for pm in PackageManager::all() {
        assert_eq!(PackageManager::from_argv0(pm.name()), Some(pm));
        for dir in ["", "/usr/local/bin", "rel/dir", "/home/u/.primer/bin/"] {
            let path = format!("{}/{}", dir, pm.name());
            assert_eq!(PackageManager::from_argv0(&path), Some(pm));
        }
    }
}

fn strings(v: &[&str]) -> Vec<String> {
    v.iter().map(|s| s.to_string()).collect()
}

#[test]
fn restore_manifests_for_bare_restore_commands() {
    assert_eq!(restore_manifests(&PackageManager::Npm, &strings(&["install"])), ["package.json"]);
    assert_eq!(restore_manifests(&PackageManager::Yarn, &strings(&[])), ["package.json"]);
    assert_eq!(restore_manifests(&PackageManager::Pnpm, &strings(&["install", "--frozen-lockfile"])), ["package.json"]);
    assert_eq!(
        restore_manifests(&PackageManager::Pip, &strings(&["install", "-r", "requirements.txt"])),
        ["requirements.txt", "pyproject.toml"]
    );
    assert_eq!(restore_manifests(&PackageManager::Uv, &strings(&["sync"])), ["requirements.txt", "pyproject.toml"]);
    assert_eq!(restore_manifests(&PackageManager::Poetry, &strings(&["install"])), ["pyproject.toml"]);
    assert_eq!(restore_manifests(&PackageManager::Go, &strings(&["mod", "download"])), ["go.mod"]);
    assert_eq!(restore_manifests(&PackageManager::Cargo, &strings(&["fetch"])), ["Cargo.toml"]);
}

#[test]
fn restore_manifests_empty_for_other_commands() {
    assert!(restore_manifests(&PackageManager::Npm, &strings(&["install", "express"])).is_empty());
    assert!(restore_manifests(&PackageManager::Pip, &strings(&["install", "requests"])).is_empty());
    assert!(restore_manifests(&PackageManager::Pip, &strings(&["list"])).is_empty());
    assert!(restore_manifests(&PackageManager::Go, &strings(&["mod", "tidy"])).is_empty());
    assert!(restore_manifests(&PackageManager::Cargo, &strings(&["add", "serde"])).is_empty());
    assert!(restore_manifests(&PackageManager::Yarn, &strings(&["add", "react"])).is_empty());
}
