use primer::advisory::{advisory_url, select_advisories, urlencoding, GhAdvisory, GhPackage};
use primer::doctor::{path_order, same_path_v};
use primer::model::{is_model_file, model_target, ModelTarget};
use primer::config::Config;

fn adv(id: &str, severity: &str, pkgs: &[(&str, &str)]) -> GhAdvisory {
    GhAdvisory {
        ghsa_id: id.into(),
        summary: format!("summary {}", id),
        severity: severity.into(),
        vulnerabilities: pkgs
            .iter()
            .map(|(n, e)| GhPackage { name: n.to_string(), ecosystem: e.to_string() })
            .collect(),
    }
}

#[test]
fn selects_affecting_advisories_and_uppercases() {
    let raw = vec![
        adv("GHSA-1", "high", &[("Requests", "pip"), ("requests", "PYPI")]),
        adv("GHSA-2", "low", &[("flask", "PyPI")]),
        adv("GHSA-3", "critical", &[("requests", "npm")]),
        adv("GHSA-4", "moderate", &[]),
    ];
    let got = select_advisories(&raw, "requests", "PyPI");
    assert_eq!(got.len(), 1);
    assert_eq!(got[0].id, "GHSA-1");
    assert_eq!(got[0].severity, "HIGH");
    assert_eq!(got[0].summary, "summary GHSA-1");
}

#[test]
fn url_encoding() {
    assert_eq!(urlencoding("a b/é_-.Z9"), "a%20b%2Fé_-.Z9");
    assert_eq!(urlencoding("\n@"), "%0A%40");
    assert_eq!(urlencoding("\u{1F600}"), "%1F600");
    assert_eq!(
        advisory_url("@types/node", "npm"),
        "https://api.github.com/advisories?affects=%40types%2Fnode&ecosystem=npm"
    );
}

#[test]
fn path_comparison_is_componentwise() {
    assert!(same_path_v("/home/u/.primer/bin", "/home/u//.primer/bin/"));
    assert!(same_path_v("/a/./b", "/a/b"));
    assert!(!same_path_v("/a/b", "a/b"));
    assert!(!same_path_v("./a", "a"));
    assert!(!same_path_v("/a/../b", "/b"));
}

#[test]
fn path_order_positions() {
    let dirs: Vec<String> = ["/home/u/.nvm/bin", "/home/u/.primer/bin/", "/usr/bin", "/opt/pyenv/shims", "/x/nvm"]
        .iter()
        .map(|s| s.to_string())
        .collect();
    let order = path_order(&dirs, "/home/u/.primer/bin");
    assert_eq!(order.primer_pos, Some(1));
    assert_eq!(order.managers, vec![("nvm".to_string(), 0), ("pyenv".to_string(), 3)]);
    let none = path_order(&dirs[2..3], "/home/u/.primer/bin");
    assert_eq!(none.primer_pos, None);
    assert!(none.managers.is_empty());
}

#[test]
fn model_targets() {
    let mut cfg = Config::default();
    cfg.ai.tokenizer = Some("/t.json".into());
    let t = model_target("ollama:llama3.2");
    assert_eq!(t, ModelTarget::Ollama("llama3.2".into()));
    t.apply(&mut cfg);
    assert_eq!(cfg.ai.backend.as_deref(), Some("ollama"));
    assert_eq!(cfg.ai.model.as_deref(), Some("llama3.2"));
    assert_eq!(cfg.ai.tokenizer.as_deref(), Some("/t.json"));
    let l = model_target("/m/smollm2.gguf");
    assert_eq!(l, ModelTarget::Local("/m/smollm2.gguf".into()));
    l.apply(&mut cfg);
    assert_eq!(cfg.ai.backend.as_deref(), Some("local"));
}

#[test]
fn model_files() {
    assert!(is_model_file("/m/smollm2.gguf"));
    assert!(is_model_file("/m/tokenizer.json"));
    assert!(!is_model_file("/m/readme.md"));
    assert!(!is_model_file("/m/.gguf"));
}
