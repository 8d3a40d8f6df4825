use primer::manifest::{manifest_packages, parse_diff};

#[test]
fn requirements_simple_pinned() {
    let diff = "+requests==2.25.1\n";
    let pkgs = parse_diff("requirements.txt", diff);
    assert_eq!(pkgs.len(), 1);
    assert_eq!(pkgs[0].name, "requests");
    assert_eq!(pkgs[0].version.as_deref(), Some("2.25.1"));
    assert_eq!(pkgs[0].ecosystem, "PyPI");
}

#[test]
fn requirements_ge_specifier() {
    let diff = "+pillow>=9.0.0\n";
    let pkgs = parse_diff("requirements.txt", diff);
    assert_eq!(pkgs[0].name, "pillow");
    assert_eq!(pkgs[0].version.as_deref(), Some("9.0.0"));
}

#[test]
fn requirements_no_version() {
    let diff = "+flask\n";
    let pkgs = parse_diff("requirements.txt", diff);
    assert_eq!(pkgs[0].name, "flask");
    assert_eq!(pkgs[0].version, None);
}

#[test]
fn requirements_skips_comments_and_blank() {
    let diff = "+# comment\n+\n+requests==2.28.0\n";
    let pkgs = parse_diff("requirements.txt", diff);
    assert_eq!(pkgs.len(), 1);
}

#[test]
fn requirements_skips_diff_header() {
    let diff = "+++ b/requirements.txt\n+requests==2.28.0\n";
    let pkgs = parse_diff("requirements.txt", diff);
    assert_eq!(pkgs.len(), 1);
}

#[test]
fn package_json_caret_version() {
    let diff = "+    \"express\": \"^4.18.2\",\n";
    let pkgs = parse_diff("package.json", diff);
    assert_eq!(pkgs.len(), 1);
    assert_eq!(pkgs[0].name, "express");
    assert_eq!(pkgs[0].version.as_deref(), Some("4.18.2"));
    assert_eq!(pkgs[0].ecosystem, "npm");
}

#[test]
fn package_json_tilde_version() {
    let diff = "+    \"lodash\": \"~4.17.21\",\n";
    let pkgs = parse_diff("package.json", diff);
    assert_eq!(pkgs[0].name, "lodash");
    assert_eq!(pkgs[0].version.as_deref(), Some("4.17.21"));
}

#[test]
fn package_json_skips_unchanged() {
    let diff = " \"react\": \"^18.0.0\",\n+\"axios\": \"^1.4.0\",\n";
    let pkgs = parse_diff("package.json", diff);
    assert_eq!(pkgs.len(), 1);
    assert_eq!(pkgs[0].name, "axios");
}

#[test]
fn go_mod_inline_require() {
    let diff = "+require github.com/gin-gonic/gin v1.9.1\n";
    let pkgs = parse_diff("go.mod", diff);
    assert_eq!(pkgs.len(), 1);
    assert_eq!(pkgs[0].name, "github.com/gin-gonic/gin");
    assert_eq!(pkgs[0].version.as_deref(), Some("1.9.1"));
    assert_eq!(pkgs[0].ecosystem, "Go");
}

#[test]
fn go_mod_block_entry() {
    let diff = "+\tgithub.com/stretchr/testify v1.8.4\n";
    let pkgs = parse_diff("go.mod", diff);
    assert_eq!(pkgs[0].name, "github.com/stretchr/testify");
    assert_eq!(pkgs[0].version.as_deref(), Some("1.8.4"));
}

#[test]
fn go_mod_skips_directives() {
    let diff = "+go 1.21\n+module myapp\n+require golang.org/x/net v0.17.0\n";
    let pkgs = parse_diff("go.mod", diff);
    assert_eq!(pkgs.len(), 1);
    assert_eq!(pkgs[0].name, "golang.org/x/net");
}

#[test]
fn cargo_toml_simple_string() {
    let diff = " [dependencies]\n+serde = \"1.0\"\n";
    let pkgs = parse_diff("Cargo.toml", diff);
    assert_eq!(pkgs.len(), 1);
    assert_eq!(pkgs[0].name, "serde");
    assert_eq!(pkgs[0].version.as_deref(), Some("1.0"));
    assert_eq!(pkgs[0].ecosystem, "crates.io");
}

#[test]
fn cargo_toml_table_form() {
    let diff = " [dependencies]\n+tokio = { version = \"1.35\", features = [\"full\"] }\n";
    let pkgs = parse_diff("Cargo.toml", diff);
    assert_eq!(pkgs[0].name, "tokio");
    assert_eq!(pkgs[0].version.as_deref(), Some("1.35"));
}

#[test]
fn cargo_toml_ignores_non_deps_section() {
    let diff = " [package]\n+name = \"myapp\"\n [dependencies]\n+anyhow = \"1.0\"\n";
    let pkgs = parse_diff("Cargo.toml", diff);
    assert_eq!(pkgs.len(), 1);
    assert_eq!(pkgs[0].name, "anyhow");
}

#[test]
fn unknown_manifest_returns_empty() {
    let pkgs = parse_diff("poetry.lock", "+foo = \"1.0\"\n");
    assert!(pkgs.is_empty());
}

// --- further cases ---

#[test]
fn requirements_lowercases_name_and_trims_version() {
    let pkgs = parse_diff("requirements.txt", "+Django ~= 4.2 \n+-r other.txt\n");
    assert_eq!(pkgs.len(), 1);
    assert_eq!(pkgs[0].name, "django");
    assert_eq!(pkgs[0].version.as_deref(), Some("4.2"));
}

#[test]
fn requirements_earliest_operator_wins() {
    // `>` at 3 comes before `==` at 6; `>=` and `>` tie at 3 and `>=` is tried first.
    let pkgs = parse_diff("requirements.txt", "+foo>=1,==2\n+bar@https://x\n+baz<3\n");
    assert_eq!(pkgs[0].name, "foo");
    assert_eq!(pkgs[0].version.as_deref(), Some("1,==2"));
    assert_eq!(pkgs[1].name, "bar");
    assert_eq!(pkgs[1].version.as_deref(), Some("https://x"));
    assert_eq!(pkgs[2].version.as_deref(), Some("3"));
}

#[test]
fn package_json_requires_quoted_version() {
    let pkgs = parse_diff("package.json", "+\"name\": 12,\n+\"a\" : \">=1.2\"\n");
    assert_eq!(pkgs.len(), 1);
    assert_eq!(pkgs[0].name, "a");
    assert_eq!(pkgs[0].version.as_deref(), Some("1.2"));
}

#[test]
fn go_mod_without_version_and_parens() {
    let pkgs = parse_diff("go.mod", "+require (\n+\texample.com/m\n+)\n+// note\n");
    assert_eq!(pkgs.len(), 1);
    assert_eq!(pkgs[0].name, "example.com/m");
    assert_eq!(pkgs[0].version, None);
}

#[test]
fn cargo_toml_table_without_version_and_other_sections() {
    let diff = " [dev-dependencies]\n+local = { path = \"../x\" }\n [build-dependencies]\n+cc = \"1\"\n [features]\n+x = \"y\"\n-old = \"1\"\n";
    let pkgs = parse_diff("Cargo.toml", diff);
    assert_eq!(pkgs.len(), 2);
    assert_eq!(pkgs[0].name, "local");
    assert_eq!(pkgs[0].version, None);
    assert_eq!(pkgs[1].name, "cc");
    assert_eq!(pkgs[1].version.as_deref(), Some("1"));
}

#[test]
fn removed_and_unchanged_lines_report_nothing() {
    let diff = "-requests==1\n requests==2\n+++ b/requirements.txt\n";
    assert!(parse_diff("requirements.txt", diff).is_empty());
}

#[test]
fn package_json_version_bump_is_no_package() {
    let pkgs = parse_diff("package.json", " {\n+  \"version\": \"1.0.1\",\n");
    assert!(pkgs.is_empty());
}

#[test]
fn package_json_only_dependency_blocks_count() {
    let diff = " {\n   \"name\": \"app\",\n-  \"version\": \"1.0.0\",\n+  \"version\": \"1.0.1\",\n   \"scripts\": {\n+    \"lint\": \"eslint 1\",\n   },\n   \"devDependencies\": {\n+    \"jest\": \"^29.7.0\",\n   },\n   \"dependencies\": {\n+    \"express\": \"^4.18.2\"\n   }\n }\n";
    let pkgs = parse_diff("package.json", diff);
    assert_eq!(pkgs.len(), 2);
    assert_eq!(pkgs[0].name, "jest");
    assert_eq!(pkgs[0].version.as_deref(), Some("29.7.0"));
    assert_eq!(pkgs[1].name, "express");
    assert_eq!(pkgs[1].version.as_deref(), Some("4.18.2"));
}

#[test]
fn package_json_nested_blocks_and_new_hunk() {
    let diff = "   \"exports\": {\n+    \".\": {\n+      \"import\": \"./x-1.js\"\n+    },\n   },\n   \"name\": \"p\",\n@@ -20,3 +21,4 @@\n+    \"axios\": \"^1.4.0\",\n";
    let pkgs = parse_diff("package.json", diff);
    assert_eq!(pkgs.len(), 1);
    assert_eq!(pkgs[0].name, "axios");
}

#[test]
fn pyproject_project_dependencies() {
    let diff = " [project]\n dependencies = [\n+  \"requests==2.28.0\",\n   \"flask\",\n ]\n";
    let pkgs = parse_diff("pyproject.toml", diff);
    assert_eq!(pkgs.len(), 1);
    assert_eq!(pkgs[0].name, "requests");
    assert_eq!(pkgs[0].version.as_deref(), Some("2.28.0"));
    assert_eq!(pkgs[0].ecosystem, "PyPI");
}

#[test]
fn pyproject_inline_array_extras_and_markers() {
    let diff = " [project]\n+dependencies = [\"Requests[security]>=2.31\", 'django; python_version < \"4\"']\n+version = \"1.0\"\n";
    let pkgs = parse_diff("pyproject.toml", diff);
    assert_eq!(pkgs.len(), 2);
    assert_eq!(pkgs[0].name, "requests");
    assert_eq!(pkgs[0].version.as_deref(), Some("2.31"));
    assert_eq!(pkgs[1].name, "django");
    assert_eq!(pkgs[1].version, None);
}

#[test]
fn pyproject_optional_groups_and_other_tables() {
    let diff = " [tool.ruff]\n+select = [\"E1\"]\n [project.optional-dependencies]\n+test = [\n+  \"pytest>=7\",  # runner\n+]\n+\"not-in-array\"\n";
    let pkgs = parse_diff("pyproject.toml", diff);
    assert_eq!(pkgs.len(), 1);
    assert_eq!(pkgs[0].name, "pytest");
    assert_eq!(pkgs[0].version.as_deref(), Some("7"));
}

#[test]
fn pyproject_poetry_table() {
    let diff = " [tool.poetry.dependencies]\n python = \"^3.11\"\n+Flask = \"^3.0\"\n+python = \"^3.12\"\n [tool.poetry.group.dev.dependencies]\n+black = { version = \"24.1\" }\n";
    let pkgs = parse_diff("pyproject.toml", diff);
    assert_eq!(pkgs.len(), 2);
    assert_eq!(pkgs[0].name, "flask");
    assert_eq!(pkgs[0].version.as_deref(), Some("^3.0"));
    assert_eq!(pkgs[1].name, "black");
    assert_eq!(pkgs[1].version.as_deref(), Some("24.1"));
}

#[test]
fn manifest_packages_reads_whole_files() {
    let pkgs = manifest_packages("requirements.txt", "# deps\nrequests==2.28.0\nflask\n");
    assert_eq!(pkgs.len(), 2);
    assert_eq!(pkgs[0].name, "requests");
    assert_eq!(pkgs[1].name, "flask");

    let json = "{\n  \"name\": \"app\",\n  \"version\": \"1.0.0\",\n  \"dependencies\": {\n    \"express\": \"^4.18.2\"\n  }\n}\n";
    let pkgs = manifest_packages("package.json", json);
    assert_eq!(pkgs.len(), 1);
    assert_eq!(pkgs[0].name, "express");

    let cargo = "[package]\nname = \"x\"\nversion = \"0.1.0\"\n\n[dependencies]\nserde = \"1.0\"\n";
    let pkgs = manifest_packages("Cargo.toml", cargo);
    assert_eq!(pkgs.len(), 1);
    assert_eq!(pkgs[0].name, "serde");
    assert_eq!(pkgs[0].ecosystem, "crates.io");

    let py = "[project]\nname = \"x\"\ndependencies = [\n  \"httpx>=0.27\",\n]\n";
    let pkgs = manifest_packages("pyproject.toml", py);
    assert_eq!(pkgs.len(), 1);
    assert_eq!(pkgs[0].name, "httpx");
    assert_eq!(pkgs[0].version.as_deref(), Some("0.27"));

    assert!(manifest_packages("README.md", "requests==1\n").is_empty());
}
