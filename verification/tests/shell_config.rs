use primer::init::{append_path_line, extension_of, is_fish_config, motionstream_bin_dir};
use primer::uninit::strip_marker_block;

const MARKER: &str = "# motionstream";
const PATH_LINE: &str = r#"export PATH="$HOME/.primer/bin:$PATH""#;

#[test]
fn appends_path_line_to_empty_file() {
    let contents = append_path_line("", false).expect("should return Some (file modified)");
    assert!(contents.contains(MARKER));
    assert!(contents.contains(PATH_LINE));
}

#[test]
fn append_is_idempotent() {
    let first = append_path_line("# existing content\n", false).unwrap();
    let result = append_path_line(&first, false);
    assert!(result.is_none(), "second call should return None (already configured)");
    assert_eq!(first.matches(MARKER).count(), 1, "marker should appear exactly once");
}

#[test]
fn appends_fish_syntax_for_fish_files() {
    assert!(is_fish_config("/home/u/.config/fish/config.fish"));
    let contents = append_path_line("# fish config\n", true).unwrap();
    assert!(contents.contains("fish_add_path"));
    assert!(!contents.contains("export PATH"));
}

#[test]
fn preserves_existing_content() {
    let original = "# my zshrc\nexport FOO=bar\n";
    let contents = append_path_line(original, false).unwrap();
    assert!(contents.starts_with(original));
}

#[test]
fn strips_marker_block_from_config() {
    let content = "# existing\nexport FOO=bar\n\n# motionstream\nexport PATH=\"$HOME/.motionstream/bin:$PATH\"\n\n# after\n";
    let contents = strip_marker_block(content).expect("should return Some (file modified)");
    assert!(!contents.contains(MARKER));
    assert!(!contents.contains(".motionstream"));
    assert!(contents.contains("export FOO=bar"));
    assert!(contents.contains("# after"));
}

#[test]
fn strip_is_noop_when_marker_absent() {
    let content = "# my config\nexport BAR=baz\n";
    assert!(strip_marker_block(content).is_none(), "should return None (nothing to remove)");
}

#[test]
fn strip_and_re_append_roundtrips_cleanly() {
    let original = "# my zshrc\nexport FOO=bar\n";
    let appended = append_path_line(original, false).unwrap();
    let after = strip_marker_block(&appended).unwrap();
    assert!(!after.contains(MARKER), "marker should be gone after strip");
    assert!(after.contains("export FOO=bar"), "original content preserved");
}

// --- further cases ---

#[test]
fn strip_after_append_gives_lines_and_blank() {
    let original = "a\nb\n";
    let appended = append_path_line(original, true).unwrap();
    assert_eq!(strip_marker_block(&appended).unwrap(), "a\nb\n\n");
    assert_eq!(strip_marker_block(&append_path_line("", false).unwrap()).unwrap(), "\n");
}

#[test]
fn append_sees_marker_anywhere() {
    assert!(append_path_line("x # motionstream y", false).is_none());
}

#[test]
fn strip_keeps_lines_after_blank() {
    let c = "x\n  # motionstream  \nsecret\n\t\nkeep\n";
    assert_eq!(strip_marker_block(c).unwrap(), "x\nkeep\n");
}

#[test]
fn fish_extension_rules() {
    assert!(!is_fish_config("/home/u/.fish"));
    assert!(!is_fish_config("/home/u/.zshrc"));
    assert!(is_fish_config("a.b.fish/"));
    assert_eq!(extension_of("/x/archive.tar.gz").as_deref(), Some("gz"));
    assert_eq!(extension_of("/x/name."), Some(String::new()));
    assert_eq!(extension_of("/x/.."), None);
}

#[test]
fn bin_dir_paths() {
    assert_eq!(motionstream_bin_dir(Some("/home/u")), "/home/u/.primer/bin");
    assert_eq!(motionstream_bin_dir(None), "/tmp/.primer/bin");
}
