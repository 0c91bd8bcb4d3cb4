use buildermon::build_target::{
    build_log_title, build_log_title_at, build_target_from_store_path, extract_nix_command,
    extract_nix_store_path, infer_build_target, trim_label,
};
use buildermon::logs::LogLine;

fn line(raw: &str) -> LogLine {
    LogLine { raw: raw.to_string(), html: String::new() }
}

#[test]
fn store_path_is_cut_at_delimiters() {
    assert_eq!(
        extract_nix_store_path("building '/nix/store/abc123-hello-2.12.1.drv'..."),
        Some("/nix/store/abc123-hello-2.12.1.drv".to_string())
    );
    assert_eq!(
        extract_nix_store_path("copying path /nix/store/xyz-glibc-2.39 from cache"),
        Some("/nix/store/xyz-glibc-2.39".to_string())
    );
}

#[test]
fn store_path_loses_trailing_dots_and_colons() {
    assert_eq!(
        extract_nix_store_path("done: /nix/store/q1-foo-1.0:."),
        Some("/nix/store/q1-foo-1.0".to_string())
    );
}

#[test]
fn bare_store_prefix_is_no_path() {
    assert_eq!(extract_nix_store_path("see /nix/store/ for more"), None);
    assert_eq!(extract_nix_store_path("see /nix/store/... for more"), None);
    assert_eq!(extract_nix_store_path("nothing here"), None);
}

#[test]
fn target_from_store_path_drops_hash_and_suffix() {
    assert_eq!(
        build_target_from_store_path("/nix/store/abc123-hello-2.12.1.drv"),
        Some("hello-2.12.1".to_string())
    );
    assert_eq!(
        build_target_from_store_path("/nix/store/abc-python3-3.12.drv.chroot"),
        Some("python3-3.12".to_string())
    );
    assert_eq!(build_target_from_store_path("/nix/store/nohash"), Some("nohash".to_string()));
    assert_eq!(build_target_from_store_path("/nix/store/abc-"), None);
    assert_eq!(build_target_from_store_path("/nix/store/abc- .drv"), None);
}

#[test]
fn long_targets_are_clipped() {
    let long = format!("/nix/store/h-{}", "x".repeat(60));
    assert_eq!(
        build_target_from_store_path(&long),
        Some(format!("{}...", "x".repeat(56)))
    );
}

#[test]
fn trim_label_clips_by_characters() {
    assert_eq!(trim_label("short", 56), "short");
    assert_eq!(trim_label("ééééé", 3), "ééé...");
    assert_eq!(trim_label("abc", 3), "abc");
    assert_eq!(trim_label("abcd", 0), "...");
}

#[test]
fn nix_command_found_in_preference_order() {
    assert_eq!(
        extract_nix_command("$ nix build .#pkg  "),
        Some("nix build .#pkg".to_string())
    );
    assert_eq!(
        extract_nix_command("nix develop then nix-build default.nix"),
        Some("nix-build default.nix".to_string())
    );
    assert_eq!(extract_nix_command("nix shell nixpkgs#hello"), Some("nix shell nixpkgs#hello".to_string()));
    assert_eq!(extract_nix_command("nix flake update"), None);
}

#[test]
fn latest_naming_line_decides_target() {
    let lines = vec![
        line("building '/nix/store/aa-first-1.0.drv'"),
        line("  nix build .#second"),
        line("   "),
        line("some output"),
    ];
    assert_eq!(infer_build_target(&lines), Some("nix build .#second".to_string()));
    let lines = vec![line("nix build .#x"), line("building '/nix/store/bb-third-2.drv'...")];
    assert_eq!(infer_build_target(&lines), Some("third-2".to_string()));
    assert_eq!(infer_build_target(&[line("plain"), line("")]), None);
}

#[test]
fn log_title_names_target_only_while_active() {
    let lines = vec![line("building '/nix/store/cc-tool-3.drv'")];
    assert_eq!(build_log_title_at(&lines, Some(1000), 1010), "build log: tool-3");
    assert_eq!(build_log_title_at(&lines, Some(1000), 1020), "build log: tool-3");
    assert_eq!(build_log_title_at(&lines, Some(1000), 1021), "build log");
    assert_eq!(build_log_title_at(&lines, Some(2000), 1000), "build log: tool-3");
    assert_eq!(build_log_title_at(&lines, None, 1000), "build log");
    assert_eq!(build_log_title_at(&[line("idle")], Some(1000), 1000), "build log");
}

#[test]
fn log_title_with_clock() {
    let lines = vec![line("nix build .#x")];
    assert_eq!(build_log_title(&lines, None), "build log");
    assert_eq!(build_log_title(&lines, Some(u64::MAX)), "build log: nix build .#x");
}
