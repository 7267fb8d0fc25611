use rust_app_sample::build_targets::pattern_matches_exec;
use rust_app_sample::build_targets::passes;
use rust_app_sample::build_targets::{
    all_targets, build_command, filter_patterns, library_file_name, main_exe_name, select_targets,
    triple_base, MACOS_SDK_PATH,
};

fn args(a: &[&str]) -> Vec<String> {
    a.iter().map(|s| s.to_string()).collect()
}

fn aliases(a: &[&str]) -> Vec<&'static str> {
    select_targets(&all_targets(), &args(a)).iter().map(|t| t.alias).collect()
}

#[test]
fn there_are_nine_targets() {
    let t = all_targets();
    assert_eq!(t.len(), 9);
    assert_eq!(t[0].alias, "windows-x86_64");
    assert_eq!(t[8].triple, "armv7-unknown-linux-gnueabihf");
}

#[test]
fn no_arguments_build_everything() {
    assert_eq!(aliases(&[]).len(), 9);
}

#[test]
fn inclusion_by_alias_parts() {
    assert_eq!(aliases(&["win"]), vec!["windows-x86_64", "windows-x86", "windows-arm64"]);
    assert_eq!(aliases(&["win-x86_64", "darwin-arm64"]), vec!["windows-x86_64", "darwin-arm64"]);
    assert_eq!(aliases(&["windows-x86_64", "darwin-arm64"]), vec!["windows-x86_64", "darwin-arm64"]);
    assert_eq!(
        aliases(&["x86"]),
        vec!["windows-x86_64", "windows-x86", "darwin-x86_64", "linux-x86_64", "linux-x86"]
    );
    assert!(aliases(&["86"]).is_empty());
}

#[test]
fn exclusion_by_bang_or_caret() {
    assert_eq!(
        aliases(&["!win"]),
        vec!["darwin-x86_64", "darwin-arm64", "linux-x86_64", "linux-x86", "linux-arm64", "linux-arm32"]
    );
    assert_eq!(aliases(&["!windows"]).len(), 6);
    assert_eq!(aliases(&["^win", "^darwin"]), vec!["linux-x86_64", "linux-x86", "linux-arm64", "linux-arm32"]);
}

#[test]
fn pattern_parts_begin_alias_parts() {
    let c = |s: &str| s.chars().collect::<Vec<char>>();
    assert!(pattern_matches_exec(&c("windows-x86_64"), &c("win-x86")));
    assert!(pattern_matches_exec(&c("linux-arm64"), &c("arm")));
    assert!(!pattern_matches_exec(&c("darwin-arm64"), &c("win")));
    assert!(!pattern_matches_exec(&c("linux-arm64"), &c("arm64-linux")));
    assert!(pattern_matches_exec(&c("linux-arm64"), &c("")));
}

#[test]
fn inclusion_and_exclusion_combine() {
    assert_eq!(aliases(&["linux", "!arm"]), vec!["linux-x86_64", "linux-x86"]);
}

#[test]
fn exclusion_wins_over_inclusion() {
    assert!(aliases(&["darwin", "^darwin"]).is_empty());
}

#[test]
fn matching_ignores_case() {
    assert_eq!(aliases(&["WINDOWS-X86"]), vec!["windows-x86_64", "windows-x86"]);
    assert_eq!(aliases(&["!LINUX", "!Windows"]), vec!["darwin-x86_64", "darwin-arm64"]);
}

#[test]
fn patterns_are_split_and_lower_cased() {
    let (ex, inc) = filter_patterns(&args(&["!Win", "linux", "^ARM", "!"]));
    assert_eq!(ex, vec!["win", "arm", ""]);
    assert_eq!(inc, vec!["linux"]);
}

#[test]
fn empty_exclusion_excludes_everything() {
    assert!(aliases(&["!"]).is_empty());
}

#[test]
fn msvc_targets_use_cargo_build() {
    let t = all_targets();
    let c = build_command(&t[0], MACOS_SDK_PATH);
    assert_eq!(c.program, "cargo");
    assert_eq!(c.args, vec!["build", "--workspace", "--release", "--target", "x86_64-pc-windows-msvc"]);
    assert!(c.envs.is_empty());
}

#[test]
fn other_targets_use_zigbuild() {
    let t = all_targets();
    let c = build_command(&t[5], MACOS_SDK_PATH);
    assert_eq!(c.args, vec!["zigbuild", "--workspace", "--release", "--target", "x86_64-unknown-linux-gnu"]);
    assert_eq!(
        c.envs,
        vec![("CC".to_string(), "zig cc -w".to_string()), ("CXX".to_string(), "zig c++ -w".to_string())]
    );
}

#[test]
fn apple_targets_get_the_sdk() {
    let t = all_targets();
    let c = build_command(&t[4], "/sdk");
    assert_eq!(c.args[0], "zigbuild");
    assert_eq!(c.envs.len(), 3);
    assert_eq!(c.envs[2], ("SDKROOT".to_string(), "/sdk".to_string()));
    assert_eq!(MACOS_SDK_PATH, r"C:\sdks\MacOSX11.3.sdk");
}

#[test]
fn artifact_names() {
    assert_eq!(main_exe_name("exe"), "main.exe");
    assert_eq!(main_exe_name(""), "main");
    assert_eq!(library_file_name("lib", "core", "so"), "libcore.so");
    assert_eq!(library_file_name("", "plugin_sample", "dll"), "plugin_sample.dll");
    assert_eq!(triple_base("x86_64-unknown-linux-gnu"), "x86_64-unknown-linux-gnu");
    assert_eq!(triple_base("thumbv7.custom.json"), "thumbv7");
}

#[test]
fn filter_on_lowered_names() {
    let ex = args(&["arm"]);
    let inc = args(&["linux"]);
    assert!(passes("linux-x86", &ex, &inc));
    assert!(!passes("linux-arm64", &ex, &inc));
    assert!(!passes("darwin-x86_64", &ex, &inc));
    assert!(passes("darwin-x86_64", &ex, &args(&[])));
    // Patterns are matched as given.
    assert!(!passes("linux-x86", &args(&[]), &args(&["LINUX"])));
}
