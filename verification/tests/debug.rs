use rust_app_sample::debug::is_debug_mode;

fn args(a: &[&str]) -> Vec<String> {
    a.iter().map(|s| s.to_string()).collect()
}

#[test]
fn long_and_short_flags_turn_debug_on() {
    assert!(is_debug_mode(&args(&["main", "--debug"])));
    assert!(is_debug_mode(&args(&["-d", "x"])));
}

#[test]
fn other_arguments_do_not() {
    assert!(!is_debug_mode(&args(&["main", "--debugger", "-D", "d"])));
    assert!(!is_debug_mode(&args(&[])));
}
