use rust_semverver::args::{arg_value, normalize_args, sysroot_flag, wants_version, ArgsError};

fn strings(v: &[&str]) -> Vec<String> {
    v.iter().map(|s| s.to_string()).collect()
}

#[test]
fn test_arg_value() {
    let args = strings(&["--bar=bar", "--foobar", "123", "--foo"]);

    assert_eq!(arg_value(&Vec::new(), "--foobar", |_| true), None);
    assert_eq!(arg_value(&args, "--bar", |_| false), None);
    assert_eq!(arg_value(&args, "--bar", |_| true).as_deref(), Some("bar"));
    assert_eq!(arg_value(&args, "--bar", |p| p == "bar").as_deref(), Some("bar"));
    assert_eq!(arg_value(&args, "--bar", |p| p == "foo"), None);
    assert_eq!(arg_value(&args, "--foobar", |p| p == "foo"), None);
    assert_eq!(arg_value(&args, "--foobar", |p| p == "123").as_deref(), Some("123"));
    assert_eq!(arg_value(&args, "--foo", |_| true), None);
}

#[test]
fn arg_value_absent_flag() {
    let args = strings(&["--bar=bar", "--foobar", "123", "--foo"]);
    assert_eq!(arg_value(&args, "--baz", |_| true), None);
    assert_eq!(arg_value(&args, "--baz", |_| false), None);
}

#[test]
fn arg_value_consumes_the_value_token() {
    // The token after a bare flag is its value and is not read as a flag.
    let args = strings(&["--x", "--x", "a"]);
    assert_eq!(arg_value(&args, "--x", |_| true).as_deref(), Some("--x"));
    assert_eq!(arg_value(&args, "--x", |p| p == "a"), None);
}

#[test]
fn arg_value_later_value_accepted() {
    let args = strings(&["--x=1", "--x", "2", "--x=3"]);
    assert_eq!(arg_value(&args, "--x", |p| p == "3").as_deref(), Some("3"));
    assert_eq!(arg_value(&args, "--x", |p| p != "1").as_deref(), Some("2"));
}

#[test]
fn arg_value_splits_at_first_equals() {
    let args = strings(&["--cfg=a=b"]);
    assert_eq!(arg_value(&args, "--cfg", |_| true).as_deref(), Some("a=b"));
    let empty = strings(&["--cfg="]);
    assert_eq!(arg_value(&empty, "--cfg", |_| true).as_deref(), Some(""));
}

#[test]
fn sysroot_flag_both_forms() {
    assert_eq!(sysroot_flag(&strings(&["prog", "--sysroot=/x"])).as_deref(), Some("/x"));
    assert_eq!(sysroot_flag(&strings(&["prog", "--sysroot", "/y", "a.rs"])).as_deref(), Some("/y"));
    assert_eq!(sysroot_flag(&strings(&["prog", "a.rs"])), None);
    assert_eq!(sysroot_flag(&strings(&["prog", "--sysroot"])), None);
}

#[test]
fn version_flag_detected() {
    assert!(wants_version(&strings(&["prog", "--version"])));
    assert!(wants_version(&strings(&["prog", "a.rs", "-V"])));
    assert!(!wants_version(&strings(&["prog", "--verbose", "-v"])));
    assert!(!wants_version(&Vec::new()));
}

#[test]
fn normalize_too_few_arguments() {
    let root = "/root".to_string();
    assert_eq!(normalize_args(&strings(&["prog"]), false, &root), Err(ArgsError::TooFewArguments));
    assert_eq!(normalize_args(&Vec::new(), true, &root), Err(ArgsError::TooFewArguments));
}

#[test]
fn normalize_drops_wrapper_token() {
    let root = "/root".to_string();
    let r = normalize_args(&strings(&["prog", "rustc", "a.rs"]), true, &root).unwrap();
    assert_eq!(r, strings(&["prog", "a.rs"]));
    let r = normalize_args(&strings(&["prog", "/usr/bin/rustc", "a.rs"]), true, &root).unwrap();
    assert_eq!(r, strings(&["prog", "a.rs"]));
    let r = normalize_args(&strings(&["prog", "rustdoc", "a.rs"]), true, &root).unwrap();
    assert_eq!(r, strings(&["prog", "rustdoc", "a.rs"]));
}

#[test]
fn normalize_appends_sysroot() {
    let root = "/opt/tc".to_string();
    let r = normalize_args(&strings(&["prog", "a.rs"]), false, &root).unwrap();
    assert_eq!(r, strings(&["prog", "a.rs", "--sysroot", "/opt/tc"]));
    let r = normalize_args(&strings(&["prog", "rustc", "a.rs"]), false, &root).unwrap();
    assert_eq!(r, strings(&["prog", "a.rs", "--sysroot", "/opt/tc"]));
    let r = normalize_args(&strings(&["prog", "--sysroot=/s", "a.rs"]), true, &root).unwrap();
    assert_eq!(r, strings(&["prog", "--sysroot=/s", "a.rs"]));
}
