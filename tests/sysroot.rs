use rust_semverver::sysroot::{resolve_sysroot, sysroot_from_config, SysrootError, ToolchainEnv};

fn strings(v: &[&str]) -> Vec<String> {
    v.iter().map(|s| s.to_string()).collect()
}

fn empty_env() -> ToolchainEnv {
    ToolchainEnv {
        sysroot: None,
        rustup_home: None,
        multirust_home: None,
        rustup_toolchain: None,
        multirust_toolchain: None,
        build_sysroot: None,
    }
}

fn full_env() -> ToolchainEnv {
    ToolchainEnv {
        sysroot: Some("/env".to_string()),
        rustup_home: Some("/home/u/.rustup".to_string()),
        multirust_home: Some("/home/u/.multirust".to_string()),
        rustup_toolchain: Some("nightly".to_string()),
        multirust_toolchain: Some("stable".to_string()),
        build_sysroot: Some("/built".to_string()),
    }
}

#[test]
fn flag_with_equals_wins() {
    let args = strings(&["prog", "--sysroot=/x", "a.rs"]);
    let r = resolve_sysroot(&args, &full_env(), Some("/probe\n".to_string()));
    assert_eq!(r, Ok("/x".to_string()));
}

#[test]
fn flag_with_separate_value_wins() {
    let args = strings(&["prog", "--sysroot", "/x", "a.rs"]);
    let r = resolve_sysroot(&args, &full_env(), Some("/probe\n".to_string()));
    assert_eq!(r, Ok("/x".to_string()));
}

#[test]
fn env_sysroot_without_flag() {
    let args = strings(&["prog", "a.rs"]);
    let r = resolve_sysroot(&args, &full_env(), None);
    assert_eq!(r, Ok("/env".to_string()));
}

#[test]
fn toolchain_manager_directory() {
    let args = strings(&["prog", "a.rs"]);
    let mut env = full_env();
    env.sysroot = None;
    assert_eq!(sysroot_from_config(&args, &env).as_deref(), Some("/home/u/.rustup/toolchains/nightly"));
    env.rustup_home = None;
    env.rustup_toolchain = None;
    assert_eq!(sysroot_from_config(&args, &env).as_deref(), Some("/home/u/.multirust/toolchains/stable"));
    env.multirust_toolchain = None;
    assert_eq!(sysroot_from_config(&args, &env), None);
}

#[test]
fn probe_output_is_trimmed() {
    let args = strings(&["prog", "a.rs"]);
    let mut env = empty_env();
    env.build_sysroot = Some("/built".to_string());
    let r = resolve_sysroot(&args, &env, Some("  /usr/lib/rust\n".to_string()));
    assert_eq!(r, Ok("/usr/lib/rust".to_string()));
}

#[test]
fn build_time_default_last() {
    let args = strings(&["prog", "a.rs"]);
    let mut env = empty_env();
    env.build_sysroot = Some("/built".to_string());
    assert_eq!(resolve_sysroot(&args, &env, None), Ok("/built".to_string()));
}

#[test]
fn no_source_is_an_error() {
    let args = strings(&["prog", "a.rs"]);
    assert_eq!(resolve_sysroot(&args, &empty_env(), None), Err(SysrootError::NotFound));
}
