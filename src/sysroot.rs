//! Locating the compiler's toolchain root (its sysroot).
use vstd::prelude::*;
use crate::args::{candidates, flag_name, inline_value, lemma_skip_unnamed, sysroot_flag};

verus! {

/// The environment settings that may name the toolchain root.
#[derive(Debug)]
pub struct ToolchainEnv {
    /// `SYSROOT` at run time.
    pub sysroot: Option<String>,
    /// `RUSTUP_HOME`.
    pub rustup_home: Option<String>,
    /// `MULTIRUST_HOME`, read where `RUSTUP_HOME` is unset.
    pub multirust_home: Option<String>,
    /// `RUSTUP_TOOLCHAIN`.
    pub rustup_toolchain: Option<String>,
    /// `MULTIRUST_TOOLCHAIN`, read where `RUSTUP_TOOLCHAIN` is unset.
    pub multirust_toolchain: Option<String>,
    /// `SYSROOT` as it was when this program was built.
    pub build_sysroot: Option<String>,
}

/// No source named a toolchain root.
#[derive(Clone, Copy, Debug, PartialEq, Eq, Structural)]
pub enum SysrootError {
    NotFound,
}

/// The characters of an optional string.
pub open spec fn opt_view(o: Option<String>) -> Option<Seq<char>> {
    match o {
        Some(s) => Some(s@),
        None => None,
    }
}

/// The first of `a` and `b` that is set.
pub open spec fn first_set(a: Option<Seq<char>>, b: Option<Seq<char>>) -> Option<Seq<char>> {
    if a is Some {
        a
    } else {
        b
    }
}

/// `home/toolchains/toolchain`, where both a home and a toolchain are set.
pub open spec fn toolchain_dir(env: ToolchainEnv) -> Option<Seq<char>> {
    let home = first_set(opt_view(env.rustup_home), opt_view(env.multirust_home));
    let toolchain = first_set(opt_view(env.rustup_toolchain), opt_view(env.multirust_toolchain));
    if home is Some && toolchain is Some {
        Some(home->0 + "/toolchains/"@ + toolchain->0)
    } else {
        None
    }
}

/// The root named by the command line or the environment: the first
/// `--sysroot` value, else `SYSROOT`, else the toolchain manager's directory.
pub open spec fn configured_sysroot(args: Seq<Seq<char>>, env: ToolchainEnv) -> Option<Seq<char>> {
    let c = candidates(args, "--sysroot"@);
    if c.len() > 0 {
        Some(c[0])
    } else if env.sysroot is Some {
        opt_view(env.sysroot)
    } else {
        toolchain_dir(env)
    }
}

/// What `str::trim` gives: the text without leading and trailing whitespace.
pub uninterp spec fn trimmed(s: Seq<char>) -> Seq<char>;

/// Relies on `str::trim`: `s` without leading and trailing whitespace.
#[verifier::external_body]
fn trim_text(s: &str) -> (r: String)
    ensures
        r@ == trimmed(s@),
{
    s.trim().to_string()
}

/// The root in order of preference: the configured one, else the trimmed
/// answer of the compiler asked for its sysroot (`probe`, where it gave
/// one), else the one fixed when this program was built.
pub open spec fn resolved_sysroot(args: Seq<Seq<char>>, env: ToolchainEnv, probe: Option<Seq<char>>) -> Option<Seq<char>> {
    if configured_sysroot(args, env) is Some {
        configured_sysroot(args, env)
    } else if probe is Some {
        Some(trimmed(probe->0))
    } else {
        opt_view(env.build_sysroot)
    }
}

fn clone_opt(o: &Option<String>) -> (r: Option<String>)
    ensures
        opt_view(r) == opt_view(*o),
{
    match o {
        Some(s) => Some(s.clone()),
        None => None,
    }
}

/// The toolchain root that the command line or the environment names, if
/// any; the compiler need not be asked where this gives one.
pub fn sysroot_from_config(args: &Vec<String>, env: &ToolchainEnv) -> (r: Option<String>)
    ensures
        opt_view(r) == configured_sysroot(args.deep_view(), *env),
{
    let flag = sysroot_flag(args);
    if flag.is_some() {
        return flag;
    }
    if env.sysroot.is_some() {
        return clone_opt(&env.sysroot);
    }
    let home = if env.rustup_home.is_some() { clone_opt(&env.rustup_home) } else { clone_opt(&env.multirust_home) };
    let toolchain = if env.rustup_toolchain.is_some() {
        clone_opt(&env.rustup_toolchain)
    } else {
        clone_opt(&env.multirust_toolchain)
    };
    match (home, toolchain) {
        (Some(h), Some(t)) => {
            let mut dir = h;
            dir.append("/toolchains/");
            dir.append(t.as_str());
            Some(dir)
        },
        _ => None,
    }
}

/// Resolves the toolchain root; `probe` is what the compiler printed when
/// asked for its sysroot, where it could be run.
pub fn resolve_sysroot(args: &Vec<String>, env: &ToolchainEnv, probe: Option<String>) -> (r: Result<String, SysrootError>)
    ensures
        match resolved_sysroot(args.deep_view(), *env, opt_view(probe)) {
            Some(s) => r is Ok && r->Ok_0@ == s,
            None => r == Err::<String, SysrootError>(SysrootError::NotFound),
        },
{
    match sysroot_from_config(args, env) {
        Some(s) => Ok(s),
        None => match probe {
            Some(p) => Ok(trim_text(p.as_str())),
            None => match clone_opt(&env.build_sysroot) {
                Some(s) => Ok(s),
                None => Err(SysrootError::NotFound),
            },
        },
    }
}

/// A `--sysroot=X` or `--sysroot X` on the command line, the first token
/// so named, gives the root `X`, whatever the environment and the compiler say.
pub proof fn lemma_sysroot_flag_wins(args: Seq<Seq<char>>, env: ToolchainEnv, probe: Option<Seq<char>>, i: int)
    requires
        0 <= i < args.len(),
        flag_name(args[i]) == "--sysroot"@,
        forall|k: int| 0 <= k < i ==> flag_name(#[trigger] args[k]) != "--sysroot"@,
        inline_value(args[i]) is Some || i + 1 < args.len(),
    ensures
        resolved_sysroot(args, env, probe) == Some(
            if inline_value(args[i]) is Some {
                inline_value(args[i])->0
            } else {
                args[i + 1]
            },
        ),
{
    lemma_skip_unnamed(args, "--sysroot"@, 0, i);
}

/// Without a `--sysroot` value on the command line, a set `SYSROOT` gives the root.
pub proof fn lemma_env_sysroot(args: Seq<Seq<char>>, env: ToolchainEnv, probe: Option<Seq<char>>)
    requires
        candidates(args, "--sysroot"@).len() == 0,
        env.sysroot is Some,
    ensures
        resolved_sysroot(args, env, probe) == Some(env.sysroot->0@),
{
}

} // verus!
