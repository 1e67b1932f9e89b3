//! Reading flags out of a command line and rewriting it for the compiler.
use vstd::prelude::*;
use crate::text::{chars_of, matches_at, occurs_at, string_of};

verus! {

/// Position of the first `=` in `t`, or its length where there is none.
pub open spec fn eq_index(t: Seq<char>) -> int
    decreases t.len(),
{
    if t.len() == 0 || t[0] == '=' {
        0
    } else {
        1 + eq_index(t.subrange(1, t.len() as int))
    }
}

/// The part of a token before its first `=`.
pub open spec fn flag_name(t: Seq<char>) -> Seq<char> {
    t.subrange(0, eq_index(t))
}

/// The part of a token after its first `=`, where it has one.
pub open spec fn inline_value(t: Seq<char>) -> Option<Seq<char>> {
    if eq_index(t) < t.len() {
        Some(t.subrange(eq_index(t) + 1, t.len() as int))
    } else {
        None
    }
}

/// The values offered for flag `find` by the tokens from `i` on, in order.
/// A token named `find` offers what follows its `=`; without one it offers
/// the next token, which is then consumed and not read as a flag.
pub open spec fn candidates_from(args: Seq<Seq<char>>, find: Seq<char>, i: int) -> Seq<Seq<char>>
    decreases args.len() - i,
{
    if i < 0 || i >= args.len() {
        Seq::empty()
    } else if flag_name(args[i]) != find {
        candidates_from(args, find, i + 1)
    } else if inline_value(args[i]) is Some {
        seq![inline_value(args[i])->0] + candidates_from(args, find, i + 1)
    } else if i + 1 < args.len() {
        seq![args[i + 1]] + candidates_from(args, find, i + 2)
    } else {
        Seq::empty()
    }
}

/// The values offered for flag `find` by the whole command line.
pub open spec fn candidates(args: Seq<Seq<char>>, find: Seq<char>) -> Seq<Seq<char>> {
    candidates_from(args, find, 0)
}

/// `pred` was seen to accept a string with the characters `v`.
pub open spec fn accepts<F: Fn(&str) -> bool>(pred: F, v: Seq<char>) -> bool {
    exists|x: &str| x@ == v && #[trigger] pred.ensures((x,), true)
}

/// `pred` was seen to reject a string with the characters `v`.
pub open spec fn rejects<F: Fn(&str) -> bool>(pred: F, v: Seq<char>) -> bool {
    exists|x: &str| x@ == v && #[trigger] pred.ensures((x,), false)
}

proof fn lemma_eq_index(t: Seq<char>, j: int)
    requires
        0 <= j <= t.len(),
        forall|k: int| 0 <= k < j ==> t[k] != '=',
        j == t.len() || t[j] == '=',
    ensures
        eq_index(t) == j,
    decreases j,
{
    if j > 0 {
        let rest = t.subrange(1, t.len() as int);
        assert forall|k: int| 0 <= k < j - 1 implies rest[k] != '=' by {
            assert(rest[k] == t[k + 1]);
        }
        if j - 1 < rest.len() {
            assert(rest[j - 1] == t[j]);
        }
        lemma_eq_index(rest, j - 1);
    }
}

/// Finds the first `=` in `t`.
fn find_eq(t: &Vec<char>) -> (r: usize)
    ensures
        r == eq_index(t@),
        r <= t@.len(),
{
    let mut j: usize = 0;
    while j < t.len() && t[j] != '='
        invariant
            0 <= j <= t@.len(),
            forall|k: int| 0 <= k < j ==> t@[k] != '=',
        decreases t@.len() - j,
    {
        j = j + 1;
    }
    proof {
        lemma_eq_index(t@, j as int);
    }
    j
}

/// The characters of `t` from position `from` on.
fn suffix(t: &Vec<char>, from: usize) -> (r: Vec<char>)
    requires
        from <= t@.len(),
    ensures
        r@ == t@.subrange(from as int, t@.len() as int),
{
    let mut r: Vec<char> = Vec::new();
    let mut j: usize = from;
    while j < t.len()
        invariant
            from <= j <= t@.len(),
            r@ == t@.subrange(from as int, j as int),
        decreases t@.len() - j,
    {
        r.push(t[j]);
        proof {
            assert(t@.subrange(from as int, j + 1) =~= t@.subrange(from as int, j as int).push(t@[j as int]));
        }
        j = j + 1;
    }
    r
}

/// Tokens that are not named `find` leave the values offered unchanged.
pub proof fn lemma_skip_unnamed(args: Seq<Seq<char>>, find: Seq<char>, j: int, i: int)
    requires
        0 <= j <= i <= args.len(),
        forall|k: int| j <= k < i ==> flag_name(#[trigger] args[k]) != find,
    ensures
        candidates_from(args, find, j) == candidates_from(args, find, i),
    decreases i - j,
{
    if j < i {
        lemma_skip_unnamed(args, find, j + 1, i);
    }
}

/// A flag that no token names offers no value, so looking it up finds
/// nothing whatever the predicate.
pub proof fn lemma_absent_flag(args: Seq<Seq<char>>, find: Seq<char>)
    requires
        forall|k: int| 0 <= k < args.len() ==> flag_name(#[trigger] args[k]) != find,
    ensures
        candidates(args, find).len() == 0,
{
    lemma_skip_unnamed(args, find, 0, args.len() as int);
}

/// Looks for flag `find_arg` in `args`, given as `--flag=value` or as
/// `--flag value`, and returns the first value that `pred` accepts.
pub fn arg_value<F: Fn(&str) -> bool>(args: &Vec<String>, find_arg: &str, pred: F) -> (r: Option<String>)
    requires
        forall|x: &str| #[trigger] pred.requires((x,)),
    ensures
        ({
            let c = candidates(args.deep_view(), find_arg@);
            match r {
                Some(v) => exists|k: int|
                    0 <= k < c.len() && c[k] == v@ && accepts(pred, v@)
                        && forall|j: int| 0 <= j < k ==> rejects(pred, #[trigger] c[j]),
                None => forall|j: int| 0 <= j < c.len() ==> rejects(pred, #[trigger] c[j]),
            }
        }),
{
    let ghost a = args.deep_view();
    let ghost find = find_arg@;
    let fc = chars_of(find_arg);
    let n: usize = args.len();
    let mut i: usize = 0;
    let ghost mut seen: Seq<Seq<char>> = Seq::empty();
    while i < n
        invariant
            n == a.len(),
            a == args.deep_view(),
            fc@ == find,
            find == find_arg@,
            0 <= i <= n,
            forall|x: &str| #[trigger] pred.requires((x,)),
            candidates(a, find) == seen + candidates_from(a, find, i as int),
            forall|j: int| 0 <= j < seen.len() ==> rejects(pred, #[trigger] seen[j]),
        decreases n - i,
    {
        let t = chars_of(args[i].as_str());
        assert(t@ == a[i as int]);
        let e = find_eq(&t);
        let named = e == fc.len() && matches_at(&t, &fc, 0);
        proof {
            if named {
                assert(flag_name(t@) =~= find);
            } else if flag_name(t@) == find {
                assert(flag_name(t@).len() == e);
                assert(t@.subrange(0, fc@.len() as int) =~= flag_name(t@));
                assert(occurs_at(t@, fc@, 0));
            }
        }
        if !named {
            i = i + 1;
        } else if e < t.len() {
            let vc = suffix(&t, e + 1);
            let v = string_of(vc.as_slice());
            let vs = v.as_str();
            let ok = pred(vs);
            if ok {
                proof {
                    let c = candidates(a, find);
                    assert(candidates_from(a, find, i as int)[0] == v@);
                    assert(c[seen.len() as int] == v@);
                    assert(accepts(pred, v@));
                    assert forall|j: int| 0 <= j < seen.len() implies rejects(pred, #[trigger] c[j]) by {
                        assert(c[j] == seen[j]);
                    }
                    let k = seen.len() as int;
                    assert(0 <= k < c.len() && c[k] == v@ && accepts(pred, v@)
                        && forall|j: int| 0 <= j < k ==> rejects(pred, #[trigger] c[j]));
                }
                return Some(v);
            }
            proof {
                assert(vs@ == v@);
                assert(rejects(pred, v@));
                assert(candidates(a, find) =~= seen.push(v@) + candidates_from(a, find, i + 1));
                seen = seen.push(v@);
            }
            i = i + 1;
        } else if i + 1 < n {
            let v = args[i + 1].clone();
            assert(v@ == a[i + 1]);
            let vs = v.as_str();
            let ok = pred(vs);
            if ok {
                proof {
                    let c = candidates(a, find);
                    assert(candidates_from(a, find, i as int)[0] == v@);
                    assert(c[seen.len() as int] == v@);
                    assert(accepts(pred, v@));
                    assert forall|j: int| 0 <= j < seen.len() implies rejects(pred, #[trigger] c[j]) by {
                        assert(c[j] == seen[j]);
                    }
                    let k = seen.len() as int;
                    assert(0 <= k < c.len() && c[k] == v@ && accepts(pred, v@)
                        && forall|j: int| 0 <= j < k ==> rejects(pred, #[trigger] c[j]));
                }
                return Some(v);
            }
            proof {
                assert(vs@ == v@);
                assert(rejects(pred, v@));
                assert(candidates(a, find) =~= seen.push(v@) + candidates_from(a, find, i + 2));
                seen = seen.push(v@);
            }
            i = i + 2;
        } else {
            proof {
                assert(candidates(a, find) =~= seen + candidates_from(a, find, n as int));
            }
            i = n;
        }
    }
    proof {
        assert(candidates(a, find) =~= seen);
    }
    None
}


/// The value of the first `--sysroot` flag, whatever it is.
pub fn sysroot_flag(args: &Vec<String>) -> (r: Option<String>)
    ensures
        ({
            let c = candidates(args.deep_view(), "--sysroot"@);
            if c.len() > 0 {
                r is Some && r->0@ == c[0]
            } else {
                r is None
            }
        }),
{
    let any = |_x: &str| -> (b: bool)
        ensures
            b,
        { true };
    let r = arg_value(args, "--sysroot", any);
    proof {
        let c = candidates(args.deep_view(), "--sysroot"@);
        if c.len() > 0 {
            assert(!rejects(any, c[0]));
        }
    }
    r
}

/// Whether the command line asks for the version: a token `--version` or `-V`.
pub fn wants_version(args: &Vec<String>) -> (r: bool)
    ensures
        r == exists|i: int|
            0 <= i < args@.len() && (#[trigger] args@[i]@ == "--version"@ || args@[i]@ == "-V"@),
{
    let long = String::from_str("--version");
    let short = String::from_str("-V");
    let mut i: usize = 0;
    while i < args.len()
        invariant
            0 <= i <= args@.len(),
            long@ == "--version"@,
            short@ == "-V"@,
            forall|k: int| 0 <= k < i ==> !(#[trigger] args@[k]@ == "--version"@ || args@[k]@ == "-V"@),
        decreases args@.len() - i,
    {
        if args[i] == long || args[i] == short {
            return true;
        }
        i = i + 1;
    }
    false
}

/// The name of the compiler's own executable, which a build wrapper puts
/// in front of the arguments it hands on.
pub open spec fn compiler_stem() -> Seq<char> {
    "rustc"@
}

/// What `Path::file_stem` gives for a path: its final component without
/// the last extension.
pub uninterp spec fn file_stem_of(path: Seq<char>) -> Option<Seq<char>>;

/// Relies on `std::path::Path::file_stem`: the stem of the path `p`.
#[verifier::external_body]
fn file_stem(p: &str) -> (r: Option<String>)
    ensures
        match r {
            Some(s) => file_stem_of(p@) == Some(s@),
            None => file_stem_of(p@) is None,
        },
{
    match std::path::Path::new(p).file_stem() {
        Some(s) => s.to_str().map(String::from),
        None => None,
    }
}

/// Why a command line cannot be handed to the compiler.
#[derive(Clone, Copy, Debug, PartialEq, Eq, Structural)]
pub enum ArgsError {
    /// Nothing follows the program name.
    TooFewArguments,
}

/// The command line for the compiler: the wrapper's token after the
/// program name dropped, and `--sysroot root` added where the caller gave
/// no sysroot flag.
pub open spec fn normalized_args(orig: Seq<Seq<char>>, explicit_sysroot: bool, root: Seq<char>) -> Seq<Seq<char>> {
    let a = if file_stem_of(orig[1]) == Some(compiler_stem()) {
        orig.remove(1)
    } else {
        orig
    };
    if explicit_sysroot {
        a
    } else {
        a + seq!["--sysroot"@, root]
    }
}

/// Rewrites the process's command line `orig` (program name first) into
/// the one handed to the compiler.
pub fn normalize_args(orig: &Vec<String>, explicit_sysroot: bool, sysroot: &String) -> (r: Result<Vec<String>, ArgsError>)
    ensures
        orig@.len() <= 1 ==> r == Err::<Vec<String>, ArgsError>(ArgsError::TooFewArguments),
        orig@.len() > 1 ==> r is Ok && r->Ok_0.deep_view() == normalized_args(orig.deep_view(), explicit_sysroot, sysroot@),
{
    if orig.len() <= 1 {
        return Err(ArgsError::TooFewArguments);
    }
    let rustc = String::from_str("rustc");
    let skip_wrapper = match file_stem(orig[1].as_str()) {
        Some(s) => s == rustc,
        None => false,
    };
    let ghost o = orig.deep_view();
    let ghost kept = if skip_wrapper { o.remove(1) } else { o };
    proof {
        assert(skip_wrapper == (file_stem_of(o[1]) == Some(compiler_stem())));
    }
    let mut out: Vec<String> = Vec::new();
    let mut i: usize = 0;
    while i < orig.len()
        invariant
            o == orig.deep_view(),
            o.len() > 1,
            0 <= i <= o.len(),
            kept == (if skip_wrapper { o.remove(1) } else { o }),
            out.deep_view() == (if skip_wrapper && i >= 2 {
                o.subrange(0, i as int).remove(1)
            } else if skip_wrapper && i == 1 {
                o.subrange(0, 1)
            } else {
                o.subrange(0, i as int)
            }),
        decreases o.len() - i,
    {
        if !(skip_wrapper && i == 1) {
            let a = orig[i].clone();
            out.push(a);
        }
        proof {
            if skip_wrapper && i >= 2 {
                assert(o.subrange(0, i + 1).remove(1) =~= o.subrange(0, i as int).remove(1).push(o[i as int]));
            } else if skip_wrapper && i == 1 {
                assert(o.subrange(0, 2).remove(1) =~= o.subrange(0, 1));
            } else {
                assert(o.subrange(0, i + 1) =~= o.subrange(0, i as int).push(o[i as int]));
            }
        }
        i = i + 1;
    }
    proof {
        assert(o.subrange(0, o.len() as int) =~= o);
    }
    if !explicit_sysroot {
        out.push(String::from_str("--sysroot"));
        out.push(sysroot.clone());
        proof {
            assert(out.deep_view() =~= kept + seq!["--sysroot"@, sysroot@]);
        }
    }
    Ok(out)
}

} // verus!
