//! Character-level helpers on strings.
use vstd::prelude::*;

verus! {

/// Relies on `str::chars` collected into a `Vec`: the characters of `s`, in order.
#[verifier::external_body]
pub(crate) fn chars_of(s: &str) -> (r: Vec<char>)
    ensures
        r@ == s@,
{
    s.chars().collect()
}

/// Relies on `String`'s `FromIterator<char>`: the string of the given characters.
#[verifier::external_body]
pub(crate) fn string_of(c: &[char]) -> (r: String)
    ensures
        r@ == c@,
{
    c.iter().collect()
}

/// Whether `s[i..]` begins with `p`.
pub open spec fn occurs_at(s: Seq<char>, p: Seq<char>, i: int) -> bool {
    0 <= i && i + p.len() <= s.len() && s.subrange(i, i + p.len()) == p
}

/// Whether the characters at `i` in `s` equal those of `p`.
pub(crate) fn matches_at(s: &Vec<char>, p: &Vec<char>, i: usize) -> (r: bool)
    ensures
        r == occurs_at(s@, p@, i as int),
{
    if i > s.len() || p.len() > s.len() - i {
        return false;
    }
    let n: usize = s.len();
    let mut j: usize = 0;
    while j < p.len()
        invariant
            n == s@.len(),
            i + p@.len() <= s@.len(),
            0 <= j <= p@.len(),
            forall|k: int| 0 <= k < j ==> s@[i + k] == p@[k],
        decreases p@.len() - j,
    {
        if s[i + j] != p[j] {
            proof {
                assert(s@.subrange(i as int, i + p@.len())[j as int] != p@[j as int]);
            }
            return false;
        }
        j = j + 1;
    }
    assert(s@.subrange(i as int, i + p@.len()) =~= p@);
    true
}

/// Every non-overlapping occurrence of a non-empty `from` in `s`, taken
/// from the left, replaced by `to`.
pub open spec fn replace_all(s: Seq<char>, from: Seq<char>, to: Seq<char>) -> Seq<char>
    decreases s.len(),
{
    if s.len() == 0 || from.len() == 0 {
        s
    } else if occurs_at(s, from, 0) {
        to + replace_all(s.subrange(from.len() as int, s.len() as int), from, to)
    } else {
        seq![s[0]] + replace_all(s.subrange(1, s.len() as int), from, to)
    }
}


/// Every non-overlapping occurrence of `from` in `s`, taken from the left,
/// replaced by `to`; an empty `from` leaves `s` as it is.
pub fn replace_text(s: &str, from: &str, to: &str) -> (r: String)
    ensures
        r@ == replace_all(s@, from@, to@),
{
    let sc = chars_of(s);
    let fc = chars_of(from);
    let tc = chars_of(to);
    let n: usize = sc.len();
    let mut out: Vec<char> = Vec::new();
    if fc.len() == 0 {
        return string_of(sc.as_slice());
    }
    let mut i: usize = 0;
    proof {
        assert(sc@.subrange(0, n as int) =~= sc@);
        assert(out@ + replace_all(sc@, fc@, tc@) =~= replace_all(sc@, fc@, tc@));
    }
    while i < n
        invariant
            n == sc@.len(),
            fc@.len() > 0,
            0 <= i <= n,
            replace_all(sc@, fc@, tc@) == out@ + replace_all(sc@.subrange(i as int, n as int), fc@, tc@),
        decreases n - i,
    {
        let ghost rest = sc@.subrange(i as int, n as int);
        if matches_at(&sc, &fc, i) {
            proof {
                assert(rest.subrange(0, fc@.len() as int) =~= sc@.subrange(i as int, i + fc@.len()));
                assert(rest.subrange(fc@.len() as int, rest.len() as int)
                    =~= sc@.subrange(i + fc@.len(), n as int));
                assert(out@ + (tc@ + replace_all(sc@.subrange(i + fc@.len(), n as int), fc@, tc@))
                    =~= out@ + tc@ + replace_all(sc@.subrange(i + fc@.len(), n as int), fc@, tc@));
            }
            let mut k: usize = 0;
            let ghost before = out@;
            while k < tc.len()
                invariant
                    0 <= k <= tc@.len(),
                    out@ == before + tc@.subrange(0, k as int),
                decreases tc@.len() - k,
            {
                out.push(tc[k]);
                proof {
                    assert(tc@.subrange(0, k as int + 1) =~= tc@.subrange(0, k as int).push(tc@[k as int]));
                }
                k = k + 1;
            }
            proof {
                assert(tc@.subrange(0, tc@.len() as int) =~= tc@);
            }
            i = i + fc.len();
        } else {
            proof {
                if rest.len() >= fc@.len() {
                    assert(rest.subrange(0, fc@.len() as int) =~= sc@.subrange(i as int, i + fc@.len()));
                }
                assert(rest.subrange(1, rest.len() as int) =~= sc@.subrange(i + 1, n as int));
                assert(out@ + (seq![sc@[i as int]] + replace_all(sc@.subrange(i + 1, n as int), fc@, tc@))
                    =~= out@.push(sc@[i as int]) + replace_all(sc@.subrange(i + 1, n as int), fc@, tc@));
            }
            out.push(sc[i]);
            i = i + 1;
        }
    }
    proof {
        assert(out@ + replace_all(sc@.subrange(n as int, n as int), fc@, tc@) =~= out@);
    }
    string_of(out.as_slice())
}

} // verus!
