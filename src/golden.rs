//! Normalisation of captured compiler output before it is compared with
//! checked-in expected output.
use vstd::prelude::*;
use crate::text::{chars_of, matches_at, occurs_at, replace_all, replace_text, string_of};

verus! {

/// No character occurs in both `a` and `b`.
pub open spec fn disjoint_chars(a: Seq<char>, b: Seq<char>) -> bool {
    forall|i: int, j: int| 0 <= i < a.len() && 0 <= j < b.len() ==> a[i] != b[j]
}

/// Replaces every occurrence of the working directory `root` in `contents`
/// with `placeholder`.
pub fn normalize_output(contents: &str, root: &str, placeholder: &str) -> (r: String)
    ensures
        r@ == replace_all(contents@, root@, placeholder@),
{
    replace_text(contents, root, placeholder)
}

/// Where a prefix of the replaced text holds no character of `to`, the
/// replacement did not touch that prefix.
proof fn lemma_untouched_prefix(t: Seq<char>, from: Seq<char>, to: Seq<char>, k: int)
    requires
        from.len() > 0,
        to.len() > 0,
        0 <= k <= replace_all(t, from, to).len(),
        forall|i: int, j: int| 0 <= i < k && 0 <= j < to.len() ==> replace_all(t, from, to)[i] != to[j],
    ensures
        k <= t.len(),
        replace_all(t, from, to).subrange(0, k) == t.subrange(0, k),
    decreases t.len(),
{
    let r = replace_all(t, from, to);
    if k == 0 {
        assert(r.subrange(0, 0) =~= t.subrange(0, 0));
    } else if t.len() == 0 {
    } else if occurs_at(t, from, 0) {
        assert(r[0] == to[0]);
    } else {
        let rest = t.subrange(1, t.len() as int);
        let rr = replace_all(rest, from, to);
        assert(r == seq![t[0]] + rr);
        assert forall|i: int, j: int| 0 <= i < k - 1 && 0 <= j < to.len() implies rr[i] != to[j] by {
            assert(r[i + 1] == rr[i]);
        }
        lemma_untouched_prefix(rest, from, to, k - 1);
        assert(r.subrange(0, k) =~= seq![t[0]] + rr.subrange(0, k - 1));
        assert(t.subrange(0, k) =~= seq![t[0]] + rest.subrange(0, k - 1));
    }
}

/// With `from` and `to` non-empty and sharing no character, the replaced
/// text holds no occurrence of `from`.
proof fn lemma_no_occurrence_left(s: Seq<char>, from: Seq<char>, to: Seq<char>)
    requires
        from.len() > 0,
        to.len() > 0,
        disjoint_chars(from, to),
    ensures
        forall|p: int| !occurs_at(replace_all(s, from, to), from, p),
    decreases s.len(),
{
    let r = replace_all(s, from, to);
    let m = from.len() as int;
    if s.len() == 0 {
    } else if occurs_at(s, from, 0) {
        let rest = s.subrange(m, s.len() as int);
        let rr = replace_all(rest, from, to);
        lemma_no_occurrence_left(rest, from, to);
        assert forall|p: int| !occurs_at(r, from, p) by {
            if occurs_at(r, from, p) {
                if p < to.len() {
                    assert(r.subrange(p, p + m)[0] == from[0]);
                    assert(r[p] == to[p]);
                } else {
                    assert(r.subrange(p, p + m) =~= rr.subrange(p - to.len(), p - to.len() + m));
                    assert(occurs_at(rr, from, p - to.len()));
                }
            }
        }
    } else {
        let rest = s.subrange(1, s.len() as int);
        let rr = replace_all(rest, from, to);
        lemma_no_occurrence_left(rest, from, to);
        assert(r == seq![s[0]] + rr);
        assert forall|p: int| !occurs_at(r, from, p) by {
            if occurs_at(r, from, p) {
                if p == 0 {
                    assert forall|i: int, j: int| 0 <= i < m - 1 && 0 <= j < to.len()
                        implies rr[i] != to[j] by {
                        assert(r.subrange(0, m)[i + 1] == from[i + 1]);
                        assert(r[i + 1] == rr[i]);
                    }
                    lemma_untouched_prefix(rest, from, to, m - 1);
                    assert(s.subrange(0, m) =~= r.subrange(0, m)) by {
                        assert forall|i: int| 0 <= i < m implies s.subrange(0, m)[i] == r.subrange(0, m)[i] by {
                            if i > 0 {
                                assert(rr.subrange(0, m - 1)[i - 1] == rest.subrange(0, m - 1)[i - 1]);
                            }
                        }
                    }
                } else {
                    assert(r.subrange(p, p + m) =~= rr.subrange(p - 1, p - 1 + m));
                    assert(occurs_at(rr, from, p - 1));
                }
            }
        }
    }
}

/// Text that holds no occurrence of `from` is left as it is.
proof fn lemma_replace_without_occurrence(t: Seq<char>, from: Seq<char>, to: Seq<char>)
    requires
        from.len() > 0,
        forall|p: int| !occurs_at(t, from, p),
    ensures
        replace_all(t, from, to) == t,
    decreases t.len(),
{
    if t.len() > 0 {
        let rest = t.subrange(1, t.len() as int);
        assert forall|p: int| !occurs_at(rest, from, p) by {
            if occurs_at(rest, from, p) {
                assert(t.subrange(p + 1, p + 1 + from.len()) =~= rest.subrange(p, p + from.len()));
                assert(occurs_at(t, from, p + 1));
            }
        }
        lemma_replace_without_occurrence(rest, from, to);
        assert(seq![t[0]] + rest =~= t);
    }
}

/// Normalising output twice gives what normalising it once gave, for a
/// non-empty root and a non-empty placeholder that share no character.
pub proof fn lemma_normalize_idempotent(contents: Seq<char>, root: Seq<char>, placeholder: Seq<char>)
    requires
        root.len() > 0,
        placeholder.len() > 0,
        disjoint_chars(root, placeholder),
    ensures
        replace_all(replace_all(contents, root, placeholder), root, placeholder)
            == replace_all(contents, root, placeholder),
{
    lemma_no_occurrence_left(contents, root, placeholder);
    lemma_replace_without_occurrence(replace_all(contents, root, placeholder), root, placeholder);
}


/// The first position at or after `i` where `pat` occurs in `s`, or -1.
pub open spec fn first_occurrence(s: Seq<char>, pat: Seq<char>, i: int) -> int
    decreases s.len() + 1 - i,
{
    if i < 0 || i > s.len() {
        -1
    } else if occurs_at(s, pat, i) {
        i
    } else {
        first_occurrence(s, pat, i + 1)
    }
}

/// The last position in `lo..=j` where `pat` occurs in `s`, or -1.
pub open spec fn last_occurrence(s: Seq<char>, pat: Seq<char>, lo: int, j: int) -> int
    decreases j - lo + 1,
{
    if j < lo || lo < 0 {
        -1
    } else if occurs_at(s, pat, j) {
        j
    } else {
        last_occurrence(s, pat, lo, j - 1)
    }
}

/// A diagnostic's path reference, from its first `-->` to the last
/// occurrence of the crate's name after it, shortened to `--> name`; a
/// line without such a span is kept.
pub open spec fn sanitize_line(line: Seq<char>, name: Seq<char>) -> Seq<char> {
    let p = first_occurrence(line, "-->"@, 0);
    let q = if p >= 0 { last_occurrence(line, name, p + 3, line.len() as int) } else { -1 };
    if p >= 0 && q >= 0 {
        line.subrange(0, p) + "--> "@ + name + line.subrange(q + name.len(), line.len() as int)
    } else {
        line
    }
}

/// Whether a line opens the report: it begins with `version bump`.
pub open spec fn opens_report(line: Seq<char>) -> bool {
    occurs_at(line, "version bump"@, 0)
}

/// The lines kept from `i` on, printing being on already where `on` holds:
/// it turns on at the first line that opens the report and stays on.
pub open spec fn kept_lines(lines: Seq<Seq<char>>, name: Seq<char>, i: int, on: bool) -> Seq<Seq<char>>
    decreases lines.len() - i,
{
    if i < 0 || i >= lines.len() {
        Seq::empty()
    } else {
        let now = on || opens_report(lines[i]);
        if now {
            seq![sanitize_line(lines[i], name)] + kept_lines(lines, name, i + 1, now)
        } else {
            kept_lines(lines, name, i + 1, now)
        }
    }
}

fn first_occurrence_exec(s: &Vec<char>, pat: &Vec<char>) -> (r: Option<usize>)
    ensures
        match r {
            Some(p) => p == first_occurrence(s@, pat@, 0),
            None => first_occurrence(s@, pat@, 0) == -1,
        },
{
    let mut i: usize = 0;
    while i <= s.len()
        invariant
            0 <= i <= s@.len() + 1,
            first_occurrence(s@, pat@, 0) == first_occurrence(s@, pat@, i as int),
        decreases s@.len() + 1 - i,
    {
        if matches_at(s, pat, i) {
            return Some(i);
        }
        if i == s.len() {
            assert(first_occurrence(s@, pat@, i as int + 1) == -1);
            return None;
        }
        i = i + 1;
    }
    None
}

fn last_occurrence_exec(s: &Vec<char>, pat: &Vec<char>, lo: usize) -> (r: Option<usize>)
    ensures
        match r {
            Some(q) => q == last_occurrence(s@, pat@, lo as int, s@.len() as int),
            None => last_occurrence(s@, pat@, lo as int, s@.len() as int) == -1,
        },
{
    let mut j: usize = s.len();
    if lo > j {
        return None;
    }
    while j > lo
        invariant
            lo <= j <= s@.len(),
            last_occurrence(s@, pat@, lo as int, s@.len() as int) == last_occurrence(s@, pat@, lo as int, j as int),
        decreases j,
    {
        if matches_at(s, pat, j) {
            return Some(j);
        }
        j = j - 1;
    }
    if matches_at(s, pat, lo) {
        Some(lo)
    } else {
        assert(last_occurrence(s@, pat@, lo as int, lo - 1) == -1);
        None
    }
}

/// Shortens the path reference of one diagnostic line to `--> name`.
pub fn sanitize_path_line(line: &str, name: &str) -> (r: String)
    ensures
        r@ == sanitize_line(line@, name@),
{
    let lc = chars_of(line);
    let nc = chars_of(name);
    let arrow = chars_of("-->");
    let n: usize = lc.len();
    proof {
        reveal_strlit("-->");
    }
    proof {
        lemma_first_occurrence_bound(lc@, arrow@, 0);
    }
    let p: usize = match first_occurrence_exec(&lc, &arrow) {
        Some(p) => p,
        None => {
            return string_of(lc.as_slice());
        },
    };
    proof {
        assert(arrow@.len() == 3);
        assert(occurs_at(lc@, arrow@, p as int));
        lemma_last_occurrence_bound(lc@, nc@, p + 3, lc@.len() as int);
    }
    let q: usize = match last_occurrence_exec(&lc, &nc, p + 3) {
        Some(q) => q,
        None => {
            return string_of(lc.as_slice());
        },
    };
    let mut out: Vec<char> = Vec::new();
    let mut k: usize = 0;
    while k < p
        invariant
            0 <= k <= p <= lc@.len(),
            out@ == lc@.subrange(0, k as int),
        decreases p - k,
    {
        out.push(lc[k]);
        proof {
            assert(lc@.subrange(0, k + 1) =~= lc@.subrange(0, k as int).push(lc@[k as int]));
        }
        k = k + 1;
    }
    let tail = chars_of("--> ");
    let ghost head = out@;
    let mut t: usize = 0;
    while t < tail.len()
        invariant
            0 <= t <= tail@.len(),
            out@ == head + tail@.subrange(0, t as int),
        decreases tail@.len() - t,
    {
        out.push(tail[t]);
        proof {
            assert(tail@.subrange(0, t + 1) =~= tail@.subrange(0, t as int).push(tail@[t as int]));
        }
        t = t + 1;
    }
    let ghost mid = out@;
    let mut u: usize = 0;
    while u < nc.len()
        invariant
            0 <= u <= nc@.len(),
            out@ == mid + nc@.subrange(0, u as int),
        decreases nc@.len() - u,
    {
        out.push(nc[u]);
        proof {
            assert(nc@.subrange(0, u + 1) =~= nc@.subrange(0, u as int).push(nc@[u as int]));
        }
        u = u + 1;
    }
    let ghost front = out@;
    let start: usize = q + nc.len();
    let mut w: usize = start;
    while w < lc.len()
        invariant
            start <= w <= lc@.len(),
            out@ == front + lc@.subrange(start as int, w as int),
        decreases lc@.len() - w,
    {
        out.push(lc[w]);
        proof {
            assert(lc@.subrange(start as int, w + 1) =~= lc@.subrange(start as int, w as int).push(lc@[w as int]));
        }
        w = w + 1;
    }
    proof {
        assert(tail@.subrange(0, tail@.len() as int) =~= tail@);
        assert(nc@.subrange(0, nc@.len() as int) =~= nc@);
        assert(out@ =~= sanitize_line(lc@, nc@));
    }
    string_of(out.as_slice())
}

/// The report part of a full run's captured lines: nothing before the
/// first line that opens the report unless `debug` is set, and each kept
/// line with its path reference shortened to the crate's name.
pub fn filter_full_output(lines: &Vec<String>, crate_name: &str, debug: bool) -> (r: Vec<String>)
    ensures
        r.deep_view() == kept_lines(lines.deep_view(), crate_name@, 0, debug),
{
    let ghost ls = lines.deep_view();
    let marker = chars_of("version bump");
    let mut out: Vec<String> = Vec::new();
    let mut on = debug;
    let mut i: usize = 0;
    while i < lines.len()
        invariant
            ls == lines.deep_view(),
            marker@ == "version bump"@,
            0 <= i <= ls.len(),
            kept_lines(ls, crate_name@, 0, debug) == out.deep_view() + kept_lines(ls, crate_name@, i as int, on),
        decreases ls.len() - i,
    {
        let ghost was = on;
        let lc = chars_of(lines[i].as_str());
        if matches_at(&lc, &marker, 0) {
            on = true;
        }
        assert(on == (was || opens_report(ls[i as int])));
        if on {
            let l = sanitize_path_line(lines[i].as_str(), crate_name);
            proof {
                assert(out.deep_view().push(l@) + kept_lines(ls, crate_name@, i + 1, on)
                    =~= out.deep_view() + kept_lines(ls, crate_name@, i as int, was));
            }
            out.push(l);
        }
        i = i + 1;
    }
    proof {
        assert(out.deep_view() + kept_lines(ls, crate_name@, i as int, on) =~= out.deep_view());
    }
    out
}

/// A line that mentions the placeholder with its backslashes turned into
/// forward slashes; other lines unchanged.
pub open spec fn separators_normalized(line: Seq<char>, placeholder: Seq<char>) -> Seq<char> {
    if first_occurrence(line, placeholder, 0) >= 0 {
        replace_all(line, "\\"@, "/"@)
    } else {
        line
    }
}

/// On platforms whose paths use backslashes: turns them into forward
/// slashes in each line that mentions the placeholder.
pub fn normalize_separators(lines: &Vec<String>, placeholder: &str) -> (r: Vec<String>)
    ensures
        r@.len() == lines@.len(),
        forall|i: int| 0 <= i < r@.len() ==> #[trigger] r@[i]@ == separators_normalized(lines@[i]@, placeholder@),
{
    let pc = chars_of(placeholder);
    let mut out: Vec<String> = Vec::new();
    let mut i: usize = 0;
    while i < lines.len()
        invariant
            0 <= i <= lines@.len(),
            pc@ == placeholder@,
            out@.len() == i,
            forall|k: int| 0 <= k < i ==> #[trigger] out@[k]@ == separators_normalized(lines@[k]@, placeholder@),
        decreases lines@.len() - i,
    {
        let lc = chars_of(lines[i].as_str());
        let l = match first_occurrence_exec(&lc, &pc) {
            Some(_) => {
                proof {
                    lemma_first_occurrence_bound(lc@, pc@, 0);
                }
                replace_text(lines[i].as_str(), "\\", "/")
            },
            None => lines[i].clone(),
        };
        out.push(l);
        i = i + 1;
    }
    out
}

proof fn lemma_first_occurrence_bound(s: Seq<char>, pat: Seq<char>, i: int)
    ensures
        first_occurrence(s, pat, i) == -1 || (i <= first_occurrence(s, pat, i)
            && occurs_at(s, pat, first_occurrence(s, pat, i))),
    decreases s.len() + 1 - i,
{
    if 0 <= i <= s.len() && !occurs_at(s, pat, i) {
        lemma_first_occurrence_bound(s, pat, i + 1);
    }
}

proof fn lemma_last_occurrence_bound(s: Seq<char>, pat: Seq<char>, lo: int, j: int)
    ensures
        last_occurrence(s, pat, lo, j) == -1 || (lo <= last_occurrence(s, pat, lo, j) <= j
            && occurs_at(s, pat, last_occurrence(s, pat, lo, j))),
    decreases j - lo + 1,
{
    if j >= lo && lo >= 0 && !occurs_at(s, pat, j) {
        lemma_last_occurrence_bound(s, pat, lo, j - 1);
    }
}

} // verus!
