//! Choosing which of the linked crates is the old one and which the new.
use vstd::prelude::*;

verus! {

/// One crate linked into the probe module, as the compiler reports it.
#[derive(Clone, Copy, Debug, PartialEq, Eq, Structural)]
pub struct LinkRecord {
    /// The compiler's number for the crate.
    pub unit: u32,
    /// Whether the crate was named by an item of the probe module itself,
    /// rather than pulled in by another crate.
    pub direct: bool,
    /// Byte offset of that item in the probe module's source.
    pub offset: usize,
}

/// The two crates to compare.
#[derive(Clone, Copy, Debug, PartialEq, Eq, Structural)]
pub struct CratePair {
    pub old: u32,
    pub new: u32,
}

/// Why no pair could be chosen.
#[derive(Clone, Copy, Debug, PartialEq, Eq, Structural)]
pub enum DisambiguationError {
    /// The number of qualifying crates was not two.
    WrongCount(usize),
}

/// A record takes part in the choice when it was linked directly by a
/// declaration at a positive offset; offset zero marks an injected crate.
pub open spec fn qualifies(r: LinkRecord) -> bool {
    r.direct && r.offset > 0
}

/// The qualifying records, in discovery order.
pub open spec fn qualifying(s: Seq<LinkRecord>) -> Seq<LinkRecord>
    decreases s.len(),
{
    if s.len() == 0 {
        Seq::empty()
    } else {
        let rest = qualifying(s.drop_last());
        if qualifies(s.last()) {
            rest.push(s.last())
        } else {
            rest
        }
    }
}

/// The pair that a stable sort by offset gives for two records: the one
/// with the lower offset is old, and on equal offsets discovery order holds.
pub open spec fn pair_of(a: LinkRecord, b: LinkRecord) -> CratePair {
    if b.offset < a.offset {
        CratePair { old: b.unit, new: a.unit }
    } else {
        CratePair { old: a.unit, new: b.unit }
    }
}

/// The outcome of choosing from `links`.
pub open spec fn disambiguate_spec(links: Seq<LinkRecord>) -> Result<CratePair, DisambiguationError> {
    let q = qualifying(links);
    if q.len() == 2 {
        Ok(pair_of(q[0], q[1]))
    } else {
        Err(DisambiguationError::WrongCount(q.len() as usize))
    }
}

/// Chooses the old and the new crate among `links`: of the directly linked
/// crates declared at a positive offset there must be exactly two, and the
/// one declared first is the old one.
pub fn disambiguate(links: &Vec<LinkRecord>) -> (r: Result<CratePair, DisambiguationError>)
    ensures
        r == disambiguate_spec(links@),
{
    let mut found: Vec<LinkRecord> = Vec::new();
    let mut i: usize = 0;
    while i < links.len()
        invariant
            0 <= i <= links@.len(),
            found@ == qualifying(links@.subrange(0, i as int)),
            found@.len() <= i,
        decreases links@.len() - i,
    {
        let l = links[i];
        proof {
            let s = links@.subrange(0, i as int + 1);
            assert(s.drop_last() =~= links@.subrange(0, i as int));
        }
        if l.direct && l.offset > 0 {
            found.push(l);
        }
        i = i + 1;
    }
    proof {
        assert(links@.subrange(0, links@.len() as int) =~= links@);
    }
    if found.len() == 2 {
        let a = found[0];
        let b = found[1];
        if b.offset < a.offset {
            Ok(CratePair { old: b.unit, new: a.unit })
        } else {
            Ok(CratePair { old: a.unit, new: b.unit })
        }
    } else {
        Err(DisambiguationError::WrongCount(found.len()))
    }
}


/// Whichever order the two qualifying crates were found in, the one
/// declared at the lower offset is old and the other new.
pub proof fn lemma_disambiguate_order_stable(links: Seq<LinkRecord>, a: LinkRecord, b: LinkRecord)
    requires
        qualifying(links) == seq![a, b] || qualifying(links) == seq![b, a],
        a.offset < b.offset,
    ensures
        disambiguate_spec(links) == Ok::<CratePair, DisambiguationError>(CratePair { old: a.unit, new: b.unit }),
{
}

/// Unless exactly two crates qualify, no pair is chosen.
pub proof fn lemma_disambiguate_fails_closed(links: Seq<LinkRecord>)
    requires
        qualifying(links).len() != 2,
    ensures
        disambiguate_spec(links) is Err,
{
}

} // verus!
