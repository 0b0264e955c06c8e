use vstd::prelude::*;
use crate::ranked::Candidate;

verus! {

/// One resource the host already has open: its display name, the handle used
/// to switch to it, and whether it is the currently active one.
#[derive(Debug)]
pub struct TabEntry {
    pub name: String,
    pub position: u64,
    pub active: bool,
}

/// What failed.
#[derive(Debug, PartialEq, Eq, Structural)]
pub enum Error {
    /// The candidate source could not be read; interaction is suspended
    /// until the next reload attempt.
    SourceUnreadable,
    /// The selected candidate's identity yields no display name; a local
    /// failure of this one confirm action, list and cursor state are kept.
    UnnamedCandidate,
}

impl Error {
    /// A short description of the failure.
    pub fn message(&self) -> (r: &'static str)
        ensures
            *self is SourceUnreadable ==> r@ == "could not read the candidate source"@,
            *self is UnnamedCandidate ==> r@ == "encountered an unnamed candidate"@,
    {
        match self {
            Error::SourceUnreadable => "could not read the candidate source",
            Error::UnnamedCandidate => "encountered an unnamed candidate",
        }
    }
}

/// What a confirmed selection resolves to: attach to the open resource with
/// this handle, or create a new one from the template, under this name.
#[derive(Debug)]
pub enum Action {
    AttachExisting(u64),
    CreateNew(String),
}

/// The handle of the first known entry carrying the given name, if any.
/// Should names repeat, the first match wins, deterministically.
pub open spec fn lookup(tabs: Seq<TabEntry>, name: Seq<char>) -> Option<u64>
    decreases tabs.len(),
{
    if tabs.len() == 0 {
        None
    } else if tabs[0].name@ == name {
        Some(tabs[0].position)
    } else {
        lookup(tabs.drop_first(), name)
    }
}

/// Resolve the selected candidate at confirm time. A name known to the host
/// always attaches to the matching handle, never creates; an unknown name
/// creates, under exactly the derived display name; a candidate
/// without a derivable name is a local error.
#[verifier::loop_isolation(false)]
pub fn resolve_candidate(c: &Candidate, tabs: &Vec<TabEntry>) -> (r: Result<Action, Error>)
    ensures
        match c.name {
            None => r == Err::<Action, Error>(Error::UnnamedCandidate),
            Some(n) => match lookup(tabs@, n@) {
                Some(p) => r == Ok::<Action, Error>(Action::AttachExisting(p)),
                None => r == Ok::<Action, Error>(Action::CreateNew(n)),
            },
        },
{
    let name: &String = match &c.name {
        Some(n) => n,
        None => {
            return Err(Error::UnnamedCandidate);
        },
    };
    let mut i: usize = 0;
    proof {
        assert(tabs@.skip(0) =~= tabs@);
    }
    while i < tabs.len()
        invariant
            0 <= i <= tabs@.len(),
            lookup(tabs@, name@) == lookup(tabs@.skip(i as int), name@),
        decreases tabs@.len() - i,
    {
        proof {
            assert(tabs@.skip(i as int)[0] == tabs@[i as int]);
        }
        if tabs[i].name == *name {
            return Ok(Action::AttachExisting(tabs[i].position));
        }
        proof {
            assert(tabs@.skip(i as int).drop_first() =~= tabs@.skip(i as int + 1));
        }
        i = i + 1;
    }
    proof {
        assert(tabs@.skip(i as int) =~= Seq::<TabEntry>::empty());
    }
    Ok(Action::CreateNew(name.clone()))
}

} // verus!
