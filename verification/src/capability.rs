use vstd::prelude::*;
use crate::text::text_is;

verus! {

/// A derivable capability.
#[derive(Clone, Copy, Debug, PartialEq, Eq, Structural)]
pub enum Trait {
    Debug,
    PartialEq,
    Eq,
    PartialOrd,
    Ord,
    Hash,
    Default,
    Clone,
    Copy,
    Deref,
    DerefMut,
}

/// The capability that a name denotes, if any.
pub open spec fn trait_of_name(s: Seq<char>) -> Option<Trait> {
    if s == "Debug"@ {
        Some(Trait::Debug)
    } else if s == "PartialEq"@ {
        Some(Trait::PartialEq)
    } else if s == "Eq"@ {
        Some(Trait::Eq)
    } else if s == "PartialOrd"@ {
        Some(Trait::PartialOrd)
    } else if s == "Ord"@ {
        Some(Trait::Ord)
    } else if s == "Hash"@ {
        Some(Trait::Hash)
    } else if s == "Default"@ {
        Some(Trait::Default)
    } else if s == "Clone"@ {
        Some(Trait::Clone)
    } else if s == "Copy"@ {
        Some(Trait::Copy)
    } else if s == "Deref"@ {
        Some(Trait::Deref)
    } else if s == "DerefMut"@ {
        Some(Trait::DerefMut)
    } else {
        None
    }
}

impl Trait {
    /// Reads a capability from its name.
    pub fn from_str(s: &String) -> (r: Option<Trait>)
        ensures
            r == trait_of_name(s@),
    {
        if text_is(s, "Debug") {
            Some(Trait::Debug)
        } else if text_is(s, "PartialEq") {
            Some(Trait::PartialEq)
        } else if text_is(s, "Eq") {
            Some(Trait::Eq)
        } else if text_is(s, "PartialOrd") {
            Some(Trait::PartialOrd)
        } else if text_is(s, "Ord") {
            Some(Trait::Ord)
        } else if text_is(s, "Hash") {
            Some(Trait::Hash)
        } else if text_is(s, "Default") {
            Some(Trait::Default)
        } else if text_is(s, "Clone") {
            Some(Trait::Clone)
        } else if text_is(s, "Copy") {
            Some(Trait::Copy)
        } else if text_is(s, "Deref") {
            Some(Trait::Deref)
        } else if text_is(s, "DerefMut") {
            Some(Trait::DerefMut)
        } else {
            None
        }
    }
}

/// Whether the capability list `traits` holds `t`.
pub fn enables(traits: &[Trait], t: Trait) -> (r: bool)
    ensures
        r == traits@.contains(t),
{
    let mut i: usize = 0;
    while i < traits.len()
        invariant
            i <= traits.len(),
            forall|j: int| 0 <= j < i ==> traits@[j] != t,
        decreases traits.len() - i,
    {
        if traits[i] == t {
            return true;
        }
        i += 1;
    }
    false
}

} // verus!
