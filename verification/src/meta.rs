use vstd::prelude::*;

verus! {

/// A literal inside attribute metadata.
#[derive(Debug)]
pub enum Lit {
    /// A string literal, given by its value.
    Str(String),
    /// An unsigned integer literal.
    Int(u64),
    /// Any other literal.
    Other,
}

/// An element of a metadata list.
#[derive(Debug)]
pub enum NestedMeta {
    Meta(Meta),
    Literal(Lit),
}

/// A metadata node: a bare word, a named list, or a name with a value.
#[derive(Debug)]
pub enum Meta {
    Word(String),
    List(String, Vec<NestedMeta>),
    NameValue(String, Lit),
}

impl Meta {
    /// The name that the node carries, whatever its shape.
    pub open spec fn name_text(self) -> Seq<char> {
        match self {
            Meta::Word(n) => n@,
            Meta::List(n, _) => n@,
            Meta::NameValue(n, _) => n@,
        }
    }

    pub fn name(&self) -> (n: &String)
        ensures
            n@ == self.name_text(),
    {
        match self {
            Meta::Word(n) => n,
            Meta::List(n, _) => n,
            Meta::NameValue(n, _) => n,
        }
    }
}

/// The rank that an integer literal denotes: the literal itself, capped at the
/// largest rank.
pub open spec fn rank_of_literal(i: u64) -> int {
    if i > isize::MAX {
        isize::MAX as int
    } else {
        i as int
    }
}

pub fn rank_from_literal(i: u64) -> (r: isize)
    ensures
        r == rank_of_literal(i),
{
    if i > isize::MAX as u64 {
        isize::MAX
    } else {
        i as isize
    }
}

/// Whether the sub-option `m` carries a value: a bare word, a value, or a
/// list that is not empty.
pub open spec fn gives_value(m: Meta) -> bool {
    match m {
        Meta::Word(_) => true,
        Meta::List(_, items) => items@.len() > 0,
        Meta::NameValue(_, _) => true,
    }
}

} // verus!
