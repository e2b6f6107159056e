use vstd::prelude::*;

verus! {

/// The camp a squad or a soldier fights for. `All` stands for "no known
/// camp" (a squad whose camp was never recorded).
#[derive(Clone, Copy, Debug, PartialEq, Eq, Structural)]
pub enum Side {
    A,
    B,
    All,
}

/// Who currently holds a capture flag.
#[derive(Clone, Copy, Debug, PartialEq, Eq, Structural)]
pub enum FlagOwnership {
    Nobody,
    A,
    B,
    Both,
}

/// The name under which a camp is printed.
pub open spec fn side_text(side: Side) -> Seq<char> {
    match side {
        Side::A => "A"@,
        Side::B => "B"@,
        Side::All => "All"@,
    }
}

/// The printed name of a camp.
pub fn side_label(side: Side) -> (label: &'static str)
    ensures
        label@ == side_text(side),
{
    match side {
        Side::A => "A",
        Side::B => "B",
        Side::All => "All",
    }
}

} // verus!
