//! A `Slot` tags one construct site of an aggregate program. Each variant
//! carries the index that distinguishes sibling sites of the same construct
//! kind at one nesting level.

use crate::text::dec_str;
use crate::text::i32_to_string;
use vstd::prelude::*;

verus! {

/// One construct site of the language.
///
/// * `Nbr(i)` - observation of an expression across neighbours.
/// * `Rep(i)` - iterative update using the value of the previous round.
/// * `FoldHood(i)` - aggregation of an expression over the neighbourhood.
/// * `Branch(i)` - partition of the domain into two non-interacting subspaces.
/// * `Exchange(i)` - neighbour-to-neighbour propagation of partial accumulates.
#[derive(Debug, Clone, Copy, PartialEq, Eq, Hash, Structural)]
pub enum Slot {
    Nbr(i32),
    Rep(i32),
    FoldHood(i32),
    Branch(i32),
    Exchange(i32),
}

/// The canonical rendering of a slot: the construct kind, then the sibling
/// index in parentheses.
pub open spec fn slot_str_spec(s: Slot) -> Seq<char> {
    match s {
        Slot::Nbr(i) => "Nbr("@ + dec_str(i as int) + ")"@,
        Slot::Rep(i) => "Rep("@ + dec_str(i as int) + ")"@,
        Slot::FoldHood(i) => "FoldHood("@ + dec_str(i as int) + ")"@,
        Slot::Branch(i) => "Branch("@ + dec_str(i as int) + ")"@,
        Slot::Exchange(i) => "Exchange("@ + dec_str(i as int) + ")"@,
    }
}

impl Slot {
    /// The index carried by the slot.
    pub open spec fn index(self) -> i32 {
        match self {
            Slot::Nbr(i) => i,
            Slot::Rep(i) => i,
            Slot::FoldHood(i) => i,
            Slot::Branch(i) => i,
            Slot::Exchange(i) => i,
        }
    }

    /// The canonical string form of the slot, `Kind(index)`.
    pub fn to_str(&self) -> (r: String)
        ensures
            r@ == slot_str_spec(*self),
    {
        proof {
            reveal_strlit("Nbr(");
            reveal_strlit("Rep(");
            reveal_strlit("FoldHood(");
            reveal_strlit("Branch(");
            reveal_strlit("Exchange(");
            reveal_strlit(")");
        }
        let r = match self {
            Slot::Nbr(i) => "Nbr(".to_owned().concat(i32_to_string(*i).as_str()).concat(")"),
            Slot::Rep(i) => "Rep(".to_owned().concat(i32_to_string(*i).as_str()).concat(")"),
            Slot::FoldHood(i) => "FoldHood(".to_owned().concat(i32_to_string(*i).as_str()).concat(
                ")",
            ),
            Slot::Branch(i) => "Branch(".to_owned().concat(i32_to_string(*i).as_str()).concat(")"),
            Slot::Exchange(i) => "Exchange(".to_owned().concat(i32_to_string(*i).as_str()).concat(
                ")",
            ),
        };
        proof {
            assert(r@ =~= slot_str_spec(*self));
        }
        r
    }
}

} // verus!
