//! A `Path` names a syntactic point of the program as traversed so far: the
//! ordered sequence of slots entered, behaving as an immutable stack whose
//! head is the most recently entered slot. Two devices align at a construct
//! exactly when they reach it through equal paths; the empty path is the
//! root.

use crate::slot::slot_str_spec;
use crate::slot::Slot;
use vstd::prelude::*;

verus! {

/// An alignment key: the stack of slots entered so far. The view is the
/// sequence of slots, the head being the last element.
#[derive(Debug)]
pub struct Path {
    slots: Vec<Slot>,
}

impl View for Path {
    type V = Seq<Slot>;

    closed spec fn view(&self) -> Seq<Slot> {
        self.slots@
    }
}

/// The rendering of the slots of a path, head first, separated by `/`.
pub open spec fn path_body_spec(s: Seq<Slot>) -> Seq<char>
    decreases s.len(),
{
    if s.len() == 0 {
        Seq::empty()
    } else if s.len() == 1 {
        slot_str_spec(s[0])
    } else {
        path_body_spec(s.subrange(1, s.len() as int)) + "/"@ + slot_str_spec(s[0])
    }
}

/// The canonical rendering of a path: `P://`, then its slots head first.
pub open spec fn path_str_spec(s: Seq<Slot>) -> Seq<char> {
    "P://"@ + path_body_spec(s)
}

impl Path {
    /// The empty path: the root.
    pub fn new() -> (r: Self)
        ensures
            r@ == Seq::<Slot>::empty(),
    {
        Path { slots: Vec::new() }
    }

    /// Push a slot: it becomes the new head.
    pub fn push(&mut self, slot: Slot)
        ensures
            final(self)@ == old(self)@.push(slot),
    {
        self.slots.push(slot);
    }

    /// Remove and return the head slot; `None` on the root.
    pub fn pull(&mut self) -> (r: Option<Slot>)
        ensures
            old(self)@.len() == 0 ==> r is None && final(self)@ == old(self)@,
            old(self)@.len() > 0 ==> r == Some(old(self)@.last()) && final(self)@ == old(
                self,
            )@.drop_last(),
    {
        self.slots.pop()
    }

    /// Whether the path is the root.
    pub fn is_root(&self) -> (r: bool)
        ensures
            r == (self@.len() == 0),
    {
        self.slots.len() == 0
    }

    /// Whether the path equals another, slot for slot.
    pub fn matches(&self, p: &Path) -> (r: bool)
        ensures
            r == (self@ == p@),
    {
        if self.slots.len() != p.slots.len() {
            proof {
                assert(self@ != p@);
            }
            return false;
        }
        let n = self.slots.len();
        let mut i: usize = 0;
        while i < n
            invariant
                0 <= i <= n,
                n == self@.len() == p@.len(),
                forall|j: int| 0 <= j < i ==> self@[j] == p@[j],
            decreases n - i,
        {
            if self.slots[i] != p.slots[i] {
                return false;
            }
            i += 1;
        }
        proof {
            assert(self@ =~= p@);
        }
        true
    }

    /// The head slot, if the path is not the root.
    pub fn head(&self) -> (r: Option<Slot>)
        ensures
            self@.len() == 0 ==> r is None,
            self@.len() > 0 ==> r == Some(self@.last()),
    {
        if self.slots.len() == 0 {
            None
        } else {
            Some(self.slots[self.slots.len() - 1])
        }
    }

    /// The canonical string form of the path.
    pub fn to_str(&self) -> (r: String)
        ensures
            r@ == path_str_spec(self@),
    {
        proof {
            reveal_strlit("P://");
            reveal_strlit("/");
        }
        let mut out = "P://".to_owned();
        let n = self.slots.len();
        let mut i: usize = n;
        while i > 0
            invariant
                0 <= i <= n,
                n == self@.len(),
                out@ == "P://"@ + path_body_spec(self@.subrange(i as int, n as int)),
            decreases i,
        {
            proof {
                reveal_strlit("/");
            }
            if i < n {
                out = out.concat("/");
            }
            out = out.concat(self.slots[i - 1].to_str().as_str());
            proof {
                let s = self@;
                let sub = s.subrange(i - 1, n as int);
                assert(sub[0] == s[i - 1]);
                if i < n {
                    assert(sub.subrange(1, sub.len() as int) =~= s.subrange(i as int, n as int));
                    assert(out@ =~= "P://"@ + path_body_spec(sub));
                } else {
                    assert(sub.len() == 1);
                    assert(out@ =~= "P://"@ + path_body_spec(sub));
                }
            }
            i -= 1;
        }
        proof {
            assert(self@.subrange(0, n as int) =~= self@);
        }
        out
    }
}

impl Clone for Path {
    /// A clone carries the same slots.
    fn clone(&self) -> (res: Self)
        ensures
            res@ == self@,
    {
        let res = Path { slots: self.slots.clone() };
        proof {
            assert(res@ =~= self@);
        }
        res
    }
}

impl From<Vec<Slot>> for Path {
    /// A path whose head is the last slot of the vector.
    fn from(slots: Vec<Slot>) -> (r: Self)
        ensures
            r@ == slots@,
    {
        Path { slots }
    }
}

impl vstd::std_specs::convert::FromSpecImpl<Vec<Slot>> for Path {
    open spec fn obeys_from_spec() -> bool {
        true
    }

    closed spec fn from_spec(slots: Vec<Slot>) -> Self {
        Path { slots }
    }
}

} // verus!
