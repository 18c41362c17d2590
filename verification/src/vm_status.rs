//! The mutable cursor of a round: the current alignment path, the sibling
//! index at the current level, the neighbour being folded over, and a stack
//! of saved cursors. Every `push` balances with a `pop` along every exit of
//! an operator, so a round returns the cursor to where it started.

use crate::path::Path;
use crate::slot::Slot;
use vstd::prelude::*;

verus! {

/// One saved cursor: path, sibling index, folding neighbour.
pub type Frame = (Seq<Slot>, i32, Option<i32>);

/// The status of the round virtual machine.
#[derive(Debug)]
pub struct VMStatus {
    path: Path,
    index: i32,
    neighbour: Option<i32>,
    stack: Vec<(Path, i32, Option<i32>)>,
}

impl VMStatus {
    /// The current alignment path.
    pub closed spec fn spec_path(&self) -> Seq<Slot> {
        self.path@
    }

    /// The sibling index at the current level.
    pub closed spec fn spec_index(&self) -> i32 {
        self.index
    }

    /// The neighbour being folded over, if any.
    pub closed spec fn spec_neighbour(&self) -> Option<i32> {
        self.neighbour
    }

    /// The saved cursors, oldest first.
    pub closed spec fn spec_stack(&self) -> Seq<Frame> {
        self.stack@.map_values(|e: (Path, i32, Option<i32>)| (e.0@, e.1, e.2))
    }

    /// Whether the status is the initial one: root path, index zero, no
    /// neighbour, empty stack.
    pub open spec fn is_initial(&self) -> bool {
        self.spec_path() == Seq::<Slot>::empty() && self.spec_index() == 0
            && self.spec_neighbour() is None && self.spec_stack() == Seq::<Frame>::empty()
    }

    /// The initial status.
    pub fn new() -> (r: Self)
        ensures
            r.is_initial(),
    {
        let r = VMStatus { path: Path::new(), index: 0, neighbour: None, stack: Vec::new() };
        proof {
            assert(r.spec_stack() =~= Seq::<Frame>::empty());
        }
        r
    }

    /// The current path.
    pub fn path(&self) -> (r: &Path)
        ensures
            r@ == self.spec_path(),
    {
        &self.path
    }

    /// The current sibling index.
    pub fn index(&self) -> (r: i32)
        ensures
            r == self.spec_index(),
    {
        self.index
    }

    /// The neighbour being folded over, if any.
    pub fn neighbour(&self) -> (r: Option<i32>)
        ensures
            r == self.spec_neighbour(),
    {
        self.neighbour
    }

    /// The saved cursors.
    pub fn stack(&self) -> (r: &Vec<(Path, i32, Option<i32>)>)
        ensures
            r@.map_values(|e: (Path, i32, Option<i32>)| (e.0@, e.1, e.2)) == self.spec_stack(),
    {
        &self.stack
    }

    /// Whether the machine is folding over a neighbour.
    pub fn is_folding(&self) -> (r: bool)
        ensures
            r == (self.spec_neighbour() is Some),
    {
        self.neighbour.is_some()
    }

    /// Bind the folding neighbour.
    pub fn fold_into(&mut self, neighbour: Option<i32>)
        ensures
            final(self).spec_neighbour() == neighbour,
            final(self).spec_path() == old(self).spec_path(),
            final(self).spec_index() == old(self).spec_index(),
            final(self).spec_stack() == old(self).spec_stack(),
    {
        self.neighbour = neighbour;
    }

    /// Clear the folding neighbour.
    pub fn fold_out(&mut self)
        ensures
            final(self).spec_neighbour() is None,
            final(self).spec_path() == old(self).spec_path(),
            final(self).spec_index() == old(self).spec_index(),
            final(self).spec_stack() == old(self).spec_stack(),
    {
        self.neighbour = None;
    }

    /// Save the current cursor on the stack.
    pub fn push(&mut self)
        ensures
            final(self).spec_stack() == old(self).spec_stack().push(
                (old(self).spec_path(), old(self).spec_index(), old(self).spec_neighbour()),
            ),
            final(self).spec_path() == old(self).spec_path(),
            final(self).spec_index() == old(self).spec_index(),
            final(self).spec_neighbour() == old(self).spec_neighbour(),
    {
        let saved = (self.path.clone(), self.index, self.neighbour);
        self.stack.push(saved);
        proof {
            assert(self.spec_stack() =~= old(self).spec_stack().push(
                (old(self).spec_path(), old(self).spec_index(), old(self).spec_neighbour()),
            ));
        }
    }

    /// Restore the cursor saved last. The stack must not be empty: an
    /// underflow is a programming error in an operator.
    pub fn pop(&mut self)
        requires
            old(self).spec_stack().len() > 0,
        ensures
            final(self).spec_path() == old(self).spec_stack().last().0,
            final(self).spec_index() == old(self).spec_stack().last().1,
            final(self).spec_neighbour() == old(self).spec_stack().last().2,
            final(self).spec_stack() == old(self).spec_stack().drop_last(),
    {
        if let Some((p, i, n)) = self.stack.pop() {
            self.path = p;
            self.index = i;
            self.neighbour = n;
        }
        proof {
            assert(self.spec_stack() =~= old(self).spec_stack().drop_last());
        }
    }

    /// Enter a child frame: push the slot onto the path, reset the sibling
    /// index.
    pub fn nest(&mut self, slot: Slot)
        ensures
            final(self).spec_path() == old(self).spec_path().push(slot),
            final(self).spec_index() == 0,
            final(self).spec_neighbour() == old(self).spec_neighbour(),
            final(self).spec_stack() == old(self).spec_stack(),
    {
        self.path.push(slot);
        self.index = 0;
    }

    /// Advance to the next sibling site.
    pub fn inc_index(&mut self)
        requires
            old(self).spec_index() < i32::MAX,
        ensures
            final(self).spec_index() == old(self).spec_index() + 1,
            final(self).spec_path() == old(self).spec_path(),
            final(self).spec_neighbour() == old(self).spec_neighbour(),
            final(self).spec_stack() == old(self).spec_stack(),
    {
        self.index = self.index + 1;
    }
}

impl Clone for VMStatus {
    /// A clone is the same cursor.
    fn clone(&self) -> (res: Self)
        ensures
            res.spec_path() == self.spec_path(),
            res.spec_index() == self.spec_index(),
            res.spec_neighbour() == self.spec_neighbour(),
            res.spec_stack() == self.spec_stack(),
    {
        let n = self.stack.len();
        let mut stack: Vec<(Path, i32, Option<i32>)> = Vec::new();
        let mut i: usize = 0;
        while i < n
            invariant
                0 <= i <= n,
                n == self.stack@.len(),
                stack@.len() == i,
                forall|j: int|
                    0 <= j < i ==> (#[trigger] stack@[j]).0@ == self.stack@[j].0@ && stack@[j].1
                        == self.stack@[j].1 && stack@[j].2 == self.stack@[j].2,
            decreases n - i,
        {
            let p = self.stack[i].0.clone();
            let saved = (p, self.stack[i].1, self.stack[i].2);
            stack.push(saved);
            proof {
                assert(stack@[i as int].0@ == self.stack@[i as int].0@);
                assert(stack@[i as int].1 == self.stack@[i as int].1);
                assert(stack@[i as int].2 == self.stack@[i as int].2);
            }
            i += 1;
        }
        let res = VMStatus {
            path: self.path.clone(),
            index: self.index,
            neighbour: self.neighbour,
            stack,
        };
        proof {
            assert(res.spec_stack() =~= self.spec_stack());
        }
        res
    }
}

impl From<Path> for VMStatus {
    /// A fresh cursor standing at the given path.
    fn from(path: Path) -> (r: Self)
        ensures
            r.spec_path() == path@,
            r.spec_index() == 0,
            r.spec_neighbour() is None,
            r.spec_stack() == Seq::<Frame>::empty(),
    {
        let r = VMStatus { path, index: 0, neighbour: None, stack: Vec::new() };
        proof {
            assert(r.spec_stack() =~= Seq::<Frame>::empty());
        }
        r
    }
}

impl vstd::std_specs::convert::FromSpecImpl<Path> for VMStatus {
    open spec fn obeys_from_spec() -> bool {
        false
    }

    open spec fn from_spec(path: Path) -> Self {
        arbitrary()
    }
}

} // verus!
