//! The mailbox of a device: it stores the messages received from the
//! neighbours and collapses them, under a policy, into one message per
//! neighbour.

use crate::idmap::IdMap;
use crate::message::Message;
use crate::state::States;
use vstd::prelude::*;

verus! {

/// One message per neighbour, keyed by source id.
pub type Messages = IdMap<Message>;

/// The mailbox of a device.
pub trait Mailbox {
    /// Store a received message.
    fn enqueue(&mut self, msg: Message);

    /// One snapshot per neighbour present, under the mailbox's policy.
    fn messages(&mut self) -> Messages;
}

/// Conversion of a set of messages into the states handed to a round.
pub trait AsStates {
    /// The exports the messages carry, keyed by their source.
    fn as_states(&self) -> (r: States)
        ensures
            r@.dom() == self.states_dom(),
            forall|k: int| r@.contains_key(k) ==> #[trigger] r@[k]@ == self.state_at(k),
    ;

    /// The ids the states will hold.
    spec fn states_dom(&self) -> Set<int>;

    /// The export map the state of device `k` will hold.
    spec fn state_at(&self, k: int) -> Map<Seq<crate::slot::Slot>, crate::value::Val>;
}

impl AsStates for Messages {
    open spec fn states_dom(&self) -> Set<int> {
        self@.dom()
    }

    open spec fn state_at(&self, k: int) -> Map<Seq<crate::slot::Slot>, crate::value::Val> {
        self@[k].export@
    }

    /// The export of each stored message, under its source id.
    fn as_states(&self) -> (r: States)
        ensures
            r@.dom() == self@.dom(),
            forall|k: int| r@.contains_key(k) ==> #[trigger] r@[k]@ == self@[k].export@,
    {
        let mut states: States = IdMap::new();
        let keys = self.keys();
        let n = keys.len();
        let mut i: usize = 0;
        while i < n
            invariant
                0 <= i <= n,
                n == keys@.len(),
                forall|j: int| 0 <= j < n ==> self@.contains_key(#[trigger] keys@[j] as int),
                forall|j: int, l: int| 0 <= j < l < n ==> keys@[j] != keys@[l],
                states@.dom() =~= Set::new(
                    |k: int| exists|j: int| 0 <= j < i && #[trigger] keys@[j] as int == k,
                ),
                forall|k: int| states@.contains_key(k) ==> self@.contains_key(k)
                    && #[trigger] states@[k]@ == self@[k].export@,
            decreases n - i,
        {
            let id = keys[i];
            match self.get(id) {
                Some(msg) => {
                    let export = msg.export.clone();
                    states.insert(id, export);
                },
                None => (),
            }
            proof {
                assert(states@.dom() =~= Set::new(
                    |k: int| exists|j: int| 0 <= j < i + 1 && #[trigger] keys@[j] as int == k,
                ));
            }
            i += 1;
        }
        proof {
            assert forall|k: int| self@.contains_key(k) implies states@.contains_key(k) by {
                let j = choose|j: int| 0 <= j < n && #[trigger] keys@[j] as int == k;
                assert(keys@[j] as int == k);
            }
            assert(states@.dom() =~= self@.dom());
        }
        states
    }
}

} // verus!
