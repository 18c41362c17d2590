//! The round virtual machine: the execution substrate of one round. It owns
//! the read-only context, the mutable cursor, a stack of exports whose first
//! element is the current one, and the isolation flag. The aggregate
//! operators drive it through `nest`, `locally`, `folded_eval` and
//! `isolate`.

use crate::context::read_export_spec;
use crate::context::Context;
use crate::export::get_spec;
use crate::export::Export;
use crate::export::QueryError;
use crate::path::Path;
use crate::sensor_id::SensorId;
use crate::slot::Slot;
use crate::value::Val;
use crate::value::ValKind;
use crate::vm_status::Frame;
use crate::vm_status::VMStatus;
use vstd::prelude::*;

verus! {

/// The machine on which one round of an aggregate program runs.
#[derive(Debug)]
pub struct RoundVM {
    context: Context,
    status: VMStatus,
    export_stack: Vec<Export>,
    isolated: bool,
}

impl RoundVM {
    /// The context of the round.
    pub closed spec fn ctx(&self) -> Context {
        self.context
    }

    /// Whether the machine is isolated from its neighbourhood.
    pub closed spec fn iso(&self) -> bool {
        self.isolated
    }

    /// The current alignment path.
    pub closed spec fn path_v(&self) -> Seq<Slot> {
        self.status.spec_path()
    }

    /// The sibling index at the current level.
    pub closed spec fn idx(&self) -> i32 {
        self.status.spec_index()
    }

    /// The neighbour being folded over, if any.
    pub closed spec fn nbr_v(&self) -> Option<i32> {
        self.status.spec_neighbour()
    }

    /// The saved cursors.
    pub closed spec fn stack_v(&self) -> Seq<Frame> {
        self.status.spec_stack()
    }

    /// The stack of exports; the first is the current one.
    pub closed spec fn exps(&self) -> Seq<Export> {
        self.export_stack@
    }

    /// Whether the machine holds a current export.
    pub open spec fn wf(&self) -> bool {
        self.exps().len() >= 1
    }

    /// The map of the current export.
    pub open spec fn export_map(&self) -> Map<Seq<Slot>, Val>
        recommends
            self.wf(),
    {
        self.exps()[0]@
    }

    /// The device's own id.
    pub open spec fn sid(&self) -> i32 {
        self.ctx().spec_self_id()
    }

    /// Whether the machine is folding over a neighbour other than the
    /// device itself.
    pub open spec fn folding_on_other(&self) -> bool {
        match self.nbr_v() {
            Some(n) => n != self.sid(),
            None => false,
        }
    }
}

/// What every aggregate operator preserves of the machine: the context, the
/// isolation flag, the cursor (path, neighbour, saved stack), the shape of
/// the export stack and everything below its top; the sibling index never
/// decreases, and the current export only gains paths.
pub open spec fn op_frame(pre: RoundVM, post: RoundVM) -> bool {
    &&& post.ctx() == pre.ctx()
    &&& post.iso() == pre.iso()
    &&& post.path_v() == pre.path_v()
    &&& post.nbr_v() == pre.nbr_v()
    &&& post.stack_v() == pre.stack_v()
    &&& post.idx() >= pre.idx()
    &&& post.exps().len() == pre.exps().len()
    &&& forall|i: int| 1 <= i < pre.exps().len() ==> post.exps()[i] == pre.exps()[i]
    &&& pre.wf() ==> pre.export_map().dom().subset_of(post.export_map().dom())
    &&& pre.wf() ==> forall|k: Seq<Slot>|
        #[trigger] post.export_map().contains_key(k) && !pre.export_map().contains_key(k)
            ==> pre.path_v().is_prefix_of(k) && k.len() > pre.path_v().len()
    &&& pre.wf() ==> forall|k: Seq<Slot>|
        #[trigger] pre.export_map().contains_key(k) && !(pre.path_v().is_prefix_of(k) && k.len()
            > pre.path_v().len()) ==> post.export_map()[k] == pre.export_map()[k]
}

/// The sibling index after one operator site: advanced by one, up to the
/// largest index the machine can hold.
pub open spec fn sat_inc(i: i32) -> i32 {
    if i < i32::MAX {
        (i + 1) as i32
    } else {
        i
    }
}

/// Whether `f` can take any well-formed machine carrying the context `c`.
pub open spec fn callable<A, F: Fn(RoundVM) -> (RoundVM, A)>(f: F, c: Context) -> bool {
    forall|v: RoundVM| v.wf() && v.ctx() == c ==> #[trigger] call_requires(f, (v,))
}

/// Whether every outcome of `f` preserves the operator frame.
pub open spec fn frame_res<A, F: Fn(RoundVM) -> (RoundVM, A)>(f: F) -> bool {
    forall|v: RoundVM, out: (RoundVM, A)| #[trigger] call_ensures(f, (v,), out) ==> op_frame(
        v,
        out.0,
    )
}

/// The machine handed to the body of `nest`: the slot entered, the sibling
/// index reset, the cursor saved; everything else as in `base`.
pub open spec fn nest_entry(v: RoundVM, base: RoundVM, slot: Slot) -> bool {
    &&& v.ctx() == base.ctx()
    &&& v.iso() == base.iso()
    &&& v.path_v() == base.path_v().push(slot)
    &&& v.idx() == 0
    &&& v.nbr_v() == base.nbr_v()
    &&& v.stack_v() == base.stack_v().push((base.path_v(), base.idx(), base.nbr_v()))
    &&& v.exps() == base.exps()
}

/// The machine handed to the body of `locally`: the folding neighbour
/// cleared; everything else as in `base`.
pub open spec fn local_entry(v: RoundVM, base: RoundVM) -> bool {
    &&& v.ctx() == base.ctx()
    &&& v.iso() == base.iso()
    &&& v.path_v() == base.path_v()
    &&& v.idx() == base.idx()
    &&& v.nbr_v() is None
    &&& v.stack_v() == base.stack_v()
    &&& v.exps() == base.exps()
}

/// The machine handed to the body of `folded_eval`: folding over `id`, the
/// cursor saved; everything else as in `base`.
pub open spec fn folded_entry(v: RoundVM, base: RoundVM, id: i32) -> bool {
    &&& v.ctx() == base.ctx()
    &&& v.iso() == base.iso()
    &&& v.path_v() == base.path_v()
    &&& v.idx() == base.idx()
    &&& v.nbr_v() == Some(id)
    &&& v.stack_v() == base.stack_v().push((base.path_v(), base.idx(), base.nbr_v()))
    &&& v.exps() == base.exps()
}

/// The machine handed to the body of `isolate`: isolated; everything else
/// as in `base`.
pub open spec fn iso_entry(v: RoundVM, base: RoundVM) -> bool {
    &&& v.ctx() == base.ctx()
    &&& v.iso() == true
    &&& v.path_v() == base.path_v()
    &&& v.idx() == base.idx()
    &&& v.nbr_v() == base.nbr_v()
    &&& v.stack_v() == base.stack_v()
    &&& v.exps() == base.exps()
}

/// `v` is `m` with the folding neighbour set to `n`; everything else as in
/// `m`.
pub open spec fn with_neighbour(v: RoundVM, m: RoundVM, n: Option<i32>) -> bool {
    &&& v.ctx() == m.ctx()
    &&& v.iso() == m.iso()
    &&& v.path_v() == m.path_v()
    &&& v.idx() == m.idx()
    &&& v.nbr_v() == n
    &&& v.stack_v() == m.stack_v()
    &&& v.exps() == m.exps()
}

/// `v` is `m` with the isolation flag set to `b`; everything else as in `m`.
pub open spec fn with_isolated(v: RoundVM, m: RoundVM, b: bool) -> bool {
    &&& v.ctx() == m.ctx()
    &&& v.iso() == b
    &&& v.path_v() == m.path_v()
    &&& v.idx() == m.idx()
    &&& v.nbr_v() == m.nbr_v()
    &&& v.stack_v() == m.stack_v()
    &&& v.exps() == m.exps()
}

/// The ids aligned with this device among `keys`, in order: the ids of other
/// devices whose export has an entry readable in domain `kind` at `path`;
/// at the root every other device is aligned.
pub open spec fn aligned_others(
    ex: Map<int, Export>,
    keys: Seq<i32>,
    sid: i32,
    path: Seq<Slot>,
    kind: ValKind,
) -> Seq<i32>
    decreases keys.len(),
{
    if keys.len() == 0 {
        Seq::empty()
    } else {
        let id = keys.last();
        let rest = aligned_others(ex, keys.drop_last(), sid, path, kind);
        if id != sid && (path.len() == 0 || (ex.contains_key(id as int) && get_spec(
            ex[id as int]@,
            path,
            kind,
        ) is Ok)) {
            rest + seq![id]
        } else {
            rest
        }
    }
}

/// The aligned neighbours at `path` under context `ctx`: none while
/// isolated; otherwise the device itself, then the aligned ids among the
/// context's exports in their held order.
pub open spec fn aligned_spec(ctx: Context, iso: bool, path: Seq<Slot>, kind: ValKind) -> Seq<
    i32,
> {
    if iso {
        Seq::empty()
    } else {
        seq![ctx.spec_self_id()] + aligned_others(
            ctx.spec_exports()@,
            ctx.spec_exports().key_seq(),
            ctx.spec_self_id(),
            path,
            kind,
        )
    }
}

/// Two-argument closures over the machine: whether `f` can take any
/// well-formed machine carrying the context `c`, with any value.
pub open spec fn callable2<A, F: Fn(RoundVM, Val) -> (RoundVM, A)>(f: F, c: Context) -> bool {
    forall|v: RoundVM, a: Val| v.wf() && v.ctx() == c ==> #[trigger] call_requires(f, (v, a))
}

/// Whether every outcome of the two-argument `f` preserves the operator
/// frame.
pub open spec fn frame_res2<A, F: Fn(RoundVM, Val) -> (RoundVM, A)>(f: F) -> bool {
    forall|v: RoundVM, a: Val, out: (RoundVM, A)| #[trigger] call_ensures(f, (v, a), out)
        ==> op_frame(v, out.0)
}

/// The operator frame composes.
pub proof fn lemma_op_frame_trans(a: RoundVM, b: RoundVM, c: RoundVM)
    requires
        op_frame(a, b),
        op_frame(b, c),
    ensures
        op_frame(a, c),
{
    if a.wf() {
        assert forall|k: Seq<Slot>|
            #[trigger] c.export_map().contains_key(k) && !a.export_map().contains_key(
                k,
            ) implies a.path_v().is_prefix_of(k) && k.len() > a.path_v().len() by {
            if b.export_map().contains_key(k) {
            } else {
                assert(b.path_v() == a.path_v());
            }
        }
    }
}

impl RoundVM {
    /// A machine over the given context, with the initial cursor, no export
    /// and no isolation. Call `new_export_stack` before running a program
    /// on it.
    pub fn new(context: Context) -> (r: Self)
        ensures
            r.ctx() == context,
            r.path_v() == Seq::<Slot>::empty(),
            r.idx() == 0,
            r.nbr_v() is None,
            r.stack_v() == Seq::<Frame>::empty(),
            r.exps() == Seq::<Export>::empty(),
            !r.iso(),
    {
        RoundVM { context, status: VMStatus::new(), export_stack: Vec::new(), isolated: false }
    }

    /// Push a fresh, empty export onto the export stack.
    pub fn new_export_stack(&mut self)
        ensures
            final(self).exps().len() == old(self).exps().len() + 1,
            forall|i: int| 0 <= i < old(self).exps().len() ==> final(self).exps()[i] == old(
                self,
            ).exps()[i],
            final(self).exps().last()@ == Map::<Seq<Slot>, Val>::empty(),
            final(self).ctx() == old(self).ctx(),
            final(self).iso() == old(self).iso(),
            final(self).path_v() == old(self).path_v(),
            final(self).idx() == old(self).idx(),
            final(self).nbr_v() == old(self).nbr_v(),
            final(self).stack_v() == old(self).stack_v(),
    {
        self.export_stack.push(Export::new());
    }

    /// The current export, first of the stack, for reading or writing.
    pub fn export_data(&mut self) -> (r: &mut Export)
        requires
            old(self).wf(),
        ensures
            r@ == old(self).export_map(),
            final(self).exps() == old(self).exps().update(0, *final(r)),
            final(self).ctx() == old(self).ctx(),
            final(self).iso() == old(self).iso(),
            final(self).path_v() == old(self).path_v(),
            final(self).idx() == old(self).idx(),
            final(self).nbr_v() == old(self).nbr_v(),
            final(self).stack_v() == old(self).stack_v(),
    {
        &mut self.export_stack[0]
    }

    /// The device's own id.
    pub fn self_id(&self) -> (r: i32)
        ensures
            r == self.sid(),
    {
        self.context.self_id()
    }

    /// The cursor of the machine.
    pub fn status(&self) -> (r: &VMStatus)
        ensures
            r.spec_path() == self.path_v(),
            r.spec_index() == self.idx(),
            r.spec_neighbour() == self.nbr_v(),
            r.spec_stack() == self.stack_v(),
    {
        &self.status
    }

    /// The cursor of the machine, for a host that sets it up directly.
    pub fn status_mut(&mut self) -> (r: &mut VMStatus)
        ensures
            r.spec_path() == old(self).path_v(),
            r.spec_index() == old(self).idx(),
            r.spec_neighbour() == old(self).nbr_v(),
            r.spec_stack() == old(self).stack_v(),
            final(self).path_v() == final(r).spec_path(),
            final(self).idx() == final(r).spec_index(),
            final(self).nbr_v() == final(r).spec_neighbour(),
            final(self).stack_v() == final(r).spec_stack(),
            final(self).ctx() == old(self).ctx(),
            final(self).iso() == old(self).iso(),
            final(self).exps() == old(self).exps(),
    {
        &mut self.status
    }

    /// A copy of the current export, first of the stack.
    pub fn current_export(&self) -> (r: Export)
        requires
            self.wf(),
        ensures
            r@ == self.export_map(),
    {
        self.export_stack[0].clone()
    }

    /// The context of the round.
    pub fn context(&self) -> (r: &Context)
        ensures
            *r == self.ctx(),
    {
        &self.context
    }

    /// The neighbour the machine is folding over, if any.
    pub fn neighbor(&self) -> (r: Option<i32>)
        ensures
            r == self.nbr_v(),
    {
        self.status.neighbour()
    }

    /// The sibling index at the current level.
    pub fn index(&self) -> (r: i32)
        ensures
            r == self.idx(),
    {
        self.status.index()
    }

    /// The value at the current path, read in domain `kind`, from the
    /// current export.
    fn get_current(&self, kind: ValKind) -> (r: Result<Val, QueryError>)
        requires
            self.wf(),
        ensures
            r == get_spec(self.export_map(), self.path_v(), kind),
    {
        self.export_stack[0].get(self.status.path(), kind)
    }

    /// Record `v` at the current path of the current export.
    fn put_current(&mut self, v: Val)
        requires
            old(self).wf(),
        ensures
            final(self).export_map() == old(self).export_map().insert(old(self).path_v(), v),
            final(self).exps().len() == old(self).exps().len(),
            forall|i: int| 1 <= i < old(self).exps().len() ==> final(self).exps()[i] == old(
                self,
            ).exps()[i],
            final(self).ctx() == old(self).ctx(),
            final(self).iso() == old(self).iso(),
            final(self).path_v() == old(self).path_v(),
            final(self).idx() == old(self).idx(),
            final(self).nbr_v() == old(self).nbr_v(),
            final(self).stack_v() == old(self).stack_v(),
    {
        let path = self.status.path().clone();
        let mut e = self.export_stack.remove(0);
        e.put(path, v);
        self.export_stack.insert(0, e);
        proof {
            assert(final(self).exps() =~= old(self).exps().update(
                0,
                final(self).exps()[0],
            ));
        }
    }

    /// Record `v` at the root path of the current export.
    pub fn register_root(&mut self, v: Val)
        requires
            old(self).wf(),
        ensures
            final(self).export_map() == old(self).export_map().insert(Seq::empty(), v),
            final(self).exps().len() == old(self).exps().len(),
            forall|i: int| 1 <= i < old(self).exps().len() ==> final(self).exps()[i] == old(
                self,
            ).exps()[i],
            final(self).ctx() == old(self).ctx(),
            final(self).iso() == old(self).iso(),
            final(self).path_v() == old(self).path_v(),
            final(self).idx() == old(self).idx(),
            final(self).nbr_v() == old(self).nbr_v(),
            final(self).stack_v() == old(self).stack_v(),
    {
        let mut e = self.export_stack.remove(0);
        e.put(Path::new(), v);
        self.export_stack.insert(0, e);
        proof {
            assert(final(self).exps() =~= old(self).exps().update(
                0,
                final(self).exps()[0],
            ));
        }
    }

    /// The value of the previous round for this device at the current path.
    pub fn previous_round_val(&self, kind: ValKind) -> (r: Result<Val, QueryError>)
        ensures
            r == read_export_spec(
                self.ctx().spec_exports()@,
                self.sid() as int,
                self.path_v(),
                kind,
            ),
    {
        self.context.read_export_value(self.context.self_id(), self.status.path(), kind)
    }

    /// The value of the current folding neighbour at the current path.
    pub fn neighbor_val(&self, kind: ValKind) -> (r: Result<Val, QueryError>)
        ensures
            r == match self.nbr_v() {
                Some(n) => read_export_spec(
                    self.ctx().spec_exports()@,
                    n as int,
                    self.path_v(),
                    kind,
                ),
                None => Err(QueryError::NotFolding),
            },
    {
        match self.status.neighbour() {
            Some(n) => self.context.read_export_value(n, self.status.path(), kind),
            None => Err(QueryError::NotFolding),
        }
    }

    /// The local value of the given sensor.
    pub fn local_sense(&self, sensor_id: &SensorId) -> (r: Option<&Val>)
        ensures
            match r {
                Some(v) => self.ctx().spec_local()@.contains_key(sensor_id@) && *v
                    == self.ctx().spec_local()@[sensor_id@],
                None => !self.ctx().spec_local()@.contains_key(sensor_id@),
            },
    {
        self.context.local_sense(sensor_id)
    }

    /// The value of the given sensor for the current folding neighbour.
    pub fn nbr_sense(&self, sensor_id: &SensorId) -> (r: Option<&Val>)
        ensures
            self.nbr_v() is None ==> r is None,
            match r {
                Some(v) => self.nbr_v() is Some && self.ctx().spec_nbr()@.contains_key(sensor_id@)
                    && self.ctx().spec_nbr()@[sensor_id@]@.contains_key(
                    self.nbr_v()->Some_0 as int,
                ) && *v == self.ctx().spec_nbr()@[sensor_id@]@[self.nbr_v()->Some_0 as int],
                None => true,
            },
    {
        match self.status.neighbour() {
            Some(id) => self.context.nbr_sense(sensor_id, id),
            None => None,
        }
    }

    /// Whether the machine is not folding, or folding over the device
    /// itself. Operator sites record their value exactly when this holds.
    pub fn unless_folding_on_others(&self) -> (r: bool)
        ensures
            r == !self.folding_on_other(),
    {
        match self.status.neighbour() {
            Some(neighbor) => neighbor == self.context.self_id(),
            None => true,
        }
    }

    /// Whether the machine is folding over the device itself.
    pub fn only_when_folding_on_self(&self) -> (r: bool)
        ensures
            r == (self.nbr_v() == Some(self.sid())),
    {
        match self.status.neighbour() {
            Some(neighbor) => neighbor == self.context.self_id(),
            None => false,
        }
    }

    /// The ids of the devices aligned with this one at the current path:
    /// the device itself first, then every other device whose export holds
    /// an entry readable in domain `kind` at the current path (every other
    /// device, at the root). None while isolated.
    pub fn aligned_neighbours(&self, kind: ValKind) -> (r: Vec<i32>)
        ensures
            r@ == aligned_spec(self.ctx(), self.iso(), self.path_v(), kind),
            self.iso() ==> r@.len() == 0,
    {
        let mut r: Vec<i32> = Vec::new();
        if self.isolated {
            proof {
                assert(r@ =~= aligned_spec(self.ctx(), self.iso(), self.path_v(), kind));
            }
            return r;
        }
        let sid = self.context.self_id();
        r.push(sid);
        let keys = self.context.exports().keys();
        let n = keys.len();
        let at_root = self.status.path().is_root();
        let mut i: usize = 0;
        while i < n
            invariant
                0 <= i <= n,
                n == keys@.len(),
                keys@ == self.ctx().spec_exports().key_seq(),
                forall|j: int| 0 <= j < n ==> self.ctx().spec_exports()@.contains_key(
                    #[trigger] keys@[j] as int,
                ),
                sid == self.sid(),
                at_root == (self.path_v().len() == 0),
                !self.iso(),
                r@ == seq![self.sid()] + aligned_others(
                    self.ctx().spec_exports()@,
                    keys@.subrange(0, i as int),
                    self.sid(),
                    self.path_v(),
                    kind,
                ),
            decreases n - i,
        {
            let id = keys[i];
            let mut take = false;
            if id != sid {
                if at_root {
                    take = true;
                } else {
                    match self.context.exports().get(id) {
                        Some(export) => {
                            take = export.get(self.status.path(), kind).is_ok();
                        },
                        None => {
                            take = false;
                        },
                    }
                }
            }
            if take {
                r.push(id);
            }
            proof {
                assert(keys@.subrange(0, i + 1 as int).drop_last() =~= keys@.subrange(
                    0,
                    i as int,
                ));
                assert(keys@.subrange(0, i + 1 as int).last() == keys@[i as int]);
                if take {
                    assert(r@ =~= (seq![self.sid()] + aligned_others(
                        self.ctx().spec_exports()@,
                        keys@.subrange(0, i as int),
                        self.sid(),
                        self.path_v(),
                        kind,
                    )).push(id));
                }
            }
            i += 1;
        }
        proof {
            assert(keys@.subrange(0, n as int) =~= keys@);
        }
        r
    }

    /// Evaluate `expr` with the folding neighbour cleared, restoring it
    /// after: the body makes no reads of a neighbour's export.
    pub fn locally<A, F: Fn(RoundVM) -> (RoundVM, A)>(self, expr: F) -> (r: (RoundVM, A))
        requires
            forall|v: RoundVM| local_entry(v, self) ==> #[trigger] call_requires(expr, (v,)),
        ensures
            exists|v: RoundVM, m: RoundVM, a: A|
                local_entry(v, self) && #[trigger] call_ensures(expr, (v,), (m, a)) && r.1 == a
                    && with_neighbour(r.0, m, self.nbr_v()),
    {
        let ghost base = self;
        let mut vm = self;
        let current_neighbour = vm.status.neighbour();
        vm.status.fold_out();
        proof {
            assert(local_entry(vm, base));
        }
        let ghost ve = vm;
        let (mut vm_, result) = expr(vm);
        let ghost m = vm_;
        vm_.status.fold_into(current_neighbour);
        proof {
            assert(local_entry(ve, base) && call_ensures(expr, (ve,), (m, result))
                && with_neighbour(vm_, m, base.nbr_v()));
        }
        (vm_, result)
    }

    /// Evaluate `expr` folding over neighbour `id`, saving the cursor before
    /// and restoring it verbatim after.
    pub fn folded_eval<A, F: Fn(RoundVM) -> (RoundVM, A)>(self, expr: F, id: i32) -> (r: (
        RoundVM,
        Option<A>,
    ))
        requires
            forall|v: RoundVM| folded_entry(v, self, id) ==> #[trigger] call_requires(expr, (v,)),
            forall|v: RoundVM, out: (RoundVM, A)| #[trigger] call_ensures(expr, (v,), out)
                ==> out.0.stack_v() == v.stack_v(),
        ensures
            exists|v: RoundVM, m: RoundVM, a: A|
                folded_entry(v, self, id) && #[trigger] call_ensures(expr, (v,), (m, a)) && r.1
                    == Some(a) && r.0.ctx() == m.ctx() && r.0.iso() == m.iso() && r.0.exps()
                    == m.exps() && r.0.path_v() == self.path_v() && r.0.idx() == self.idx()
                    && r.0.nbr_v() == self.nbr_v() && r.0.stack_v() == self.stack_v(),
    {
        let ghost base = self;
        let mut vm = self;
        vm.status.push();
        vm.status.fold_into(Some(id));
        proof {
            assert(folded_entry(vm, base, id));
        }
        let (mut vm_, result) = expr(vm);
        let ghost m = vm_;
        vm_.status.pop();
        (vm_, Some(result))
    }

    /// Evaluate `expr` with the machine isolated: while the body runs,
    /// `aligned_neighbours` is empty. The flag is restored after.
    pub fn isolate<A, F: Fn(RoundVM) -> (RoundVM, A)>(self, expr: F) -> (r: (RoundVM, A))
        requires
            forall|v: RoundVM| iso_entry(v, self) ==> #[trigger] call_requires(expr, (v,)),
        ensures
            exists|v: RoundVM, m: RoundVM, a: A|
                iso_entry(v, self) && #[trigger] call_ensures(expr, (v,), (m, a)) && r.1 == a
                    && with_isolated(r.0, m, self.iso()),
    {
        let ghost base = self;
        let mut vm = self;
        let was_isolated = vm.isolated;
        vm.isolated = true;
        proof {
            assert(iso_entry(vm, base));
        }
        let ghost ve = vm;
        let (mut vm_, result) = expr(vm);
        let ghost m = vm_;
        vm_.isolated = was_isolated;
        proof {
            assert(iso_entry(ve, base) && call_ensures(expr, (ve,), (m, result)) && with_isolated(
                vm_,
                m,
                base.iso(),
            ));
        }
        (vm_, result)
    }

    /// The alignment pillar: save the cursor, enter `slot`, evaluate `expr`;
    /// if `write`, record the value at the entered path in the current
    /// export unless that path already reads back in domain `kind` (a
    /// re-entered path keeps its first recorded value, which is also what
    /// the site then yields); restore the cursor, and if `inc` advance the
    /// sibling index so the next site gets a distinct slot.
    pub fn nest<F: Fn(RoundVM) -> (RoundVM, Val)>(
        self,
        slot: Slot,
        write: bool,
        inc: bool,
        kind: ValKind,
        expr: F,
    ) -> (r: (RoundVM, Val))
        requires
            self.wf(),
            forall|v: RoundVM| nest_entry(v, self, slot) ==> #[trigger] call_requires(expr, (v,)),
            frame_res(expr),
        ensures
            op_frame(self, r.0),
            r.0.idx() == if inc {
                sat_inc(self.idx())
            } else {
                self.idx()
            },
            exists|v: RoundVM, m: RoundVM, val: Val|
                {
                    &&& nest_entry(v, self, slot)
                    &&& #[trigger] call_ensures(expr, (v,), (m, val))
                    &&& r.1 == if write {
                        match get_spec(m.export_map(), m.path_v(), kind) {
                            Ok(w) => w,
                            Err(_) => val,
                        }
                    } else {
                        val
                    }
                    &&& r.0.export_map() == if write && !(get_spec(
                        m.export_map(),
                        m.path_v(),
                        kind,
                    ) is Ok) {
                        m.export_map().insert(m.path_v(), val)
                    } else {
                        m.export_map()
                    }
                },
    {
        let ghost base = self;
        let mut vm = self;
        vm.status.push();
        vm.status.nest(slot);
        proof {
            assert(nest_entry(vm, base, slot));
        }
        let ghost ve = vm;
        let (m0, val) = expr(vm);
        let ghost gm = m0;
        let mut m = m0;
        proof {
            assert(op_frame(ve, m));
        }
        let res: Val;
        if write {
            match m.get_current(kind) {
                Ok(w) => {
                    res = w;
                },
                Err(_) => {
                    let copy = val.clone();
                    m.put_current(val);
                    res = copy;
                },
            }
        } else {
            res = val;
        }
        m.status.pop();
        if inc {
            if m.status.index() < i32::MAX {
                m.status.inc_index();
            }
        }
        proof {
            assert(base.export_map().dom().subset_of(m.export_map().dom()));
            assert(gm.stack_v() == base.stack_v().push((base.path_v(), base.idx(), base.nbr_v())));
            assert(gm.stack_v().drop_last() =~= base.stack_v());
            assert(gm.stack_v().last() == (base.path_v(), base.idx(), base.nbr_v()));
            assert forall|k: Seq<Slot>|
                #[trigger] m.export_map().contains_key(k) && !base.export_map().contains_key(
                    k,
                ) implies base.path_v().is_prefix_of(k) && k.len() > base.path_v().len() by {
                if gm.export_map().contains_key(k) {
                    assert(ve.path_v().is_prefix_of(k) && k.len() > ve.path_v().len());
                    assert(ve.path_v() == base.path_v().push(slot));
                    assert(base.path_v().is_prefix_of(ve.path_v()));
                    assert(base.path_v().is_prefix_of(k)) by {
                        assert(k.subrange(0, ve.path_v().len() as int) == ve.path_v());
                        assert(base.path_v() =~= k.subrange(0, base.path_v().len() as int)) by {
                            assert(forall|i: int|
                                0 <= i < base.path_v().len() ==> k[i] == ve.path_v()[i]);
                        }
                    }
                } else {
                    assert(k == gm.path_v());
                    assert(gm.path_v() == base.path_v().push(slot));
                    assert(base.path_v().is_prefix_of(k)) by {
                        assert(base.path_v() =~= k.subrange(0, base.path_v().len() as int));
                    }
                }
            }
            assert(op_frame(base, m));
        }
        (m, res)
    }
}

} // verus!
