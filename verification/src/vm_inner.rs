use vstd::prelude::*;

use crate::channel_stack::ChannelStack;
use crate::constants::Constants;
use crate::errors::ArtError;
use crate::expression::{Expression, ExpressionState};
use crate::graph::Graph;
use crate::leap::Leap;
use crate::opcode::{ControlOpcode, DspOpcode};
use crate::opcode_reader::{read_control_opcode, read_expression_program};
use crate::options::Options;
use crate::parameter::Parameter;
use crate::table::{key2, key3, spec_key2, spec_key3, Table};
use crate::types::{ArtResult, Rate, Sample, StackRecord};
use crate::unit::{Unit, UnitBackend, UnitBehavior, UnitDefinition};
use crate::unit_factory::UnitFactory;
use crate::validator::{
    spec_data_count, spec_param_count, spec_unit_count, spec_validate_program, ExpressionValidator,
};

verus! {

/// Why an `AddExpression` command is turned away, if it is: a reused id,
/// an exhausted store, or the program's first internal inconsistency.
/// `None` admits the expression.
pub open spec fn spec_admission(
    duplicate: bool,
    expr_len: int,
    expr_cap: int,
    defs: Seq<UnitDefinition>,
    ops: Seq<DspOpcode>,
    max_depth: int,
    units_len: int,
    units_cap: int,
    params_len: int,
    params_cap: int,
    store_free: int,
    data_free: int,
) -> Option<ArtError> {
    if duplicate {
        Some(ArtError::IndexError)
    } else if ops.len() > 0xFFFF_FFFF {
        Some(ArtError::BufferOverflow)
    } else if expr_len + 1 > expr_cap {
        Some(ArtError::BufferOverflow)
    } else if spec_validate_program(defs, ops, Seq::<StackRecord>::empty(), max_depth) is Err {
        Some(spec_validate_program(defs, ops, Seq::<StackRecord>::empty(), max_depth)->Err_0)
    } else if units_len + spec_unit_count(ops) > units_cap {
        Some(ArtError::BufferOverflow)
    } else if params_len + spec_param_count(defs, ops) > params_cap {
        Some(ArtError::BufferOverflow)
    } else if store_free < ops.len() + 1 {
        Some(ArtError::BufferOverflow)
    } else if data_free < spec_data_count(defs, ops) {
        Some(ArtError::BufferOverflow)
    } else {
        None
    }
}

/// What setting a parameter does: the addressed parameter takes the
/// value, or `ParameterNotFound` reports exactly that it is not live;
/// nothing else moves either way.
pub open spec fn spec_set_parameter_applied(
    pre: VmInner,
    post: VmInner,
    eid: u32,
    uid: u32,
    pid: u32,
    value: Sample,
    r: ArtResult<()>,
) -> bool {
    &&& post.same_config(&pre)
    &&& post.expressions == pre.expressions
    &&& post.units == pre.units
    &&& post.bus_map == pre.bus_map
    &&& post.graph == pre.graph
    &&& post.stack == pre.stack
    &&& post.busses == pre.busses
    &&& post.expression_store == pre.expression_store
    &&& post.data == pre.data
    &&& match r {
        Ok(()) => {
            &&& pre.parameters@.dom().contains(spec_key3(eid, uid, pid))
            &&& post.parameters@ == pre.parameters@.insert(
                spec_key3(eid, uid, pid),
                Parameter { value, ..pre.parameters@[spec_key3(eid, uid, pid)] },
            )
            &&& post.parameters.keys() == pre.parameters.keys()
        },
        Err(e) => {
            &&& e == (ArtError::ParameterNotFound {
                expression_id: eid,
                unit_id: uid,
                parameter_id: pid,
            })
            &&& !pre.parameters@.dom().contains(spec_key3(eid, uid, pid))
            &&& post.parameters == pre.parameters
        },
    }
}

/// What removing an expression does: the addressed expression is marked
/// free for the next reclaim, or `ExpressionNotFound` reports exactly
/// that it is not live; nothing else moves either way.
pub open spec fn spec_remove_expression_applied(
    pre: VmInner,
    post: VmInner,
    expression_id: u32,
    r: ArtResult<()>,
) -> bool {
    &&& post.same_config(&pre)
    &&& post.units == pre.units
    &&& post.parameters == pre.parameters
    &&& post.bus_map == pre.bus_map
    &&& post.graph == pre.graph
    &&& post.stack == pre.stack
    &&& post.busses == pre.busses
    &&& post.expression_store == pre.expression_store
    &&& post.data == pre.data
    &&& match r {
        Ok(()) => {
            &&& pre.expressions@.dom().contains(expression_id as u128)
            &&& post.expressions@ == pre.expressions@.insert(
                expression_id as u128,
                Expression {
                    state: ExpressionState::Free,
                    ..pre.expressions@[expression_id as u128]
                },
            )
            &&& post.expressions.keys() == pre.expressions.keys()
        },
        Err(e) => {
            &&& e == (ArtError::ExpressionNotFound { expression_id })
            &&& !pre.expressions@.dom().contains(expression_id as u128)
            &&& post.expressions == pre.expressions
        },
    }
}

/// What declaring an edge does: it joins the transient edge list, or
/// `BufferOverflow` reports a full list; nothing else moves either way.
pub open spec fn spec_add_edge_applied(
    pre: VmInner,
    post: VmInner,
    from: u32,
    to: u32,
    r: ArtResult<()>,
) -> bool {
    &&& post.same_config(&pre)
    &&& post.expressions == pre.expressions
    &&& post.units == pre.units
    &&& post.parameters == pre.parameters
    &&& post.bus_map == pre.bus_map
    &&& post.stack == pre.stack
    &&& post.busses == pre.busses
    &&& post.expression_store == pre.expression_store
    &&& post.data == pre.data
    &&& match r {
        Ok(()) => {
            &&& pre.graph@.len() < pre.graph.spec_capacity()
            &&& post.graph@ == pre.graph@.push(crate::graph::Edge { from, to })
        },
        Err(e) => {
            &&& e == ArtError::BufferOverflow
            &&& pre.graph@.len() == pre.graph.spec_capacity()
            &&& post.graph == pre.graph
        },
    }
}

/// What admitting a program does: either every admission condition held
/// and the expression stands constructed — its run stored, its units and
/// default parameters created — or the first failed condition's error is
/// reported and the machine is untouched.
pub open spec fn spec_add_expression_applied(
    pre: VmInner,
    post: VmInner,
    id: u32,
    ops: Seq<DspOpcode>,
    r: ArtResult<()>,
) -> bool {
    &&& post.same_config(&pre)
    &&& post.graph == pre.graph
    &&& post.stack == pre.stack
    &&& post.busses == pre.busses
    &&& post.bus_map == pre.bus_map
    &&& match r {
        Ok(()) => {
            &&& spec_admission(
                pre.expressions@.dom().contains(id as u128),
                pre.expressions.spec_len(),
                pre.expressions.spec_capacity(),
                pre.unit_factory@,
                ops,
                pre.max_stack_depth as int,
                pre.units.spec_len(),
                pre.units.spec_capacity(),
                pre.parameters.spec_len(),
                pre.parameters.spec_capacity(),
                pre.expression_store.free_slots(),
                pre.data.free_slots(),
            ) is None
            &&& ({
                let ex = post.expressions@[id as u128];
                &&& ex.id == id
                &&& ex.num_opcodes == ops.len()
                &&& ex.state == ExpressionState::Run
                &&& ex.incoming_edges == 0
                &&& !pre.expression_store.runs().dom().contains(ex.index as int)
                &&& post.expression_store.runs() == pre.expression_store.runs().insert(
                    ex.index as int,
                    ops,
                )
                &&& post.expressions@ == pre.expressions@.insert(id as u128, ex)
                &&& post.expressions.keys() == pre.expressions.keys().push(id as u128)
            })
            &&& forall|k: int|
                0 <= k < ops.len() && ops[k] is Unit ==> post.units@.dom().contains(
                    #[trigger] spec_key2(id, ops[k]->Unit_unit_id),
                )
            &&& forall|k: u128|
                pre.units@.dom().contains(k) ==> post.units@.dom().contains(k)
            &&& forall|k: u128|
                pre.parameters@.dom().contains(k) ==> post.parameters@.dom().contains(k)
            &&& ((forall|k1: int, k2: int|
                0 <= k1 < k2 < ops.len() && ops[k1] is Unit && ops[k2] is Unit
                    ==> (#[trigger] ops[k1])->Unit_unit_id != (#[trigger] ops[k2])->Unit_unit_id)
                ==> (forall|k: int|
                0 <= k < ops.len() && ops[k] is Unit ==> post.spec_constructed(
                    id,
                    #[trigger] ops[k],
                )))
        },
        Err(e) => {
            &&& Some(e) == spec_admission(
                pre.expressions@.dom().contains(id as u128),
                pre.expressions.spec_len(),
                pre.expressions.spec_capacity(),
                pre.unit_factory@,
                ops,
                pre.max_stack_depth as int,
                pre.units.spec_len(),
                pre.units.spec_capacity(),
                pre.parameters.spec_len(),
                pre.parameters.spec_capacity(),
                pre.expression_store.free_slots(),
                pre.data.free_slots(),
            )
            &&& post.expressions == pre.expressions
            &&& post.units == pre.units
            &&& post.parameters == pre.parameters
            &&& post.expression_store == pre.expression_store
            &&& post.data == pre.data
        },
    }
}

/// Packed parameter keys of different units never collide.
proof fn lemma_key3_distinct_uid(e: u32, u1: u32, u2: u32, p1: u32, p2: u32)
    requires
        u1 != u2,
    ensures
        spec_key3(e, u1, p1) != spec_key3(e, u2, p2),
{
    assert(spec_key3(e, u1, p1) != spec_key3(e, u2, p2)) by (nonlinear_arith)
        requires
            u1 != u2 && u1 < 0x1_0000_0000 && u2 < 0x1_0000_0000 && p1 < 0x1_0000_0000 && p2
                < 0x1_0000_0000 && e < 0x1_0000_0000,
    ;
}

/// The whole virtual machine: every store pre-sized at construction, the
/// block pipeline run once per audio callback.
pub struct VmInner {
    pub constants: Constants,
    pub unit_factory: UnitFactory,
    pub expression_store: Leap<DspOpcode>,
    pub expressions: Table<Expression>,
    pub units: Table<Unit>,
    pub parameters: Table<Parameter>,
    pub bus_map: Table<usize>,
    pub graph: Graph,
    pub stack: ChannelStack,
    pub busses: ChannelStack,
    pub data: Leap<Sample>,
    pub max_stack_depth: usize,
}

impl VmInner {
    /// The machine's invariant: every component is internally consistent
    /// and expression ids fit the command width.
    pub open spec fn wf(&self) -> bool {
        &&& self.constants.wf()
        &&& self.unit_factory.wf()
        &&& self.expression_store.wf()
        &&& self.expressions.wf()
        &&& self.units.wf()
        &&& self.parameters.wf()
        &&& self.bus_map.wf()
        &&& self.graph.wf()
        &&& self.stack.wf()
        &&& self.busses.wf()
        &&& self.data.wf()
        &&& forall|i: int|
            0 <= i < self.expressions.keys().len() ==> #[trigger] self.expressions.keys()[i]
                < 0x1_0000_0000
        &&& forall|k: u128|
            self.expressions@.dom().contains(k) ==> (#[trigger] self.expressions@[k]).id as u128
                == k
    }

    /// Nothing configured at construction has changed.
    pub open spec fn same_config(&self, other: &VmInner) -> bool {
        &&& self.constants == other.constants
        &&& self.unit_factory@ == other.unit_factory@
        &&& self.max_stack_depth == other.max_stack_depth
        &&& self.stack.view().len() == other.stack.view().len()
        &&& self.busses.view().len() == other.busses.view().len()
        &&& self.expression_store.spec_capacity() == other.expression_store.spec_capacity()
        &&& self.data.spec_capacity() == other.data.spec_capacity()
        &&& self.expressions.spec_capacity() == other.expressions.spec_capacity()
        &&& self.units.spec_capacity() == other.units.spec_capacity()
        &&& self.parameters.spec_capacity() == other.parameters.spec_capacity()
        &&& self.bus_map.spec_capacity() == other.bus_map.spec_capacity()
        &&& self.graph.spec_capacity() == other.graph.spec_capacity()
    }

    /// A machine with the built-in unit types and every store pre-sized
    /// from `options`, holding nothing yet.
    pub fn new(options: &Options) -> (r: VmInner)
        requires
            options.wf(),
        ensures
            r.wf(),
            r.constants.block_size == options.block_size,
            r.constants.input_channels == options.input_channels,
            r.constants.output_channels == options.output_channels,
            r.expressions@ == Map::<u128, Expression>::empty(),
            r.units@ == Map::<u128, Unit>::empty(),
            r.parameters@ == Map::<u128, Parameter>::empty(),
            r.graph@ == Seq::<crate::graph::Edge>::empty(),
            r.expression_store.runs() == Map::<int, Seq<DspOpcode>>::empty(),
            r.data.runs() == Map::<int, Seq<Sample>>::empty(),
    {
        VmInner {
            constants: Constants::from_options(options),
            unit_factory: UnitFactory::new(),
            expression_store: Leap::with_capacity(options.max_opcodes as usize),
            expressions: Table::with_capacity(options.max_expressions as usize),
            units: Table::with_capacity(options.max_units as usize),
            parameters: Table::with_capacity(options.max_parameters as usize),
            bus_map: Table::with_capacity(options.max_bus_depth as usize),
            graph: Graph::with_capacity(options.max_edges),
            stack: ChannelStack::new(options.stack_size),
            busses: ChannelStack::new(options.bus_stack_size),
            data: Leap::with_capacity(options.max_opcodes as usize),
            max_stack_depth: options.max_stack_depth as usize,
        }
    }

    /// Set a parameter's current value. Fails with `ParameterNotFound`,
    /// changing nothing, exactly when no such parameter is live.
    pub fn set_parameter(&mut self, eid: u32, uid: u32, pid: u32, value: Sample) -> (r: ArtResult<
        (),
    >)
        requires
            old(self).wf(),
        ensures
            final(self).wf(),
            spec_set_parameter_applied(*old(self), *final(self), eid, uid, pid, value, r),
    {
        let key = key3(eid, uid, pid);
        let mut parameter = match self.parameters.get(key) {
            Some(p) => p,
            None => {
                return Err(
                    ArtError::ParameterNotFound {
                        expression_id: eid,
                        unit_id: uid,
                        parameter_id: pid,
                    },
                );
            },
        };
        parameter.value = value;
        let r = self.parameters.insert(key, parameter);
        proof {
            assert(r is Ok);
        }
        Ok(())
    }

    /// Mark an expression free; its resources are reclaimed at the end of
    /// the block. Fails with `ExpressionNotFound`, changing nothing,
    /// exactly when no such expression is live.
    pub fn remove_expression(&mut self, expression_id: u32) -> (r: ArtResult<()>)
        requires
            old(self).wf(),
        ensures
            final(self).wf(),
            spec_remove_expression_applied(*old(self), *final(self), expression_id, r),
    {
        let key = expression_id as u128;
        let mut expression = match self.expressions.get(key) {
            Some(e) => e,
            None => {
                return Err(ArtError::ExpressionNotFound { expression_id });
            },
        };
        expression.state = ExpressionState::Free;
        let r = self.expressions.insert(key, expression);
        proof {
            assert(r is Ok);
        }
        Ok(())
    }

    /// Admit a candidate program as expression `id`: validate it, store
    /// its opcode run, and construct its units and parameters.
    ///
    /// Rejection — a reused id, an exhausted store, or the program's first
    /// channel, rate or stack inconsistency, exactly as [`spec_admission`]
    /// says — leaves the whole machine untouched: nothing is constructed
    /// and nothing stays allocated.
    pub fn add_expression(&mut self, id: u32, ops: &Vec<DspOpcode>) -> (r: ArtResult<()>)
        requires
            old(self).wf(),
        ensures
            final(self).wf(),
            spec_add_expression_applied(*old(self), *final(self), id, ops@, r),
    {
        let key = id as u128;
        if self.expressions.contains(key) {
            return Err(ArtError::IndexError);
        }
        if ops.len() > 0xFFFF_FFFF {
            return Err(ArtError::BufferOverflow);
        }
        if self.expressions.len() >= self.expressions.capacity() {
            return Err(ArtError::BufferOverflow);
        }
        let mut scratch: Vec<StackRecord> = Vec::new();
        match ExpressionValidator::validate(
            ops,
            &self.unit_factory,
            &mut scratch,
            self.max_stack_depth,
        ) {
            Ok(()) => {},
            Err(e) => {
                return Err(e);
            },
        }
        proof {
            self.units.lemma_len_le_cap();
            self.parameters.lemma_len_le_cap();
            self.expression_store.lemma_len_le_cap();
            self.data.lemma_len_le_cap();
        }
        let unit_count = ExpressionValidator::unit_count(ops);
        if unit_count > (self.units.capacity() - self.units.len()) as u64 {
            return Err(ArtError::BufferOverflow);
        }
        let param_count = ExpressionValidator::param_count(ops, &self.unit_factory);
        if param_count > (self.parameters.capacity() - self.parameters.len()) as u64 {
            return Err(ArtError::BufferOverflow);
        }
        let store_free = self.expression_store.capacity() - self.expression_store.len();
        if (store_free as u64) < ops.len() as u64 + 1 {
            return Err(ArtError::BufferOverflow);
        }
        let data_count = ExpressionValidator::data_count(ops, &self.unit_factory);
        let data_free = self.data.capacity() - self.data.len();
        if (data_free as u64) < data_count {
            return Err(ArtError::BufferOverflow);
        }
        let start = match self.expression_store.allocate(ops) {
            Ok(s) => s,
            Err(e) => {
                proof {
                    assert(false);
                }
                return Err(e);
            },
        };
        self.construct_units(id, ops);
        let expression = Expression::new(id, start, ops.len());
        let r = self.expressions.insert(key, expression);
        proof {
            assert(r is Ok);
            assert forall|i: int|
                0 <= i < self.expressions.keys().len() implies #[trigger] self.expressions.keys()[i]
                < 0x1_0000_0000 by {
                if i < old(self).expressions.keys().len() {
                } else {
                    assert(self.expressions.keys()[i] == id as u128);
                }
            }
        }
        Ok(())
    }

    /// Create the units and default parameters a validated program
    /// declares.
    fn construct_units(&mut self, id: u32, ops: &Vec<DspOpcode>)
        requires
            old(self).wf(),
            old(self).units.spec_len() + spec_unit_count(ops@) <= old(self).units.spec_capacity(),
            old(self).parameters.spec_len() + spec_param_count(old(self).unit_factory@, ops@) <= old(self).parameters.spec_capacity(),
            spec_data_count(old(self).unit_factory@, ops@) <= old(self).data.free_slots(),
        ensures
            final(self).wf(),
            final(self).same_config(old(self)),
            final(self).expressions == old(self).expressions,
            final(self).graph == old(self).graph,
            final(self).stack == old(self).stack,
            final(self).busses == old(self).busses,
            final(self).bus_map == old(self).bus_map,
            final(self).expression_store == old(self).expression_store,
            forall|k: int|
                0 <= k < ops@.len() && ops@[k] is Unit ==> final(self).units@.dom().contains(
                    #[trigger] spec_key2(id, ops@[k]->Unit_unit_id),
                ),
            forall|k: u128|
                old(self).units@.dom().contains(k) ==> final(self).units@.dom().contains(k),
            forall|k: u128|
                old(self).parameters@.dom().contains(k) ==> final(self).parameters@.dom().contains(
                    k,
                ),
            // With pairwise-distinct unit ids — the well-formed case — every
            // unit instruction's construction stands exactly as declared.
            (forall|k1: int, k2: int|
                0 <= k1 < k2 < ops@.len() && ops@[k1] is Unit && ops@[k2] is Unit
                    ==> (#[trigger] ops@[k1])->Unit_unit_id != (#[trigger] ops@[k2])->Unit_unit_id)
                ==> (forall|k: int|
                0 <= k < ops@.len() && ops@[k] is Unit ==> final(self).spec_constructed(
                    id,
                    #[trigger] ops@[k],
                )),
    {
        let ghost old_self = *old(self);
        let ghost defs = self.unit_factory@;
        let ghost distinct = forall|k1: int, k2: int|
            0 <= k1 < k2 < ops@.len() && ops@[k1] is Unit && ops@[k2] is Unit
                ==> (#[trigger] ops@[k1])->Unit_unit_id != (#[trigger] ops@[k2])->Unit_unit_id;
        let n = ops.len();
        let mut k: usize = 0;
        proof {
            assert(ops@.take(0) =~= Seq::<DspOpcode>::empty());
        }
        while k < n
            invariant
                n == ops@.len(),
                k <= n,
                defs == old_self.unit_factory@,
                self.wf(),
                self.same_config(&old_self),
                self.expressions == old_self.expressions,
                self.graph == old_self.graph,
                self.stack == old_self.stack,
                self.busses == old_self.busses,
                self.bus_map == old_self.bus_map,
                self.expression_store == old_self.expression_store,
                self.units.spec_len() <= old_self.units.spec_len() + spec_unit_count(
                    ops@.take(k as int),
                ),
                old_self.units.spec_len() + spec_unit_count(ops@)
                    <= old_self.units.spec_capacity(),
                self.parameters.spec_len() <= old_self.parameters.spec_len() + spec_param_count(
                    defs,
                    ops@.take(k as int),
                ),
                old_self.parameters.spec_len() + spec_param_count(defs, ops@)
                    <= old_self.parameters.spec_capacity(),
                self.data.free_slots() == old_self.data.free_slots() - spec_data_count(
                    defs,
                    ops@.take(k as int),
                ),
                spec_data_count(defs, ops@) <= old_self.data.free_slots(),
                forall|j: int|
                    0 <= j < k && ops@[j] is Unit ==> self.units@.dom().contains(
                        #[trigger] spec_key2(id, ops@[j]->Unit_unit_id),
                    ),
                forall|q: u128|
                    old_self.units@.dom().contains(q) ==> self.units@.dom().contains(q),
                forall|q: u128|
                    old_self.parameters@.dom().contains(q) ==> self.parameters@.dom().contains(q),
                distinct == (forall|k1: int, k2: int|
                    0 <= k1 < k2 < ops@.len() && ops@[k1] is Unit && ops@[k2] is Unit
                        ==> (#[trigger] ops@[k1])->Unit_unit_id != (#[trigger] ops@[k2])->Unit_unit_id),
                distinct ==> (forall|j: int|
                    0 <= j < k && ops@[j] is Unit ==> self.spec_constructed(
                        id,
                        #[trigger] ops@[j],
                    )),
            decreases n - k,
        {
            proof {
                crate::validator::lemma_count_take_step(defs, ops@, k as int);
                crate::validator::lemma_counts_take_le(defs, ops@, k as int);
                crate::validator::lemma_counts_take_le(defs, ops@, k as int + 1);
            }
            if let DspOpcode::Unit { unit_id, type_id, input_channels, output_channels } = ops[k] {
                let ghost pre = *self;
                self.construct_unit(id, unit_id, type_id, input_channels, output_channels);
                proof {
                    if distinct {
                        assert forall|j: int|
                            0 <= j <= k && ops@[j] is Unit implies self.spec_constructed(
                            id,
                            #[trigger] ops@[j],
                        ) by {
                            if j == k as int {
                                assert(ops@[j] == (DspOpcode::Unit {
                                    unit_id,
                                    type_id,
                                    input_channels,
                                    output_channels,
                                }));
                            } else {
                                let uj = ops@[j]->Unit_unit_id;
                                assert(uj != unit_id);
                                assert(spec_key2(id, uj) != spec_key2(id, unit_id));
                                assert(pre.spec_constructed(id, ops@[j]));
                                assert(self.units@[spec_key2(id, uj)] == pre.units@[
                                    spec_key2(id, uj)]);
                                assert forall|pp: int, p2: int|
                                    0 <= pp < 4 && 0 <= p2 < 4 implies #[trigger] spec_key3(
                                    id,
                                    uj,
                                    pp as u32,
                                ) != #[trigger] spec_key3(id, unit_id, p2 as u32) by {
                                    lemma_key3_distinct_uid(
                                        id,
                                        uj,
                                        unit_id,
                                        pp as u32,
                                        p2 as u32,
                                    );
                                }
                                let tj = ops@[j]->Unit_type_id;
                                if tj < self.unit_factory@.len() {
                                    let d = self.unit_factory@[tj as int];
                                    assert forall|pp: int|
                                        0 <= pp < d.num_params implies self.parameters@.dom().contains(
                                        #[trigger] spec_key3(id, uj, pp as u32),
                                    ) && self.parameters@[spec_key3(id, uj, pp as u32)]
                                        == crate::parameter::spec_new_parameter(d.params[pp]) by {
                                        assert(pre.parameters@.dom().contains(
                                            spec_key3(id, uj, pp as u32),
                                        ));
                                        assert(self.parameters@[spec_key3(id, uj, pp as u32)]
                                            == pre.parameters@[spec_key3(id, uj, pp as u32)]);
                                    }
                                }
                            }
                        }
                    }
                }
            }
            k = k + 1;
        }
    }

    /// Create one unit and its default parameters.
    fn construct_unit(
        &mut self,
        eid: u32,
        uid: u32,
        type_id: u32,
        input_channels: u32,
        output_channels: u32,
    )
        requires
            old(self).wf(),
            old(self).units.spec_len() < old(self).units.spec_capacity(),
            type_id < old(self).unit_factory@.len() ==> old(self).parameters.spec_len() + old(self).unit_factory@[type_id as int].num_params <= old(self).parameters.spec_capacity(),
            type_id < old(self).unit_factory@.len() && old(self).unit_factory@[
                type_id as int
            ].data_size > 0 ==> old(self).unit_factory@[type_id as int].data_size + 1 <= old(self).data.free_slots(),
        ensures
            final(self).wf(),
            final(self).same_config(old(self)),
            final(self).expressions == old(self).expressions,
            final(self).graph == old(self).graph,
            final(self).stack == old(self).stack,
            final(self).busses == old(self).busses,
            final(self).bus_map == old(self).bus_map,
            final(self).expression_store == old(self).expression_store,
            final(self).units@.dom().contains(spec_key2(eid, uid)),
            final(self).spec_constructed(
                eid,
                DspOpcode::Unit { unit_id: uid, type_id, input_channels, output_channels },
            ),
            forall|q: u128|
                q != spec_key2(eid, uid) && old(self).units@.dom().contains(q)
                    ==> #[trigger] final(self).units@[q] == old(self).units@[q],
            forall|q: u128|
                old(self).parameters@.dom().contains(q) && (forall|p2: int|
                    0 <= p2 < 4 ==> q != #[trigger] spec_key3(eid, uid, p2 as u32))
                    ==> #[trigger] final(self).parameters@[q] == old(self).parameters@[q],
            forall|s: int|
                #[trigger] old(self).data.runs().dom().contains(s) ==> final(self).data.runs().dom().contains(s) && final(self).data.runs()[s] == old(self).data.runs()[s],
            final(self).units.spec_len() <= old(self).units.spec_len() + 1,
            type_id < old(self).unit_factory@.len() ==> final(self).parameters.spec_len() <= old(self).parameters.spec_len() + old(self).unit_factory@[type_id as int].num_params,
            type_id >= old(self).unit_factory@.len() ==> final(self).parameters == old(self).parameters,
            final(self).data.free_slots() == old(self).data.free_slots() - (if type_id < old(self).unit_factory@.len() && old(self).unit_factory@[type_id as int].data_size > 0 {
                old(self).unit_factory@[type_id as int].data_size + 1
            } else {
                0
            }),
            forall|q: u128|
                old(self).units@.dom().contains(q) ==> final(self).units@.dom().contains(q),
            forall|q: u128|
                old(self).parameters@.dom().contains(q) ==> final(self).parameters@.dom().contains(
                    q,
                ),
    {
        let definition = match self.unit_factory.get_definition(type_id) {
            Some(d) => d,
            None => {
                let unit = Unit {
                    eid,
                    uid,
                    type_id,
                    layout: crate::unit::ChannelLayout {
                        input: input_channels,
                        output: output_channels,
                    },
                    data_index: None,
                };
                let r = self.units.insert(key2(eid, uid), unit);
                proof {
                    assert(r is Ok);
                }
                return ;
            },
        };
        proof {
            assert(definition.wf());
        }
        let data_index: Option<usize> = if definition.data_size > 0 {
            let mut zeroes: Vec<Sample> = Vec::new();
            let mut z: usize = 0;
            while z < definition.data_size
                invariant
                    z <= definition.data_size,
                    zeroes@.len() == z,
                    forall|z2: int| 0 <= z2 < z ==> zeroes@[z2] == 0,
                decreases definition.data_size - z,
            {
                zeroes.push(0);
                z = z + 1;
            }
            match self.data.allocate(&zeroes) {
                Ok(di) => Some(di),
                Err(_) => {
                    proof {
                        assert(false);
                    }
                    None
                },
            }
        } else {
            None
        };
        let unit = Unit {
            eid,
            uid,
            type_id,
            layout: crate::unit::ChannelLayout { input: input_channels, output: output_channels },
            data_index,
        };
        let r = self.units.insert(key2(eid, uid), unit);
        proof {
            assert(r is Ok);
        }
        let mut p: usize = 0;
        let ghost mid = *self;
        let ghost params_before = self.parameters;
        while p < definition.num_params
            invariant
                definition.wf(),
                p <= definition.num_params,
                self.wf(),
                self.constants == mid.constants,
                self.unit_factory == mid.unit_factory,
                self.expression_store == mid.expression_store,
                self.expressions == mid.expressions,
                self.units == mid.units,
                self.bus_map == mid.bus_map,
                self.graph == mid.graph,
                self.stack == mid.stack,
                self.busses == mid.busses,
                self.data == mid.data,
                self.max_stack_depth == mid.max_stack_depth,
                params_before == mid.parameters,
                self.parameters.spec_capacity() == params_before.spec_capacity(),
                self.parameters.spec_len() <= params_before.spec_len() + p,
                params_before.spec_len() + definition.num_params
                    <= params_before.spec_capacity(),
                forall|q: u128|
                    params_before@.dom().contains(q) ==> self.parameters@.dom().contains(q),
                forall|p2: int|
                    0 <= p2 < p ==> self.parameters@.dom().contains(
                        #[trigger] spec_key3(eid, uid, p2 as u32),
                    ) && self.parameters@[spec_key3(eid, uid, p2 as u32)]
                        == crate::parameter::spec_new_parameter(definition.params[p2]),
                forall|q: u128|
                    params_before@.dom().contains(q) && (forall|p2: int|
                        0 <= p2 < 4 ==> q != #[trigger] spec_key3(eid, uid, p2 as u32))
                        ==> #[trigger] self.parameters@[q] == params_before@[q],
            decreases definition.num_params - p,
        {
            let parameter = Parameter::new(&definition.params[p]);
            let r2 = self.parameters.insert(key3(eid, uid, p as u32), parameter);
            proof {
                assert(r2 is Ok);
            }
            p = p + 1;
        }
    }
    /// What one unit instruction of an admitted program constructs: the
    /// unit itself, carrying the instruction's type and channel layout, a
    /// zeroed private-state run of the declared size, and one parameter
    /// per declaration, loaded with its default.
    pub open spec fn spec_constructed(self, id: u32, op: DspOpcode) -> bool {
        op matches DspOpcode::Unit { unit_id, type_id, input_channels, output_channels } ==> {
            let key = spec_key2(id, unit_id);
            &&& self.units@.dom().contains(key)
            &&& ({
                let u = self.units@[key];
                &&& u.eid == id
                &&& u.uid == unit_id
                &&& u.type_id == type_id
                &&& u.layout == (crate::unit::ChannelLayout {
                    input: input_channels,
                    output: output_channels,
                })
            })
            &&& (type_id < self.unit_factory@.len() ==> {
                let d = self.unit_factory@[type_id as int];
                &&& (forall|p: int|
                    0 <= p < d.num_params ==> self.parameters@.dom().contains(
                        #[trigger] spec_key3(id, unit_id, p as u32),
                    ) && self.parameters@[spec_key3(id, unit_id, p as u32)]
                        == crate::parameter::spec_new_parameter(d.params[p]))
                &&& (d.data_size > 0 ==> self.units@[key].data_index is Some
                    && self.data.runs().dom().contains(self.units@[key].data_index->0 as int)
                    && self.data.runs()[self.units@[key].data_index->0 as int].len()
                        == d.data_size && (forall|z: int|
                    0 <= z < d.data_size ==> self.data.runs()[
                        self.units@[key].data_index->0 as int
                    ][z] == 0))
                &&& (d.data_size == 0 ==> self.units@[key].data_index is None)
            })
            &&& (type_id >= self.unit_factory@.len() ==> self.units@[key].data_index is None)
        }
    }

    /// How many samples a unit's declared input and output occupy per
    /// block: one per channel at control rate, one per channel per sample
    /// at audio rate.
    pub open spec fn spec_unit_io(self, eid: u32, uid: u32) -> (int, int) {
        let u = self.units@[spec_key2(eid, uid)];
        let d = self.unit_factory@[u.type_id as int];
        let bs = self.constants.block_size as int;
        let ins: int = match d.input_rate {
            Some(Rate::Audio) => u.layout.input * bs,
            Some(Rate::Control) => u.layout.input as int,
            None => 0,
        };
        let outs: int = match d.output_rate {
            Some(Rate::Audio) => u.layout.output * bs,
            Some(Rate::Control) => u.layout.output as int,
            None => 0,
        };
        (ins, outs)
    }

    /// The stack position one instruction leaves, per the discipline:
    /// a unit pops its declared inputs and pushes its declared outputs,
    /// an operator pops one of its two operand blocks.
    pub open spec fn spec_op_pos(self, id: u32, op: DspOpcode, pos: int, block_size: int) -> int {
        match op {
            DspOpcode::Unit { unit_id, .. } => pos - self.spec_unit_io(id, unit_id).0
                + self.spec_unit_io(id, unit_id).1,
            DspOpcode::Add { channels, rate } => pos - crate::operators::spec_operand_samples(
                channels,
                rate,
                block_size,
            ),
            DspOpcode::Multiply { channels, rate } => pos
                - crate::operators::spec_operand_samples(channels, rate, block_size),
        }
    }

    /// The stack position a whole program leaves, instruction by
    /// instruction.
    pub open spec fn spec_program_pos(
        self,
        id: u32,
        ops: Seq<DspOpcode>,
        pos: int,
        block_size: int,
    ) -> int
        decreases ops.len(),
    {
        if ops.len() == 0 {
            pos
        } else {
            self.spec_program_pos(
                id,
                ops.skip(1),
                self.spec_op_pos(id, ops[0], pos, block_size),
                block_size,
            )
        }
    }

    /// Extending a program by one instruction extends its position fold
    /// by that instruction's step.
    pub proof fn lemma_program_pos_push(
        self,
        id: u32,
        s: Seq<DspOpcode>,
        x: DspOpcode,
        pos: int,
        block_size: int,
    )
        ensures
            self.spec_program_pos(id, s.push(x), pos, block_size) == self.spec_op_pos(
                id,
                x,
                self.spec_program_pos(id, s, pos, block_size),
                block_size,
            ),
        decreases s.len(),
    {
        if s.len() == 0 {
            assert(s.push(x).skip(1) =~= Seq::<DspOpcode>::empty());
            assert(s.push(x)[0] == x);
            assert(self.spec_program_pos(
                id,
                Seq::<DspOpcode>::empty(),
                self.spec_op_pos(id, x, pos, block_size),
                block_size,
            ) == self.spec_op_pos(id, x, pos, block_size));
        } else {
            assert(s.push(x).skip(1) =~= s.skip(1).push(x));
            assert(s.push(x)[0] == s[0]);
            self.lemma_program_pos_push(
                id,
                s.skip(1),
                x,
                self.spec_op_pos(id, s[0], pos, block_size),
                block_size,
            );
        }
    }

    /// A block of silence.
    fn zero_block(n: usize) -> (r: Vec<Sample>)
        ensures
            r@.len() == n,
            forall|i: int| 0 <= i < n ==> r@[i] == 0,
    {
        let mut out: Vec<Sample> = Vec::new();
        let mut i: usize = 0;
        while i < n
            invariant
                i <= n,
                out@.len() == i,
                forall|j: int| 0 <= j < i ==> out@[j] == 0,
            decreases n - i,
        {
            out.push(0);
            i = i + 1;
        }
        out
    }

    /// The table key a bus-addressing sample word selects.
    pub open spec fn spec_bus_key(word: Sample) -> u128 {
        (word as u32) as u128
    }

    /// Read a bus for a consumer: the mapped region's samples, or silence
    /// when the id is unknown — a reader may run before any writer has,
    /// and that is silence, not an error.
    fn bus_in_block(&self, bus_word: Sample, n: usize) -> (r: ArtResult<Vec<Sample>>)
        requires
            self.wf(),
        ensures
            match r {
                Ok(v) => {
                    &&& v@.len() == n
                    &&& if self.bus_map@.dom().contains(Self::spec_bus_key(bus_word)) {
                        let bi = self.bus_map@[Self::spec_bus_key(bus_word)];
                        &&& bi + n <= self.busses.view().len()
                        &&& v@ == self.busses.view().subrange(bi as int, bi + n)
                    } else {
                        forall|j: int| 0 <= j < n ==> #[trigger] v@[j] == 0
                    }
                },
                Err(e) => {
                    &&& e == ArtError::InvalidStack
                    &&& self.bus_map@.dom().contains(Self::spec_bus_key(bus_word))
                    &&& self.bus_map@[Self::spec_bus_key(bus_word)] + n > self.busses.view().len()
                },
            },
    {
        let key = #[verifier::truncate] (bus_word as u32) as u128;
        match self.bus_map.get(key) {
            Some(bi) => self.busses.read(bi, n),
            None => Ok(Self::zero_block(n)),
        }
    }

    /// Mix a producer's block into its bus: accumulate into the mapped
    /// region by wrapping addition, or — on the bus's first write this
    /// block — reserve a fresh region holding the block and map the id to
    /// it. Fails closed when the bus stack or the bus map is full.
    fn bus_out_block(&mut self, bus_word: Sample, values: &Vec<Sample>) -> (r: ArtResult<()>)
        requires
            old(self).wf(),
        ensures
            final(self).wf(),
            final(self).same_config(old(self)),
            final(self).expressions == old(self).expressions,
            final(self).units == old(self).units,
            final(self).parameters == old(self).parameters,
            final(self).graph == old(self).graph,
            final(self).stack == old(self).stack,
            final(self).expression_store == old(self).expression_store,
            final(self).data == old(self).data,
            match r {
                Ok(()) => {
                    if old(self).bus_map@.dom().contains(Self::spec_bus_key(bus_word)) {
                        let bi = old(self).bus_map@[Self::spec_bus_key(bus_word)];
                        &&& bi + values@.len() <= old(self).busses.view().len()
                        &&& final(self).bus_map == old(self).bus_map
                        &&& final(self).busses.pos() == old(self).busses.pos()
                        &&& forall|j: int|
                            0 <= j < values@.len() ==> #[trigger] final(self).busses.view()[bi
                                + j] == old(self).busses.view()[bi + j].wrapping_add(values@[j])
                        &&& forall|j: int|
                            0 <= j < old(self).busses.view().len() && !(bi <= j < bi
                                + values@.len()) ==> final(self).busses.view()[j] == old(self).busses.view()[j]
                    } else {
                        let bi = old(self).busses.pos();
                        &&& bi + values@.len() <= old(self).busses.view().len()
                        &&& final(self).bus_map@ == old(self).bus_map@.insert(
                            Self::spec_bus_key(bus_word),
                            bi as usize,
                        )
                        &&& final(self).busses.pos() == bi + values@.len()
                        &&& forall|j: int|
                            0 <= j < values@.len() ==> #[trigger] final(self).busses.view()[bi
                                + j] == values@[j]
                        &&& forall|j: int|
                            0 <= j < old(self).busses.view().len() && !(bi <= j < bi
                                + values@.len()) ==> final(self).busses.view()[j] == old(self).busses.view()[j]
                    }
                },
                Err(e) => {
                    &&& final(self).bus_map == old(self).bus_map
                    &&& final(self).busses.view() == old(self).busses.view()
                    &&& final(self).busses.pos() == old(self).busses.pos()
                    &&& (e == ArtError::InvalidStack || e == ArtError::StackOverflow || e
                        == ArtError::BufferOverflow)
                },
            },
    {
        let key = #[verifier::truncate] (bus_word as u32) as u128;
        match self.bus_map.get(key) {
            Some(bi) => self.busses.add(bi, values),
            None => {
                if self.bus_map.len() >= self.bus_map.capacity() {
                    return Err(ArtError::BufferOverflow);
                }
                let bi = match self.busses.push(values.len()) {
                    Ok(i) => i,
                    Err(e) => {
                        return Err(e);
                    },
                };
                let wr = self.busses.write(bi, values);
                proof {
                    assert(wr is Ok);
                }
                let mr = self.bus_map.insert(key, bi);
                proof {
                    assert(mr is Ok);
                }
                Ok(())
            },
        }
    }

    /// Store a consumer block into the parameter it addresses: an
    /// audio-rate target is redirected to a fresh bus region holding the
    /// block, a control-rate target takes the block's first sample.
    fn write_parameter_block(
        &mut self,
        teid: u32,
        tuid: u32,
        tpid: u32,
        values: &Vec<Sample>,
        block_size: usize,
    ) -> (r: ArtResult<()>)
        requires
            old(self).wf(),
            values@.len() >= 1,
        ensures
            final(self).wf(),
            final(self).same_config(old(self)),
            final(self).expressions == old(self).expressions,
            final(self).units == old(self).units,
            final(self).graph == old(self).graph,
            final(self).stack == old(self).stack,
            final(self).expression_store == old(self).expression_store,
            final(self).data == old(self).data,
            final(self).bus_map == old(self).bus_map,
            r == Err::<(), ArtError>(
                ArtError::ParameterNotFound {
                    expression_id: teid,
                    unit_id: tuid,
                    parameter_id: tpid,
                },
            ) <==> !old(self).parameters@.dom().contains(spec_key3(teid, tuid, tpid)),
            match r {
                Ok(()) => {
                    let target = old(self).parameters@[spec_key3(teid, tuid, tpid)];
                    if target.rate is Audio {
                        &&& final(self).parameters@ == old(self).parameters@.insert(
                            spec_key3(teid, tuid, tpid),
                            Parameter { bus: Some(old(self).busses.pos() as usize), ..target },
                        )
                        &&& final(self).busses.pos() == old(self).busses.pos() + block_size
                        &&& forall|j: int|
                            0 <= j < values@.len() ==> #[trigger] final(self).busses.view()[old(self).busses.pos() + j] == values@[j]
                    } else {
                        &&& final(self).parameters@ == old(self).parameters@.insert(
                            spec_key3(teid, tuid, tpid),
                            Parameter { value: values@[0], ..target },
                        )
                        &&& final(self).busses == old(self).busses
                    }
                },
                Err(e) => {
                    &&& final(self).parameters == old(self).parameters
                    &&& (e matches ArtError::ParameterNotFound { .. } || e
                        == ArtError::StackOverflow || e == ArtError::InvalidStack)
                },
            },
    {
        let tkey = key3(teid, tuid, tpid);
        let mut target = match self.parameters.get(tkey) {
            Some(x) => x,
            None => {
                return Err(
                    ArtError::ParameterNotFound {
                        expression_id: teid,
                        unit_id: tuid,
                        parameter_id: tpid,
                    },
                );
            },
        };
        if target.rate == Rate::Audio {
            let bi = match self.busses.push(block_size) {
                Ok(i) => i,
                Err(e) => {
                    return Err(e);
                },
            };
            match self.busses.write(bi, values) {
                Ok(()) => {},
                Err(e) => {
                    // The block overruns the bus stack: undo the
                    // reservation and report it.
                    let pr = self.busses.pop(block_size);
                    proof {
                        assert(pr is Ok);
                    }
                    return Err(e);
                },
            }
            target.bus = Some(bi);
        } else {
            target.value = values[0];
        }
        let rt = self.parameters.insert(tkey, target);
        proof {
            assert(rt is Ok);
        }
        Ok(())
    }

    /// The parameter source's output: its staged block fanned out across
    /// the output channels — sample by sample at audio rate, one frame at
    /// control rate.
    fn parameter_source_block(block: &Vec<Sample>, channels: usize, audio: bool, n: usize) -> (r:
        Vec<Sample>)
        requires
            channels > 0,
        ensures
            r@.len() == n,
            forall|t: int|
                0 <= t < n ==> #[trigger] r@[t] == {
                    let idx: int = if audio {
                        t / (channels as int)
                    } else {
                        0
                    };
                    if idx < block@.len() {
                        block@[idx]
                    } else {
                        0
                    }
                },
    {
        let mut out: Vec<Sample> = Vec::new();
        let mut t: usize = 0;
        while t < n
            invariant
                channels > 0,
                t <= n,
                out@.len() == t,
                forall|t2: int|
                    0 <= t2 < t ==> #[trigger] out@[t2] == {
                        let idx: int = if audio {
                            t2 / (channels as int)
                        } else {
                            0
                        };
                        if idx < block@.len() {
                            block@[idx]
                        } else {
                            0
                        }
                    },
            decreases n - t,
        {
            let idx = if audio {
                t / channels
            } else {
                0
            };
            let v = if idx < block.len() {
                block[idx]
            } else {
                0
            };
            out.push(v);
            t = t + 1;
        }
        out
    }

    /// One control-rate frame repeated across a whole audio-rate block:
    /// sample `t` carries the input frame's sample `t % channels`.
    fn kr_to_ar_block(inputs: &Vec<Sample>, channels: usize, n: usize) -> (r: Vec<Sample>)
        requires
            channels > 0,
        ensures
            r@.len() == n,
            forall|t: int|
                0 <= t < n ==> #[trigger] r@[t] == (if (t % (channels as int)) < inputs@.len() {
                    inputs@[t % (channels as int)]
                } else {
                    0
                }),
    {
        let mut out: Vec<Sample> = Vec::new();
        let mut t: usize = 0;
        while t < n
            invariant
                channels > 0,
                t <= n,
                out@.len() == t,
                forall|t2: int|
                    0 <= t2 < t ==> #[trigger] out@[t2] == (if (t2 % (channels as int)) < inputs@.len() {
                        inputs@[t2 % (channels as int)]
                    } else {
                        0
                    }),
            decreases n - t,
        {
            let j = t % channels;
            let v = if j < inputs.len() {
                inputs[j]
            } else {
                0
            };
            out.push(v);
            t = t + 1;
        }
        out
    }

    /// Accept a unit's produced block: it is taken exactly when its
    /// length is the declared output count. The staging above the unit's
    /// region is then released and the block written at the region's
    /// start; a block of any other length changes nothing.
    fn commit_unit_output(
        stack: &mut ChannelStack,
        index: usize,
        output_samples: usize,
        out: &Vec<Sample>,
    ) -> (r: ArtResult<()>)
        requires
            old(stack).wf(),
            index + output_samples <= old(stack).pos(),
        ensures
            final(stack).wf(),
            final(stack).view().len() == old(stack).view().len(),
            match r {
                Ok(()) => {
                    &&& out@.len() == output_samples
                    &&& final(stack).pos() == index + output_samples
                    &&& forall|j: int|
                        0 <= j < output_samples ==> #[trigger] final(stack).view()[index + j]
                            == out@[j]
                    &&& forall|j: int|
                        0 <= j < old(stack).view().len() && !(index <= j < index + output_samples)
                            ==> final(stack).view()[j] == old(stack).view()[j]
                },
                Err(e) => {
                    &&& e == ArtError::InvalidStack
                    &&& out@.len() != output_samples
                    &&& final(stack).pos() == old(stack).pos()
                    &&& final(stack).view() == old(stack).view()
                },
            },
    {
        if out.len() != output_samples {
            return Err(ArtError::InvalidStack);
        }
        let cur = stack.position();
        let pr = stack.pop(cur - index - output_samples);
        proof {
            assert(pr is Ok);
        }
        let wr = stack.write(index, out);
        proof {
            assert(wr is Ok);
        }
        Ok(())
    }

    /// Run one unit for this block: pop its inputs, stage its parameters,
    /// dispatch its behavior, and commit its output block.
    ///
    /// Any inconsistency — a missing unit, type, parameter or bus region,
    /// an exhausted store, or a plug-in block of the wrong size — is
    /// reported without panicking; the caller then frees the owning
    /// expression. Each lookup failure of the unit itself is reported if
    /// and only if it holds.
    fn unit_tick<B: UnitBackend>(&mut self, backend: &mut B, eid: u32, uid: u32) -> (r: ArtResult<
        (),
    >)
        requires
            old(self).wf(),
        ensures
            final(self).wf(),
            final(self).same_config(old(self)),
            final(self).expressions == old(self).expressions,
            final(self).units == old(self).units,
            final(self).graph == old(self).graph,
            final(self).expression_store == old(self).expression_store,
            // The three gate checks, each if and only if its condition.
            r == Err::<(), ArtError>(
                ArtError::UnitNotFound { expression_id: eid, unit_id: uid },
            ) <==> !old(self).units@.dom().contains(spec_key2(eid, uid)),
            (old(self).units@.dom().contains(spec_key2(eid, uid)) && old(self).units@[
                spec_key2(eid, uid)
            ].type_id >= old(self).unit_factory@.len()) <==> r == Err::<(), ArtError>(
                ArtError::UndefinedUnit {
                    type_id: old(self).units@[spec_key2(eid, uid)].type_id,
                },
            ),
            r == Err::<(), ArtError>(ArtError::StackUnderflow) <==> (old(self).units@.dom().contains(
                spec_key2(eid, uid),
            ) && old(self).units@[spec_key2(eid, uid)].type_id < old(self).unit_factory@.len()
                && old(self).spec_unit_io(eid, uid).0 > old(self).stack.pos()),
            // A missing parameter of this unit is reported only when it is
            // really absent (the writer behavior reports its own target).
            r matches Err(ArtError::ParameterNotFound {
                expression_id: e3,
                unit_id: u3,
                parameter_id: p3,
            }) ==> ((e3 == eid && u3 == uid && old(self).units@.dom().contains(
                spec_key2(eid, uid),
            ) && old(self).units@[spec_key2(eid, uid)].type_id < old(self).unit_factory@.len()
                && old(self).unit_factory@[
                old(self).units@[spec_key2(eid, uid)].type_id as int
            ].behavior != UnitBehavior::ParameterWriter) ==> (p3 < old(self).unit_factory@[
                old(self).units@[spec_key2(eid, uid)].type_id as int
            ].num_params && !old(self).parameters@.dom().contains(spec_key3(eid, uid, p3)))),
            // Only unit-level failures are reported here.
            r matches Err(e2) ==> !(e2 matches ArtError::ExpressionNotFound { .. }),
            // The stack discipline: a unit that ran popped exactly its
            // declared inputs, left exactly its declared outputs, and
            // touched nothing below its own region.
            r is Ok ==> {
                &&& old(self).units@.dom().contains(spec_key2(eid, uid))
                &&& old(self).units@[spec_key2(eid, uid)].type_id < old(self).unit_factory@.len()
                &&& final(self).stack.pos() == old(self).stack.pos() - old(self).spec_unit_io(
                    eid,
                    uid,
                ).0 + old(self).spec_unit_io(eid, uid).1
                &&& forall|j: int|
                    0 <= j < old(self).stack.pos() - old(self).spec_unit_io(eid, uid).0
                        ==> #[trigger] final(self).stack.view()[j] == old(self).stack.view()[j]
            },
    {
        let unit = match self.units.get(key2(eid, uid)) {
            Some(u) => u,
            None => {
                return Err(ArtError::UnitNotFound { expression_id: eid, unit_id: uid });
            },
        };
        let definition = match self.unit_factory.get_definition(unit.type_id) {
            Some(d) => d,
            None => {
                return Err(ArtError::UndefinedUnit { type_id: unit.type_id });
            },
        };
        proof {
            assert(definition.wf());
        }
        let bs = self.constants.block_size;
        let in64: u64 = match definition.input_rate {
            Some(Rate::Audio) => {
                proof {
                    assert(unit.layout.input * bs <= 0xFFFF_FFFFu32 * 0x10000int)
                        by (nonlinear_arith)
                        requires
                            unit.layout.input <= 0xFFFF_FFFFu32 && bs <= 0x10000,
                    ;
                }
                unit.layout.input as u64 * bs as u64
            },
            Some(Rate::Control) => unit.layout.input as u64,
            None => 0,
        };
        let out64: u64 = match definition.output_rate {
            Some(Rate::Audio) => {
                proof {
                    assert(unit.layout.output * bs <= 0xFFFF_FFFFu32 * 0x10000int)
                        by (nonlinear_arith)
                        requires
                            unit.layout.output <= 0xFFFF_FFFFu32 && bs <= 0x10000,
                    ;
                }
                unit.layout.output as u64 * bs as u64
            },
            Some(Rate::Control) => unit.layout.output as u64,
            None => 0,
        };
        if in64 > self.stack.position() as u64 {
            return Err(ArtError::StackUnderflow);
        }
        let input_samples = in64 as usize;
        let rb = self.stack.pop(input_samples);
        proof {
            assert(rb is Ok);
        }
        let index = match rb {
            Ok(i) => i,
            Err(_) => {
                return Err(ArtError::InvalidStack);
            },
        };
        if out64 > self.stack.capacity() as u64 {
            return Err(ArtError::StackOverflow);
        }
        let output_samples = out64 as usize;
        match self.stack.push(output_samples) {
            Ok(_) => {},
            Err(e) => {
                return Err(e);
            },
        }
        let extra = if input_samples > output_samples {
            input_samples - output_samples
        } else {
            0
        };
        match self.stack.push(extra) {
            Ok(_) => {},
            Err(e) => {
                return Err(e);
            },
        }
        let samples = if input_samples > output_samples {
            input_samples
        } else {
            output_samples
        };
        // Stage every declared parameter above the unit's region and copy
        // the staged blocks out for the behavior.
        let mut params_vec: Vec<Vec<Sample>> = Vec::new();
        let mut p: usize = 0;
        let ghost entry = *self;
        while p < definition.num_params
            invariant
                definition.wf(),
                p <= definition.num_params,
                self.wf(),
                0 < self.constants.block_size <= 0x10000,
                bs == self.constants.block_size,
                old(self).units@.dom().contains(spec_key2(eid, uid)),
                unit == old(self).units@[spec_key2(eid, uid)],
                unit.type_id < old(self).unit_factory@.len(),
                definition == old(self).unit_factory@[unit.type_id as int],
                in64 == old(self).spec_unit_io(eid, uid).0,
                in64 <= old(self).stack.pos(),
                self.same_config(&entry),
                entry.same_config(old(self)),
                entry.expressions == old(self).expressions,
                entry.units == old(self).units,
                entry.graph == old(self).graph,
                entry.expression_store == old(self).expression_store,
                entry.parameters == old(self).parameters,
                entry.stack.view() == old(self).stack.view(),
                index + samples <= entry.stack.pos(),
                index + samples <= self.stack.pos(),
                self.stack.view().len() == entry.stack.view().len(),
                forall|j: int|
                    0 <= j < index ==> #[trigger] self.stack.view()[j] == entry.stack.view()[j],
                self.parameters@.dom() == entry.parameters@.dom(),
                self.expressions == entry.expressions,
                self.units == entry.units,
                self.graph == entry.graph,
                self.bus_map == entry.bus_map,
                self.busses == entry.busses,
                self.expression_store == entry.expression_store,
                self.data == entry.data,
            decreases definition.num_params - p,
        {
            let pk = key3(eid, uid, p as u32);
            let mut parameter = match self.parameters.get(pk) {
                Some(x) => x,
                None => {
                    return Err(
                        ArtError::ParameterNotFound {
                            expression_id: eid,
                            unit_id: uid,
                            parameter_id: p as u32,
                        },
                    );
                },
            };
            let psamples = if parameter.rate == Rate::Audio {
                bs
            } else {
                1
            };
            let pindex = match parameter.read(&mut self.stack, &self.busses, bs) {
                Ok(i) => i,
                Err(e) => {
                    return Err(e);
                },
            };
            let block = match self.stack.read(pindex, psamples) {
                Ok(b) => b,
                Err(e) => {
                    return Err(e);
                },
            };
            params_vec.push(block);
            let ri = self.parameters.insert(pk, parameter);
            proof {
                assert(ri is Ok);
            }
            p = p + 1;
        }
        let inputs = match self.stack.read(index, input_samples) {
            Ok(v) => v,
            Err(e) => {
                return Err(e);
            },
        };
        let out: Vec<Sample> = match definition.behavior {
            UnitBehavior::BusIn => {
                let bus_word: Sample = if params_vec.len() > 0 && params_vec[0].len() > 0 {
                    params_vec[0][0]
                } else {
                    0
                };
                match self.bus_in_block(bus_word, output_samples) {
                    Ok(v) => v,
                    Err(e) => {
                        return Err(e);
                    },
                }
            },
            UnitBehavior::BusOut => {
                let bus_word: Sample = if params_vec.len() > 0 && params_vec[0].len() > 0 {
                    params_vec[0][0]
                } else {
                    0
                };
                match self.bus_out_block(bus_word, &inputs) {
                    Ok(()) => {},
                    Err(e) => {
                        return Err(e);
                    },
                }
                Self::zero_block(output_samples)
            },
            UnitBehavior::ParameterSource => {
                let ch = unit.layout.output as usize;
                if ch == 0 || params_vec.len() == 0 {
                    Self::zero_block(output_samples)
                } else {
                    let audio = match definition.output_rate {
                        Some(Rate::Audio) => true,
                        _ => false,
                    };
                    Self::parameter_source_block(&params_vec[0], ch, audio, output_samples)
                }
            },
            UnitBehavior::ParameterWriter => {
                if params_vec.len() < 3 || params_vec[0].len() == 0 || params_vec[1].len() == 0
                    || params_vec[2].len() == 0 || inputs.len() == 0 {
                    return Err(ArtError::InvalidStack);
                }
                let teid = #[verifier::truncate] (params_vec[0][0] as u32);
                let tuid = #[verifier::truncate] (params_vec[1][0] as u32);
                let tpid = #[verifier::truncate] (params_vec[2][0] as u32);
                match self.write_parameter_block(teid, tuid, tpid, &inputs, bs) {
                    Ok(()) => {},
                    Err(e) => {
                        return Err(e);
                    },
                }
                Self::zero_block(output_samples)
            },
            UnitBehavior::KrToAr => {
                let ch = unit.layout.output as usize;
                if ch == 0 {
                    Self::zero_block(output_samples)
                } else {
                    Self::kr_to_ar_block(&inputs, ch, output_samples)
                }
            },
            UnitBehavior::External => {
                let mut state: Vec<Sample> = match unit.data_index {
                    Some(di) => {
                        match self.data.iter(di) {
                            Ok(v) => v,
                            Err(e) => {
                                return Err(e);
                            },
                        }
                    },
                    None => Vec::new(),
                };
                let out = backend.tick(
                    unit.type_id,
                    &mut state,
                    &inputs,
                    &params_vec,
                    bs,
                    output_samples,
                );
                if let Some(di) = unit.data_index {
                    match self.data.write_run(di, &state) {
                        Ok(()) => {},
                        Err(e) => {
                            return Err(e);
                        },
                    }
                }
                out
            },
        };
        match Self::commit_unit_output(&mut self.stack, index, output_samples, &out) {
            Ok(()) => {},
            Err(e) => {
                return Err(e);
            },
        }
        Ok(())
    }

    /// Execute one expression's program over the sample stack: its stored
    /// run's instructions are applied in order — a unit tick, a mix, a
    /// product — and the first failure is returned.
    fn expression_tick<B: UnitBackend>(&mut self, backend: &mut B, id: u32) -> (r: ArtResult<()>)
        requires
            old(self).wf(),
        ensures
            final(self).wf(),
            final(self).same_config(old(self)),
            final(self).expressions == old(self).expressions,
            final(self).graph == old(self).graph,
            final(self).expression_store == old(self).expression_store,
            // The expression and its stored run are looked up first.
            r == Err::<(), ArtError>(
                ArtError::ExpressionNotFound { expression_id: id },
            ) <==> !old(self).expressions@.dom().contains(id as u128),
            (old(self).expressions@.dom().contains(id as u128) && !old(self).expression_store.runs().dom().contains(
                old(self).expressions@[id as u128].index as int,
            )) ==> r == Err::<(), ArtError>(ArtError::IndexError),
            // An empty program runs vacuously and moves nothing.
            (old(self).expressions@.dom().contains(id as u128) && old(self).expression_store.runs().dom().contains(
                old(self).expressions@[id as u128].index as int,
            ) && old(self).expression_store.runs()[
                old(self).expressions@[id as u128].index as int
            ].len() == 0) ==> r is Ok && *final(self) == *old(self),
            // A program that ran moved the stack exactly as its
            // instructions prescribe, one by one.
            r is Ok ==> old(self).expressions@.dom().contains(id as u128) && old(self).expression_store.runs().dom().contains(
                old(self).expressions@[id as u128].index as int,
            ) && final(self).stack.pos() == old(self).spec_program_pos(
                id,
                old(self).expression_store.runs()[old(self).expressions@[id as u128].index as int],
                old(self).stack.pos(),
                old(self).constants.block_size as int,
            ),
    {
        let expression = match self.expressions.get(id as u128) {
            Some(e) => e,
            None => {
                return Err(ArtError::ExpressionNotFound { expression_id: id });
            },
        };
        let ops = match self.expression_store.iter(expression.index) {
            Ok(v) => v,
            Err(e) => {
                return Err(e);
            },
        };
        let bs = self.constants.block_size;
        let n = ops.len();
        let mut k: usize = 0;
        let ghost entry = *self;
        while k < n
            invariant
                k <= n,
                n == ops@.len(),
                self.wf(),
                bs == self.constants.block_size,
                0 < bs <= 0x10000,
                old(self).expressions@.dom().contains(id as u128),
                old(self).expression_store.runs().dom().contains(
                    old(self).expressions@[id as u128].index as int,
                ),
                ops@ == old(self).expression_store.runs()[
                    old(self).expressions@[id as u128].index as int
                ],
                n == 0 ==> *self == *old(self),
                self.same_config(&entry),
                entry.same_config(old(self)),
                entry.constants == old(self).constants,
                self.expressions == old(self).expressions,
                self.units == old(self).units,
                self.graph == old(self).graph,
                self.expression_store == old(self).expression_store,
                self.stack.pos() == old(self).spec_program_pos(
                    id,
                    ops@.take(k as int),
                    old(self).stack.pos(),
                    bs as int,
                ),
            decreases n - k,
        {
            let ghost pre_op = *self;
            match ops[k] {
                DspOpcode::Unit { unit_id, .. } => {
                    match self.unit_tick(backend, id, unit_id) {
                        Ok(()) => {},
                        Err(e) => {
                            return Err(e);
                        },
                    }
                    proof {
                        assert(pre_op.spec_unit_io(id, unit_id) == old(self).spec_unit_io(
                            id,
                            unit_id,
                        ));
                    }
                },
                DspOpcode::Add { channels, rate } => {
                    match crate::operators::add(&mut self.stack, channels, rate, bs) {
                        Ok(()) => {},
                        Err(e) => {
                            return Err(e);
                        },
                    }
                },
                DspOpcode::Multiply { channels, rate } => {
                    match crate::operators::multiply(&mut self.stack, channels, rate, bs) {
                        Ok(()) => {},
                        Err(e) => {
                            return Err(e);
                        },
                    }
                },
            }
            proof {
                assert(ops@.take(k as int + 1) =~= ops@.take(k as int).push(ops@[k as int]));
                old(self).lemma_program_pos_push(
                    id,
                    ops@.take(k as int),
                    ops@[k as int],
                    old(self).stack.pos(),
                    bs as int,
                );
            }
            k = k + 1;
        }
        proof {
            assert(ops@.take(n as int) =~= ops@);
        }
        Ok(())
    }

    /// The Run phase: wire up the hardware busses, execute every scheduled
    /// expression in order, and copy the output bus into `output`. An
    /// expression that fails is marked free and the block continues.
    /// Reserve and fill the two hardware bus regions for one block: bus 0
    /// holds a copy of the input block and bus 1 — the output bus — starts
    /// silent. Fails only when the bus stack or bus map cannot hold them.
    pub fn prepare_io_busses(&mut self, input: &Vec<Sample>, dac_len: usize) -> (r: ArtResult<
        (usize, usize),
    >)
        requires
            old(self).wf(),
        ensures
            final(self).wf(),
            final(self).same_config(old(self)),
            final(self).expressions == old(self).expressions,
            final(self).units == old(self).units,
            final(self).parameters == old(self).parameters,
            final(self).graph == old(self).graph,
            final(self).stack == old(self).stack,
            final(self).expression_store == old(self).expression_store,
            final(self).data == old(self).data,
            match r {
                Ok((adc_index, dac_index)) => {
                    &&& adc_index == 0
                    &&& dac_index == input@.len()
                    &&& input@.len() + dac_len <= final(self).busses.view().len()
                    &&& final(self).busses.pos() == input@.len() + dac_len
                    &&& forall|j: int|
                        0 <= j < input@.len() ==> #[trigger] final(self).busses.view()[j]
                            == input@[j]
                    &&& forall|j: int|
                        0 <= j < dac_len ==> #[trigger] final(self).busses.view()[input@.len()
                            + j] == 0
                    &&& final(self).bus_map@ == old(self).bus_map@.insert(0, adc_index).insert(
                        1,
                        dac_index,
                    )
                },
                Err(e) => e == ArtError::StackOverflow || e == ArtError::BufferOverflow,
            },
    {
        self.busses.reset();
        let adc_index = match self.busses.push(input.len()) {
            Ok(i) => i,
            Err(e) => {
                return Err(e);
            },
        };
        let wr = self.busses.write(adc_index, input);
        proof {
            assert(wr is Ok);
        }
        let dac_index = match self.busses.push(dac_len) {
            Ok(i) => i,
            Err(e) => {
                return Err(e);
            },
        };
        let zr = self.busses.zero(dac_index, dac_len);
        proof {
            assert(zr is Ok);
        }
        match self.bus_map.insert(0, adc_index) {
            Ok(()) => {},
            Err(e) => {
                return Err(e);
            },
        }
        match self.bus_map.insert(1, dac_index) {
            Ok(()) => {},
            Err(e) => {
                return Err(e);
            },
        }
        Ok((adc_index, dac_index))
    }

    /// The Run phase: wire up the hardware busses, execute every scheduled
    /// expression in order — each given the scratch stack from the bottom —
    /// and copy the output bus into `output`. An expression that fails is
    /// marked free and the block continues; `Free` and unscheduled
    /// expressions are left exactly as they were.
    fn run_block<B: UnitBackend>(
        &mut self,
        backend: &mut B,
        input: &Vec<Sample>,
        ids: &Vec<u32>,
        scheduled: usize,
        output: &mut Vec<Sample>,
    ) -> (r: ArtResult<()>)
        requires
            old(self).wf(),
            scheduled <= ids@.len(),
        ensures
            final(self).wf(),
            final(self).same_config(old(self)),
            final(self).graph == old(self).graph,
            final(self).expression_store == old(self).expression_store,
            final(self).expressions@.dom() == old(self).expressions@.dom(),
            final(self).expressions.keys() == old(self).expressions.keys(),
            // Expressions outside the scheduled prefix, and free ones,
            // are untouched; a newly freed one was scheduled and failed.
            forall|k: u128|
                old(self).expressions@.dom().contains(k) && !(exists|i: int|
                    0 <= i < scheduled && (#[trigger] ids@[i]) as u128 == k) ==> #[trigger] final(self).expressions@[k] == old(self).expressions@[k],
            forall|k: u128|
                old(self).expressions@.dom().contains(k) && old(self).expressions@[k].state
                    == ExpressionState::Free ==> #[trigger] final(self).expressions@[k] == old(self).expressions@[k],
            forall|k: u128|
                old(self).expressions@.dom().contains(k) && #[trigger] final(self).expressions@[k].state == ExpressionState::Free ==> old(self).expressions@[k].state == ExpressionState::Free || exists|i: int|
                    0 <= i < scheduled && (#[trigger] ids@[i]) as u128 == k,
            // On success the output block is the output bus's final
            // content: the mix of everything the expressions added to it.
            r is Ok ==> final(output)@.len() == old(output)@.len() && final(output)@ == final(self).busses.view().subrange(
                input@.len() as int,
                input@.len() + old(output)@.len() as int,
            ),
    {
        let dac_len = output.len();
        let (_, dac_index) = match self.prepare_io_busses(input, dac_len) {
            Ok(p) => p,
            Err(e) => {
                return Err(e);
            },
        };
        let ghost entry = *self;
        let mut i: usize = 0;
        while i < scheduled
            invariant
                i <= scheduled,
                scheduled <= ids@.len(),
                self.wf(),
                self.same_config(&entry),
                entry.same_config(old(self)),
                self.graph == old(self).graph,
                self.expression_store == old(self).expression_store,
                self.expressions@.dom() == entry.expressions@.dom(),
                self.expressions.keys() == entry.expressions.keys(),
                entry.expressions == old(self).expressions,
                dac_index + dac_len <= self.busses.view().len(),
                forall|k: u128|
                    entry.expressions@.dom().contains(k) && !(exists|i2: int|
                        0 <= i2 < i && (#[trigger] ids@[i2]) as u128 == k)
                        ==> #[trigger] self.expressions@[k] == entry.expressions@[k],
                forall|k: u128|
                    entry.expressions@.dom().contains(k) && entry.expressions@[k].state
                        == ExpressionState::Free ==> #[trigger] self.expressions@[k]
                        == entry.expressions@[k],
                forall|k: u128|
                    entry.expressions@.dom().contains(k) && #[trigger] self.expressions@[k].state
                        == ExpressionState::Free ==> entry.expressions@[k].state
                        == ExpressionState::Free || exists|i2: int|
                        0 <= i2 < i && (#[trigger] ids@[i2]) as u128 == k,
            decreases scheduled - i,
        {
            let ghost before = self.expressions@;
            let id = ids[i];
            match self.expressions.get(id as u128) {
                Some(expression) => {
                    if expression.state == ExpressionState::Run {
                        // Each expression works the scratch stack from the
                        // bottom.
                        self.stack.reset();
                        match self.expression_tick(backend, id) {
                            Ok(()) => {},
                            Err(_) => {
                                // A failed expression is freed, never the
                                // whole block.
                                match self.expressions.get(id as u128) {
                                    Some(mut e2) => {
                                        e2.state = ExpressionState::Free;
                                        let rm = self.expressions.insert(id as u128, e2);
                                        proof {
                                            assert(rm is Ok);
                                        }
                                    },
                                    None => {},
                                }
                            },
                        }
                    }
                },
                None => {},
            }
            proof {
                assert forall|k: u128|
                    entry.expressions@.dom().contains(k) && !(exists|i2: int|
                        0 <= i2 < i + 1 && (#[trigger] ids@[i2]) as u128 == k)
                        implies #[trigger] self.expressions@[k] == entry.expressions@[k] by {
                    assert(k != id as u128);
                    assert(self.expressions@[k] == before[k]);
                    assert(!(exists|i2: int| 0 <= i2 < i && (#[trigger] ids@[i2]) as u128 == k));
                }
                assert forall|k: u128|
                    entry.expressions@.dom().contains(k) && #[trigger] self.expressions@[k].state
                        == ExpressionState::Free implies entry.expressions@[k].state
                        == ExpressionState::Free || exists|i2: int|
                        0 <= i2 < i + 1 && (#[trigger] ids@[i2]) as u128 == k by {
                    if k == id as u128 {
                        assert(ids@[i as int] as u128 == k);
                    } else {
                        assert(self.expressions@[k] == before[k]);
                    }
                }
            }
            i = i + 1;
        }
        let out = match self.busses.read(dac_index, dac_len) {
            Ok(v) => v,
            Err(e) => {
                return Err(e);
            },
        };
        *output = out;
        proof {
            assert(output@ =~= self.busses.view().subrange(
                input@.len() as int,
                input@.len() + dac_len as int,
            ));
        }
        Ok(())
    }

    /// Release everything a freed expression holds: its opcode run, and,
    /// for every unit instruction of that run, the unit, its parameter
    /// slots and its private-state run.
    fn free_expression(&mut self, expression: Expression)
        requires
            old(self).wf(),
        ensures
            final(self).wf(),
            final(self).same_config(old(self)),
            final(self).graph == old(self).graph,
            final(self).bus_map == old(self).bus_map,
            final(self).stack == old(self).stack,
            final(self).busses == old(self).busses,
            final(self).expressions@ == old(self).expressions@.remove(expression.id as u128),
            forall|k: u128|
                final(self).units@.dom().contains(k) ==> old(self).units@.dom().contains(k),
            forall|k: u128|
                final(self).parameters@.dom().contains(k) ==> old(self).parameters@.dom().contains(k),
            // The opcode run is gone, and nothing else in the store moved.
            !final(self).expression_store.runs().dom().contains(expression.index as int),
            forall|s: int|
                #[trigger] final(self).expression_store.runs().dom().contains(s) ==> old(self).expression_store.runs().dom().contains(s) && final(self).expression_store.runs()[s] == old(self).expression_store.runs()[s],
            // Every unit the run declared is released with its parameters.
            old(self).expression_store.runs().dom().contains(expression.index as int)
                ==> (forall|j: int|
                0 <= j < old(self).expression_store.runs()[expression.index as int].len() && old(self).expression_store.runs()[expression.index as int][j] is Unit ==> !final(self).units@.dom().contains(
                    #[trigger] spec_key2(
                        expression.id,
                        old(self).expression_store.runs()[expression.index as int][j]->Unit_unit_id,
                    ),
                )),
            old(self).expression_store.runs().dom().contains(expression.index as int)
                ==> (forall|j: int, p2: int|
                0 <= j < old(self).expression_store.runs()[expression.index as int].len() && old(self).expression_store.runs()[expression.index as int][j] is Unit && 0 <= p2 < 4
                    ==> !final(self).parameters@.dom().contains(
                    #[trigger] spec_key3(
                        expression.id,
                        old(self).expression_store.runs()[expression.index as int][j]->Unit_unit_id,
                        p2 as u32,
                    ),
                )),
    {
        let ghost entry = *self;
        match self.expression_store.iter(expression.index) {
            Ok(ops) => {
                let n = ops.len();
                let mut k: usize = 0;
                while k < n
                    invariant
                        k <= n,
                        n == ops@.len(),
                        self.wf(),
                        entry == *old(self),
                        ops@ == entry.expression_store.runs()[expression.index as int],
                        entry.expression_store.runs().dom().contains(expression.index as int),
                        self.same_config(&entry),
                        self.expressions == entry.expressions,
                        self.graph == entry.graph,
                        self.bus_map == entry.bus_map,
                        self.stack == entry.stack,
                        self.busses == entry.busses,
                        self.expression_store == entry.expression_store,
                        forall|q: u128|
                            self.units@.dom().contains(q) ==> entry.units@.dom().contains(q),
                        forall|q: u128|
                            self.parameters@.dom().contains(q) ==> entry.parameters@.dom().contains(
                                q,
                            ),
                        forall|j: int|
                            0 <= j < k && ops@[j] is Unit ==> !self.units@.dom().contains(
                                #[trigger] spec_key2(expression.id, ops@[j]->Unit_unit_id),
                            ),
                        forall|j: int, p2: int|
                            0 <= j < k && ops@[j] is Unit && 0 <= p2 < 4
                                ==> !self.parameters@.dom().contains(
                                #[trigger] spec_key3(
                                    expression.id,
                                    ops@[j]->Unit_unit_id,
                                    p2 as u32,
                                ),
                            ),
                    decreases n - k,
                {
                    if let DspOpcode::Unit { unit_id, .. } = ops[k] {
                        match self.units.remove(key2(expression.id, unit_id)) {
                            Some(unit) => {
                                if let Some(di) = unit.data_index {
                                    let _ = self.data.free(di);
                                }
                            },
                            None => {},
                        }
                        let mut p: u32 = 0;
                        while p < 4
                            invariant
                                p <= 4,
                                k < n,
                                n == ops@.len(),
                                ops@[k as int] is Unit,
                                unit_id == ops@[k as int]->Unit_unit_id,
                                self.wf(),
                                entry == *old(self),
                                ops@ == entry.expression_store.runs()[expression.index as int],
                                entry.expression_store.runs().dom().contains(
                                    expression.index as int,
                                ),
                                self.same_config(&entry),
                                self.expressions == entry.expressions,
                                self.graph == entry.graph,
                                self.bus_map == entry.bus_map,
                                self.stack == entry.stack,
                                self.busses == entry.busses,
                                self.expression_store == entry.expression_store,
                                !self.units@.dom().contains(spec_key2(expression.id, unit_id)),
                                forall|q: u128|
                                    self.units@.dom().contains(q) ==> entry.units@.dom().contains(
                                        q,
                                    ),
                                forall|q: u128|
                                    self.parameters@.dom().contains(q)
                                        ==> entry.parameters@.dom().contains(q),
                                forall|j: int|
                                    0 <= j < k && ops@[j] is Unit ==> !self.units@.dom().contains(
                                        #[trigger] spec_key2(expression.id, ops@[j]->Unit_unit_id),
                                    ),
                                forall|j: int, p2: int|
                                    0 <= j < k && ops@[j] is Unit && 0 <= p2 < 4
                                        ==> !self.parameters@.dom().contains(
                                        #[trigger] spec_key3(
                                            expression.id,
                                            ops@[j]->Unit_unit_id,
                                            p2 as u32,
                                        ),
                                    ),
                                forall|p2: int|
                                    0 <= p2 < p ==> !self.parameters@.dom().contains(
                                        #[trigger] spec_key3(expression.id, unit_id, p2 as u32),
                                    ),
                            decreases 4 - p,
                        {
                            let _ = self.parameters.remove(key3(expression.id, unit_id, p));
                            p = p + 1;
                        }
                    }
                    k = k + 1;
                }
            },
            Err(_) => {},
        }
        let _ = self.expression_store.free(expression.index);
        let ghost before = self.expressions;
        let removed = self.expressions.remove(expression.id as u128);
        proof {
            if removed is None {
                assert(self.expressions@ =~= old(self).expressions@.remove(
                    expression.id as u128,
                ));
            } else {
                assert forall|i2: int|
                    0 <= i2 < self.expressions.keys().len() implies #[trigger] self.expressions.keys()[i2]
                    < 0x1_0000_0000 by {
                    assert(self.expressions.keys().contains(self.expressions.keys()[i2]));
                    assert(before.keys().contains(self.expressions.keys()[i2]));
                    let j = choose|j: int|
                        0 <= j < before.keys().len() && before.keys()[j]
                            == self.expressions.keys()[i2];
                }
            }
        }
    }

    /// The Reclaim phase: free every expression marked free, then drop the
    /// transient edge list and bus map and rewind both sample stacks.
    pub fn clean(&mut self)
        requires
            old(self).wf(),
        ensures
            final(self).wf(),
            final(self).same_config(old(self)),
            final(self).graph@ == Seq::<crate::graph::Edge>::empty(),
            final(self).bus_map@ == Map::<u128, usize>::empty(),
            final(self).stack.pos() == 0,
            final(self).busses.pos() == 0,
            final(self).busses.view() == old(self).busses.view(),
            forall|k: u128|
                final(self).expressions@.dom().contains(k) <==> (old(self).expressions@.dom().contains(k) && old(self).expressions@[k].state
                    == ExpressionState::Run),
            forall|k: u128|
                final(self).expressions@.dom().contains(k) ==> final(self).expressions@[k] == old(self).expressions@[k],
            // Reclaim releases every freed expression's opcode run, and
            // the store only shrinks.
            forall|k: u128|
                old(self).expressions@.dom().contains(k) && (#[trigger] old(self).expressions@[k]).state
                    == ExpressionState::Free ==> !final(self).expression_store.runs().dom().contains(
                    old(self).expressions@[k].index as int,
                ),
            forall|s: int|
                final(self).expression_store.runs().dom().contains(s) ==> old(
                    self,
                ).expression_store.runs().dom().contains(s) && final(self).expression_store.runs()[s]
                    == old(self).expression_store.runs()[s],
    {
        let keys = self.expressions.key_list();
        proof {
            self.expressions.lemma_dom();
            self.expressions.lemma_keys_unique();
        }
        let n = keys.len();
        let ghost entry = *self;
        let mut i: usize = 0;
        while i < n
            invariant
                i <= n,
                n == keys@.len(),
                keys@ == entry.expressions.keys(),
                entry.wf(),
                self.wf(),
                self.same_config(&entry),
                self.graph == entry.graph,
                self.bus_map == entry.bus_map,
                self.busses == entry.busses,
                self.stack == entry.stack,
                forall|a: int, b: int|
                    0 <= a < b < keys@.len() ==> #[trigger] keys@[a] != #[trigger] keys@[b],
                forall|k: u128|
                    self.expressions@.dom().contains(k) <==> (entry.expressions@.dom().contains(k)
                        && (entry.expressions@[k].state == ExpressionState::Run || exists|j: int|
                        i <= j < keys@.len() && keys@[j] == k)),
                forall|k: u128|
                    self.expressions@.dom().contains(k) ==> #[trigger] self.expressions@[k]
                        == entry.expressions@[k],
                forall|s: int|
                    #[trigger] self.expression_store.runs().dom().contains(s)
                        ==> entry.expression_store.runs().dom().contains(s)
                        && self.expression_store.runs()[s] == entry.expression_store.runs()[s],
                forall|k2: u128|
                    entry.expressions@.dom().contains(k2) && (#[trigger] entry.expressions@[k2]).state
                        == ExpressionState::Free && !(exists|j: int|
                        i <= j < keys@.len() && keys@[j] == k2)
                        ==> !self.expression_store.runs().dom().contains(
                        entry.expressions@[k2].index as int,
                    ),
            decreases n - i,
        {
            let key = keys[i];
            let ghost before = self.expressions@;
            let ghost before_store = self.expression_store;
            let ghost freed = {
                before.dom().contains(key) && before[key].state == ExpressionState::Free
            };
            match self.expressions.get(key) {
                Some(expression) => {
                    if expression.state == ExpressionState::Free {
                        proof {
                            assert(expression.id as u128 == key);
                        }
                        self.free_expression(expression);
                        proof {
                            assert(self.expressions@ =~= before.remove(key));
                        }
                    }
                },
                None => {},
            }
            proof {
                let after = self.expressions@;
                assert forall|k: u128| after.dom().contains(k) implies (
                entry.expressions@.dom().contains(k) && (entry.expressions@[k].state
                    == ExpressionState::Run || exists|j: int|
                    i + 1 <= j < keys@.len() && keys@[j] == k)) by {
                    assert(before.dom().contains(k)) by {
                        if freed {
                            assert(after =~= before.remove(key));
                        }
                    }
                    assert(entry.expressions@.dom().contains(k));
                    if entry.expressions@[k].state != ExpressionState::Run {
                        assert(exists|j: int| i <= j < keys@.len() && keys@[j] == k);
                        let j = choose|j: int| i <= j < keys@.len() && keys@[j] == k;
                        if j == i {
                            assert(keys@[i as int] == key);
                            assert(k == key);
                            assert(before[k] == entry.expressions@[k]);
                            assert(freed);
                            assert(after =~= before.remove(key));
                            assert(!after.dom().contains(k));
                            assert(false);
                        }
                        assert(i + 1 <= j < keys@.len() && keys@[j] == k);
                    }
                }
                assert forall|s2: int|
                    self.expression_store.runs().dom().contains(s2)
                        implies entry.expression_store.runs().dom().contains(s2)
                        && self.expression_store.runs()[s2] == entry.expression_store.runs()[s2] by {
                    if !freed {
                        assert(self.expression_store == before_store);
                    }
                    assert(before_store.runs().dom().contains(s2)
                        && self.expression_store.runs()[s2] == before_store.runs()[s2]);
                }
                assert forall|k2: u128|
                    entry.expressions@.dom().contains(k2) && (#[trigger] entry.expressions@[k2]).state
                        == ExpressionState::Free && !(exists|j: int|
                        i + 1 <= j < keys@.len() && keys@[j] == k2)
                        implies !self.expression_store.runs().dom().contains(
                        entry.expressions@[k2].index as int,
                    ) by {
                    if k2 == key {
                        assert(before[k2] == entry.expressions@[k2]);
                        assert(freed);
                    } else {
                        assert(!(exists|j: int| i <= j < keys@.len() && keys@[j] == k2)) by {
                            if exists|j: int| i <= j < keys@.len() && keys@[j] == k2 {
                                let j = choose|j: int| i <= j < keys@.len() && keys@[j] == k2;
                                assert(keys@[i as int] == key);
                                assert(j == i);
                            }
                        }
                        assert(!before_store.runs().dom().contains(
                            entry.expressions@[k2].index as int,
                        ));
                    }
                }
                assert forall|k: u128|
                    (entry.expressions@.dom().contains(k) && (entry.expressions@[k].state
                        == ExpressionState::Run || exists|j: int|
                        i + 1 <= j < keys@.len() && keys@[j] == k))
                    implies self.expressions@.dom().contains(k) by {
                    if entry.expressions@[k].state != ExpressionState::Run {
                        let j0 = choose|j: int| i + 1 <= j < keys@.len() && keys@[j] == k;
                        assert(i <= j0 < keys@.len() && keys@[j0] == k);
                        assert(exists|j: int| i <= j < keys@.len() && keys@[j] == k);
                    }
                    assert(before.dom().contains(k));
                    if freed {
                        assert(self.expressions@ =~= before.remove(key));
                        if k == key {
                            assert(before[k] == entry.expressions@[k]);
                            if entry.expressions@[k].state == ExpressionState::Run {
                                assert(false);
                            } else {
                                let j = choose|j: int|
                                    i + 1 <= j < keys@.len() && keys@[j] == k;
                                assert(keys@[i as int] == key);
                                assert(keys@[j] != keys@[i as int]);
                                assert(false);
                            }
                        }
                    }
                }
            }
            i = i + 1;
        }
        self.graph.clear();
        self.bus_map.clear();
        self.stack.reset();
        self.busses.reset();
    }

    /// The Read phase: decode and apply each command of one bytecode
    /// message, stopping at the first decode failure or rejected command.
    pub fn process(&mut self, bytecode: &Vec<u8>) -> (r: ArtResult<()>)
        requires
            old(self).wf(),
        ensures
            final(self).wf(),
            final(self).same_config(old(self)),
            final(self).stack == old(self).stack,
            final(self).busses == old(self).busses,
            final(self).bus_map == old(self).bus_map,
            bytecode@.len() == 0 ==> r is Ok && *final(self) == *old(self),
            r is Ok && bytecode@.len() > 0 ==> crate::opcode_reader::spec_decode_control(
                bytecode@,
                0,
            ) is Some,
            // A message holding exactly one command acts exactly as that
            // command's own function.
            crate::opcode_reader::spec_decode_control(bytecode@, 0) matches Some((op, end)) ==> (
            end == bytecode@.len() ==> {
                &&& (op matches ControlOpcode::SetParameter {
                    expression_id,
                    unit_id,
                    parameter_id,
                    value,
                } ==> spec_set_parameter_applied(
                    *old(self),
                    *final(self),
                    expression_id,
                    unit_id,
                    parameter_id,
                    value,
                    r,
                ))
                &&& (op matches ControlOpcode::RemoveExpression { expression_id }
                    ==> spec_remove_expression_applied(*old(self), *final(self), expression_id, r))
                &&& (op matches ControlOpcode::AddEdge { from, to } ==> spec_add_edge_applied(
                    *old(self),
                    *final(self),
                    from,
                    to,
                    r,
                ))
            }),
            crate::opcode_reader::spec_decode_control(bytecode@, 0) matches Some((op, end)) ==> (
            op matches ControlOpcode::AddExpression { expression_id, num_opcodes } ==> (
            crate::opcode_reader::spec_decode_program(bytecode@, end, num_opcodes as int) matches Some(d2) ==> (
            d2.1 == bytecode@.len() ==> spec_add_expression_applied(
                *old(self),
                *final(self),
                expression_id,
                d2.0,
                r,
            )))),
    {
        let n = bytecode.len();
        if n == 0 {
            return Ok(());
        }
        let mut pos: usize = 0;
        let ghost entry = *self;
        while pos < n
            invariant
                pos <= n,
                n == bytecode@.len(),
                self.wf(),
                self.same_config(&entry),
                entry.same_config(old(self)),
                self.stack == old(self).stack,
                self.busses == old(self).busses,
                self.bus_map == old(self).bus_map,
                n > 0 && pos > 0 ==> crate::opcode_reader::spec_decode_control(
                    bytecode@,
                    0,
                ) is Some,
                pos == 0 ==> *self == *old(self),
                crate::opcode_reader::spec_decode_control(bytecode@, 0) matches Some((op, end))
                    ==> (end == bytecode@.len() ==> (pos == 0 || pos == end)),
                crate::opcode_reader::spec_decode_control(bytecode@, 0) matches Some((op, end)) ==> (
                end == bytecode@.len() && pos == end ==> {
                    &&& (op matches ControlOpcode::SetParameter {
                        expression_id,
                        unit_id,
                        parameter_id,
                        value,
                    } ==> spec_set_parameter_applied(
                        *old(self),
                        *self,
                        expression_id,
                        unit_id,
                        parameter_id,
                        value,
                        Ok(()),
                    ))
                    &&& (op matches ControlOpcode::RemoveExpression { expression_id }
                        ==> spec_remove_expression_applied(
                        *old(self),
                        *self,
                        expression_id,
                        Ok(()),
                    ))
                    &&& (op matches ControlOpcode::AddEdge { from, to }
                        ==> spec_add_edge_applied(*old(self), *self, from, to, Ok(())))
                }),
                crate::opcode_reader::spec_decode_control(bytecode@, 0) matches Some((op, end))
                    ==> (op matches ControlOpcode::AddExpression { expression_id, num_opcodes }
                    ==> (crate::opcode_reader::spec_decode_program(
                    bytecode@,
                    end,
                    num_opcodes as int,
                ) matches Some(d2) ==> (d2.1 == bytecode@.len() ==> (pos == 0 || pos == d2.1)))),
                crate::opcode_reader::spec_decode_control(bytecode@, 0) matches Some((op, end))
                    ==> (op matches ControlOpcode::AddExpression { expression_id, num_opcodes }
                    ==> (crate::opcode_reader::spec_decode_program(
                    bytecode@,
                    end,
                    num_opcodes as int,
                ) matches Some(d2) ==> (d2.1 == bytecode@.len() && pos == d2.1
                    ==> spec_add_expression_applied(
                    *old(self),
                    *self,
                    expression_id,
                    d2.0,
                    Ok(()),
                )))),
            decreases n - pos,
        {
            let (op, next) = match read_control_opcode(bytecode, pos) {
                Ok(v) => v,
                Err(e) => {
                    return Err(e);
                },
            };
            let newpos: usize = match op {
                ControlOpcode::SetParameter { expression_id, unit_id, parameter_id, value } => {
                    match self.set_parameter(expression_id, unit_id, parameter_id, value) {
                        Ok(()) => {},
                        Err(e) => {
                            return Err(e);
                        },
                    }
                    next
                },
                ControlOpcode::AddExpression { expression_id, num_opcodes } => {
                    let (ops, after) = match read_expression_program(bytecode, next, num_opcodes) {
                        Ok(v) => v,
                        Err(e) => {
                            return Err(e);
                        },
                    };
                    match self.add_expression(expression_id, &ops) {
                        Ok(()) => {},
                        Err(e) => {
                            return Err(e);
                        },
                    }
                    proof {
                        crate::opcode_reader::lemma_decode_program_advances(
                            bytecode@,
                            next as int,
                            num_opcodes as int,
                        );
                    }
                    after
                },
                ControlOpcode::RemoveExpression { expression_id } => {
                    match self.remove_expression(expression_id) {
                        Ok(()) => {},
                        Err(e) => {
                            return Err(e);
                        },
                    }
                    next
                },
                ControlOpcode::AddEdge { from, to } => {
                    match self.graph.add_edge(from, to) {
                        Ok(()) => {},
                        Err(e) => {
                            return Err(e);
                        },
                    }
                    next
                },
            };
            pos = newpos;
        }
        Ok(())
    }

    /// One audio block: Read (apply the message's commands, if any), Sort
    /// (order the expressions by their dependencies), Run (execute the
    /// scheduled ones), Reclaim (release whatever was freed).
    ///
    /// A failed command or expression never aborts the block: the block
    /// still runs and is reclaimed, and the first such error — a rejected
    /// command, or bus space too small for the hardware blocks — is
    /// returned for the host to log.
    pub fn tick<B: UnitBackend>(
        &mut self,
        backend: &mut B,
        bytecode: &Vec<u8>,
        input: &Vec<Sample>,
        output: &mut Vec<Sample>,
    ) -> (r: ArtResult<()>)
        requires
            old(self).wf(),
        ensures
            final(self).wf(),
            final(self).same_config(old(self)),
            final(self).graph@ == Seq::<crate::graph::Edge>::empty(),
            final(self).bus_map@ == Map::<u128, usize>::empty(),
            final(self).stack.pos() == 0,
            final(self).busses.pos() == 0,
            // The machine ends the block ready to read again: whatever
            // was freed has been reclaimed, so only running expressions
            // survive.
            forall|k: u128|
                final(self).expressions@.dom().contains(k) ==> (#[trigger] final(self).expressions@[k]).state == ExpressionState::Run,
            // On a fully clean block the output is the output bus's final
            // content — the mix of every block the expressions added.
            r is Ok ==> final(output)@.len() == old(output)@.len() && final(output)@ == final(self).busses.view().subrange(
                input@.len() as int,
                input@.len() + old(output)@.len() as int,
            ),
    {
        let read_result = if bytecode.len() > 0 {
            self.process(bytecode)
        } else {
            Ok(())
        };
        let keys = self.expressions.key_list();
        let mut nodes: Vec<u32> = Vec::new();
        let n = keys.len();
        let mut i: usize = 0;
        while i < n
            invariant
                i <= n,
                n == keys@.len(),
                keys@ == self.expressions.keys(),
                self.wf(),
                nodes@.len() == i,
                forall|j: int| 0 <= j < i ==> (#[trigger] nodes@[j]) as u128 == keys@[j],
            decreases n - i,
        {
            proof {
                assert(keys@[i as int] < 0x1_0000_0000);
            }
            nodes.push(keys[i] as u32);
            i = i + 1;
        }
        let ghost presort = *self;
        let scheduled = self.graph.topological_sort(&mut self.expressions, &mut nodes);
        proof {
            assert forall|k: u128| self.expressions@.dom().contains(k) implies (
            #[trigger] self.expressions@[k]).id as u128 == k by {
                assert(crate::expression::eq_except_edges(
                    self.expressions@[k],
                    presort.expressions@[k],
                ));
            }
            assert(self.wf());
        }
        let run_result = self.run_block(backend, input, &nodes, scheduled, output);
        self.clean();
        match run_result {
            Ok(()) => read_result,
            Err(e) => Err(e),
        }
    }
}

} // verus!
