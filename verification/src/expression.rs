use vstd::prelude::*;

verus! {

/// Whether an expression runs on the next block or is awaiting reclaim.
#[derive(Clone, Copy, Debug, PartialEq, Eq, Structural)]
pub enum ExpressionState {
    Run,
    Free,
}

/// One admitted signal program: its id, where its opcode run lives in the
/// opcode arena, its scheduling counter and its lifecycle state.
#[derive(Clone, Copy, Debug, PartialEq, Eq, Structural)]
pub struct Expression {
    pub id: u32,
    pub index: usize,
    pub num_opcodes: usize,
    pub incoming_edges: u32,
    pub state: ExpressionState,
}

impl Expression {
    /// A freshly admitted expression, ready to run, with no incoming edges
    /// counted yet.
    pub fn new(id: u32, index: usize, num_opcodes: usize) -> (r: Expression)
        ensures
            r == (Expression {
                id,
                index,
                num_opcodes,
                incoming_edges: 0,
                state: ExpressionState::Run,
            }),
    {
        Expression { id, index, num_opcodes, incoming_edges: 0, state: ExpressionState::Run }
    }
}

/// Everything about two expressions agrees except the scheduling counter,
/// which the scheduler alone maintains.
pub open spec fn eq_except_edges(a: Expression, b: Expression) -> bool {
    &&& a.id == b.id
    &&& a.index == b.index
    &&& a.num_opcodes == b.num_opcodes
    &&& a.state == b.state
}

} // verus!
