//! How long a tree can grow: a bound on the draws that a builder accepts.

use vstd::prelude::*;
use crate::expr::{applied, Node};
use crate::growth::effective;
use crate::machine::{
    deliver, leaf_at, lemma_step_keeps_depth, operator_at, Draw, Frame, Machine, Phase, Request,
};

verus! {

/// The most draws that a node takes which may have the given depth: two for
/// a terminal, and for any other node its chance, its operator, and the
/// draws of four operands.
pub open spec fn cost(level: int) -> nat
    decreases effective(level),
{
    if level <= 0 {
        2
    } else {
        2 + 4 * cost(level - 1)
    }
}

/// The most draws that the operands take which the open operators still
/// lack, but for the one that is growing now.
pub open spec fn owed(depth: int, frames: Seq<Frame>) -> int
    decreases frames.len(),
{
    if frames.len() == 0 {
        0
    } else {
        let top = frames.last();
        owed(depth, frames.drop_last()) + (top.operator.arity() - top.operands.len() - 1) * cost(
            depth - frames.len(),
        )
    }
}

impl Machine {
    /// The most draws that the machine still accepts.
    pub open spec fn budget(self) -> int {
        owed(self.depth, self.frames) + match self.phase {
            Phase::Waiting(Request::Chance) => cost(self.level()) as int,
            Phase::Waiting(Request::Terminal) => 2,
            Phase::Waiting(Request::Number) => 1,
            Phase::Waiting(Request::Operator) => (1 + 4 * cost(self.level() - 1)) as int,
            Phase::Finished(_) => 0,
        }
    }
}

/// A node takes two draws at least.
proof fn lemma_cost_at_least_two(level: int)
    ensures
        cost(level) >= 2,
    decreases effective(level),
{
    if level > 0 {
        lemma_cost_at_least_two(level - 1);
    }
}

/// Nothing is owed less than nothing where every open operator lacks an
/// operand.
proof fn lemma_owed_not_negative(depth: int, frames: Seq<Frame>)
    requires
        forall|i: int|
            0 <= i < frames.len() ==> (#[trigger] frames[i]).operands.len()
                < frames[i].operator.arity(),
    ensures
        owed(depth, frames) >= 0,
    decreases frames.len(),
{
    if frames.len() > 0 {
        let top = frames.last();
        let front = frames.drop_last();
        assert forall|i: int| 0 <= i < front.len() implies (#[trigger] front[i]).operands.len()
            < front[i].operator.arity() by {
            assert(front[i] == frames[i]);
        }
        lemma_owed_not_negative(depth, front);
        assert((top.operator.arity() - top.operands.len() - 1) * cost(depth - frames.len()) >= 0)
            by (nonlinear_arith)
            requires
                top.operator.arity() - top.operands.len() - 1 >= 0,
        ;
    }
}

/// A finished node leaves no more to be drawn than was owed before it.
proof fn lemma_deliver_within_owed(depth: int, frames: Seq<Frame>, node: Node)
    requires
        forall|i: int|
            0 <= i < frames.len() ==> (#[trigger] frames[i]).operands.len()
                < frames[i].operator.arity(),
    ensures
        deliver(depth, frames, node).wf(),
        deliver(depth, frames, node).budget() <= owed(depth, frames),
    decreases frames.len(),
{
    if frames.len() > 0 {
        let top = frames.last();
        let front = frames.drop_last();
        let operands = top.operands.push(node);
        let level = depth - frames.len();
        assert forall|i: int| 0 <= i < front.len() implies (#[trigger] front[i]).operands.len()
            < front[i].operator.arity() by {
            assert(front[i] == frames[i]);
        }
        if operands.len() >= top.operator.arity() {
            lemma_deliver_within_owed(depth, front, applied(top.operator, operands));
            assert((top.operator.arity() - top.operands.len() - 1) * cost(level) == 0)
                by (nonlinear_arith)
                requires
                    top.operator.arity() - top.operands.len() - 1 == 0,
            ;
        } else {
            let next = front.push(Frame { operator: top.operator, operands });
            assert(next.drop_last() =~= front);
            lemma_cost_at_least_two(level);
            assert((top.operator.arity() - operands.len() - 1) * cost(level) + cost(level) == (
            top.operator.arity() - top.operands.len() - 1) * cost(level)) by (nonlinear_arith)
                requires
                    operands.len() == top.operands.len() + 1,
            ;
            assert(deliver(depth, frames, node) == Machine::opened(depth, next));
            assert forall|i: int| 0 <= i < next.len() implies (#[trigger] next[i]).operands.len()
                < next[i].operator.arity() by {
                if i < front.len() {
                    assert(next[i] == frames[i]);
                }
            }
        }
    }
}

/// Every draw that a machine accepts leaves it one less, at least, to
/// accept.
pub proof fn lemma_step_spends(machine: Machine, draw: Draw)
    requires
        machine.wf(),
        machine.accepts(draw),
    ensures
        machine.step(draw).wf(),
        machine.step(draw).budget() < machine.budget(),
{
    let depth = machine.depth;
    let frames = machine.frames;
    let level = machine.level();
    lemma_cost_at_least_two(level);
    lemma_cost_at_least_two(level - 1);
    match draw {
        Draw::Chance(bits) => {},
        Draw::Choice(index) => {
            if machine.phase == Phase::Waiting(Request::Terminal) {
                lemma_deliver_within_owed(depth, frames, leaf_at(index as int));
            } else {
                let operator = operator_at(index as int);
                let next = frames.push(Frame { operator, operands: Seq::empty() });
                assert(next.drop_last() =~= frames);
                assert((operator.arity() - 0 - 1) * cost(level - 1) + cost(level - 1) <= 4 * cost(
                    level - 1,
                )) by (nonlinear_arith)
                    requires
                        1 <= operator.arity() <= 4,
                ;
                assert forall|i: int| 0 <= i < next.len() implies (#[trigger] next[i]).operands.len()
                    < next[i].operator.arity() by {
                    if i < frames.len() {
                        assert(next[i] == frames[i]);
                    }
                }
            }
        },
        Draw::Number(constant) => {
            lemma_deliver_within_owed(depth, frames, Node::Number(constant));
        },
    }
}

/// A machine accepts no more draws in a row than its budget.
pub proof fn lemma_draws_within_budget(machine: Machine, draws: Seq<Draw>)
    requires
        machine.wf(),
        machine.accepts_all(draws),
    ensures
        machine.run(draws).wf(),
        draws.len() + machine.run(draws).budget() <= machine.budget(),
    decreases draws.len(),
{
    if draws.len() > 0 {
        lemma_step_spends(machine, draws.first());
        lemma_draws_within_budget(machine.step(draws.first()), draws.drop_first());
    }
}

/// No row of draws changes the depth of the tree.
proof fn lemma_run_keeps_depth(machine: Machine, draws: Seq<Draw>)
    ensures
        machine.run(draws).depth == machine.depth,
    decreases draws.len(),
{
    if draws.len() > 0 {
        lemma_step_keeps_depth(machine, draws.first());
        lemma_run_keeps_depth(machine.step(draws.first()), draws.drop_first());
    }
}

/// No tree takes more draws than the cost of its depth: a builder that has
/// accepted so many is finished.
pub proof fn lemma_growth_ends(depth: int, draws: Seq<Draw>)
    requires
        Machine::start(depth).accepts_all(draws),
    ensures
        draws.len() <= cost(depth),
        draws.len() == cost(depth) ==> Machine::start(depth).run(draws).phase is Finished,
{
    let start = Machine::start(depth);
    lemma_cost_at_least_two(depth);
    assert(start.wf());
    assert(owed(depth, start.frames) == 0);
    assert(start.budget() == cost(depth));
    lemma_draws_within_budget(start, draws);
    let end = start.run(draws);
    lemma_run_keeps_depth(start, draws);
    lemma_owed_not_negative(depth, end.frames);
    lemma_cost_at_least_two(end.level());
    lemma_cost_at_least_two(end.level() - 1);
}

} // verus!
