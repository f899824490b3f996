//! Growing a tree out of random draws, one draw at a time: the states that
//! the growth goes through, and what each draw does to a state.

use vstd::prelude::*;
use crate::expr::{applied, Constant, Node, Operator};
use crate::single::{at_most_one, in_unit_interval, under_a_tenth};

verus! {

/// The greatest index of a choice among the terminals `x`, `y`, `t` and a
/// constant.
pub const LAST_TERMINAL: i32 = 3;

/// The greatest index of a choice among the nine operators.
pub const LAST_OPERATOR: i32 = 8;

/// The draw that a builder waits for.
#[derive(Clone, Copy, Debug, PartialEq, Eq)]
pub enum Request {
    /// A number drawn uniformly from zero (included) to one (excluded): a
    /// node stops early, as a terminal, when it is less than one tenth.
    Chance,
    /// An index drawn uniformly from 0 to `LAST_TERMINAL`.
    Terminal,
    /// A number drawn uniformly from minus one to one, both included: the
    /// value of a constant.
    Number,
    /// An index drawn uniformly from 0 to `LAST_OPERATOR`.
    Operator,
}

/// A draw from the random stream.
#[derive(Debug, PartialEq)]
pub enum Draw {
    /// The bit pattern of a single-precision number from zero to one.
    Chance(u32),
    /// An index.
    Choice(i32),
    /// A number from minus one to one, with its spelling.
    Number(Constant),
}

/// An operator whose operands are still being grown.
pub struct Frame {
    pub operator: Operator,
    /// The operands grown so far, in order.
    pub operands: Seq<Node>,
}

/// Whether a tree is still growing.
#[derive(Debug, PartialEq)]
pub enum Phase {
    /// The tree is growing, and this draw is the next.
    Waiting(Request),
    /// The tree has grown.
    Finished(Node),
}

/// The state of a builder.
pub struct Machine {
    /// The depth that the whole tree may have.
    pub depth: int,
    /// The operators that are open, outermost first.
    pub frames: Seq<Frame>,
    /// What the builder waits for, or the tree.
    pub phase: Phase,
}

/// The draw that opens a node which may still have the given depth: a
/// node without depth left is a terminal at once, any other takes its
/// chance first.
pub open spec fn opening(level: int) -> Request {
    if level <= 0 {
        Request::Terminal
    } else {
        Request::Chance
    }
}

/// The terminal with the given index, but for the constant.
pub open spec fn leaf_at(index: int) -> Node {
    if index == 0 {
        Node::X
    } else if index == 1 {
        Node::Y
    } else {
        Node::T
    }
}

/// The operator with the given index.
pub open spec fn operator_at(index: int) -> Operator {
    if index == 0 {
        Operator::Add
    } else if index == 1 {
        Operator::Mult
    } else if index == 2 {
        Operator::Mod
    } else if index == 3 {
        Operator::Div
    } else if index == 4 {
        Operator::Sqrt
    } else if index == 5 {
        Operator::Sin
    } else if index == 6 {
        Operator::Cos
    } else if index == 7 {
        Operator::Average
    } else {
        Operator::Mix
    }
}

/// The state after a node has been finished below the open operators: the
/// node becomes the next operand of the innermost one, which is finished in
/// its turn when that was its last operand; with no operator open, the node
/// is the whole tree.
pub open spec fn deliver(depth: int, frames: Seq<Frame>, node: Node) -> Machine
    decreases frames.len(),
{
    if frames.len() == 0 {
        Machine { depth, frames, phase: Phase::Finished(node) }
    } else {
        let top = frames.last();
        let operands = top.operands.push(node);
        if operands.len() >= top.operator.arity() {
            deliver(depth, frames.drop_last(), applied(top.operator, operands))
        } else {
            Machine {
                depth,
                frames: frames.drop_last().push(Frame { operator: top.operator, operands }),
                phase: Phase::Waiting(opening(depth - frames.len())),
            }
        }
    }
}

impl Machine {
    /// What holds of every state that draws lead to: every open operator
    /// lacks an operand, a node takes its chance or its operator only where
    /// it has depth left, and no operator is open once the tree is finished.
    pub open spec fn wf(self) -> bool {
        &&& forall|i: int|
            0 <= i < self.frames.len() ==> (#[trigger] self.frames[i]).operands.len()
                < self.frames[i].operator.arity()
        &&& (self.phase == Phase::Waiting(Request::Chance) || self.phase == Phase::Waiting(
            Request::Operator,
        )) ==> self.level() > 0
        &&& self.phase is Finished ==> self.frames.len() == 0
    }

    /// The state in which nothing has been drawn yet.
    pub open spec fn start(depth: int) -> Machine {
        Machine { depth, frames: Seq::empty(), phase: Phase::Waiting(opening(depth)) }
    }

    /// The depth that the node which is growing now may still have.
    pub open spec fn level(self) -> int {
        self.depth - self.frames.len()
    }

    /// Whether a draw is the one that the state waits for, and in its range.
    pub open spec fn accepts(self, draw: Draw) -> bool {
        match (self.phase, draw) {
            (Phase::Waiting(Request::Chance), Draw::Chance(bits)) => in_unit_interval(bits),
            (Phase::Waiting(Request::Terminal), Draw::Choice(index)) => 0 <= index
                <= LAST_TERMINAL,
            (Phase::Waiting(Request::Number), Draw::Number(constant)) => at_most_one(
                constant.pattern(),
            ),
            (Phase::Waiting(Request::Operator), Draw::Choice(index)) => 0 <= index
                <= LAST_OPERATOR,
            _ => false,
        }
    }

    /// The state after a draw. A draw that is not accepted changes nothing.
    pub open spec fn step(self, draw: Draw) -> Machine {
        if !self.accepts(draw) {
            self
        } else {
            match draw {
                Draw::Chance(bits) => Machine {
                    phase: Phase::Waiting(
                        if under_a_tenth(bits) {
                            Request::Terminal
                        } else {
                            Request::Operator
                        },
                    ),
                    ..self
                },
                Draw::Choice(index) => if self.phase == Phase::Waiting(Request::Terminal) {
                    if index == LAST_TERMINAL {
                        Machine { phase: Phase::Waiting(Request::Number), ..self }
                    } else {
                        deliver(self.depth, self.frames, leaf_at(index as int))
                    }
                } else {
                    let frames = self.frames.push(
                        Frame { operator: operator_at(index as int), operands: Seq::empty() },
                    );
                    Machine {
                        depth: self.depth,
                        frames,
                        phase: Phase::Waiting(opening(self.depth - frames.len())),
                    }
                },
                Draw::Number(constant) => deliver(self.depth, self.frames, Node::Number(constant)),
            }
        }
    }

    /// The state after a row of draws.
    pub open spec fn run(self, draws: Seq<Draw>) -> Machine
        decreases draws.len(),
    {
        if draws.len() == 0 {
            self
        } else {
            self.step(draws.first()).run(draws.drop_first())
        }
    }

    /// Whether each draw of a row is accepted in its turn.
    pub open spec fn accepts_all(self, draws: Seq<Draw>) -> bool
        decreases draws.len(),
    {
        draws.len() == 0 || (self.accepts(draws.first()) && self.step(draws.first()).accepts_all(
            draws.drop_first(),
        ))
    }

    /// The state in which the tree is finished.
    pub open spec fn finished(depth: int, tree: Node) -> Machine {
        Machine { depth, frames: Seq::empty(), phase: Phase::Finished(tree) }
    }

    /// The state in which a node opens below the given operators.
    pub open spec fn opened(depth: int, frames: Seq<Frame>) -> Machine {
        Machine { depth, frames, phase: Phase::Waiting(opening(depth - frames.len())) }
    }
}

/// A finished node changes nothing in the depth of the tree.
pub proof fn lemma_deliver_keeps_depth(depth: int, frames: Seq<Frame>, node: Node)
    ensures
        deliver(depth, frames, node).depth == depth,
    decreases frames.len(),
{
    if frames.len() > 0 {
        let top = frames.last();
        lemma_deliver_keeps_depth(
            depth,
            frames.drop_last(),
            applied(top.operator, top.operands.push(node)),
        );
    }
}

/// No draw changes the depth of the tree.
pub proof fn lemma_step_keeps_depth(machine: Machine, draw: Draw)
    ensures
        machine.step(draw).depth == machine.depth,
{
    match draw {
        Draw::Choice(index) => {
            lemma_deliver_keeps_depth(machine.depth, machine.frames, leaf_at(index as int));
        },
        Draw::Number(constant) => {
            lemma_deliver_keeps_depth(machine.depth, machine.frames, Node::Number(constant));
        },
        _ => {},
    }
}

} // verus!
