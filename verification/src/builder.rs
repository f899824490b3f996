//! The builder of a tree.
//!
//! The builder names the draw it waits for; whoever holds the random stream
//! makes that draw and feeds it back. The builder decides what the draw
//! means: whether a node stops early, which terminal or operator it is, and
//! where a finished node belongs.

use vstd::prelude::*;
use crate::budget::{cost, lemma_growth_ends};
use crate::expr::{applied, Node, Operator};
use crate::growth::{
    effective, grow, lemma_finished_tree_is_grown, lemma_grown_bounded, lemma_grown_height,
    lemma_machine_follows_rule, lemma_run_push, Outcome,
};
use crate::machine::{
    deliver, lemma_step_keeps_depth, opening, operator_at, Draw, Frame, Machine, Phase, Request,
    LAST_OPERATOR, LAST_TERMINAL,
};
use crate::single::{is_at_most_one, is_under_a_tenth, is_unit};

verus! {

/// An operator that is open in a builder, with the operands grown so far.
struct OpenNode {
    operator: Operator,
    operands: Vec<Node>,
}

impl OpenNode {
    spec fn frame(self) -> Frame {
        Frame { operator: self.operator, operands: self.operands@ }
    }
}

/// The frames of a row of open operators.
spec fn frames_of(open: Seq<OpenNode>) -> Seq<Frame> {
    Seq::new(open.len(), |i: int| open[i].frame())
}

/// A tree that is growing, or has been finished.
pub struct TreeBuilder {
    depth: i32,
    /// The depth that the node which is growing now may still have.
    level: i32,
    open: Vec<OpenNode>,
    phase: Phase,
    /// The draws accepted so far.
    taken: Ghost<Seq<Draw>>,
}

impl View for TreeBuilder {
    type V = Machine;

    closed spec fn view(&self) -> Machine {
        Machine { depth: self.depth as int, frames: frames_of(self.open@), phase: self.phase }
    }
}

/// Makes the node of an operator and its operands.
fn assemble(operator: Operator, operands: Vec<Node>) -> (node: Node)
    requires
        operands.len() == operator.arity(),
    ensures
        node == applied(operator, operands@),
{
    let mut operands = operands;
    match operator {
        Operator::Sqrt | Operator::Sin | Operator::Cos => {
            let a = Box::new(operands.pop().unwrap());
            match operator {
                Operator::Sqrt => Node::Sqrt(a),
                Operator::Sin => Node::Sin(a),
                _ => Node::Cos(a),
            }
        },
        Operator::Mix => {
            let d = Box::new(operands.pop().unwrap());
            let c = Box::new(operands.pop().unwrap());
            let b = Box::new(operands.pop().unwrap());
            let a = Box::new(operands.pop().unwrap());
            Node::Mix(a, b, c, d)
        },
        _ => {
            let b = Box::new(operands.pop().unwrap());
            let a = Box::new(operands.pop().unwrap());
            match operator {
                Operator::Add => Node::Add(a, b),
                Operator::Mult => Node::Mult(a, b),
                Operator::Mod => Node::Mod(a, b),
                Operator::Div => Node::Div(a, b),
                _ => Node::Average(a, b),
            }
        },
    }
}

/// The operator with the given index.
fn operator_of(index: i32) -> (operator: Operator)
    ensures
        operator == operator_at(index as int),
{
    if index == 0 {
        Operator::Add
    } else if index == 1 {
        Operator::Mult
    } else if index == 2 {
        Operator::Mod
    } else if index == 3 {
        Operator::Div
    } else if index == 4 {
        Operator::Sqrt
    } else if index == 5 {
        Operator::Sin
    } else if index == 6 {
        Operator::Cos
    } else if index == 7 {
        Operator::Average
    } else {
        Operator::Mix
    }
}

/// The draw that opens a node which may still have the given depth.
fn opening_of(level: i32) -> (request: Request)
    ensures
        request == opening(level as int),
{
    if level <= 0 {
        Request::Terminal
    } else {
        Request::Chance
    }
}

impl TreeBuilder {
    #[verifier::type_invariant]
    spec fn inv(&self) -> bool {
        &&& self.level == self.depth - self.open.len()
        &&& forall|i: int|
            0 <= i < self.open.len() ==> (#[trigger] self.open[i]).operands.len()
                < self.open[i].operator.arity()
        &&& (self.phase == Phase::Waiting(Request::Chance) || self.phase == Phase::Waiting(
            Request::Operator,
        )) ==> self.level >= 1
        &&& Machine::start(self.depth as int).accepts_all(self.taken@)
        &&& Machine::start(self.depth as int).run(self.taken@) == self@
    }

    /// The draws that the builder has accepted, in their order.
    pub closed spec fn taken(&self) -> Seq<Draw> {
        self.taken@
    }

    /// Begins a tree that may have the given depth.
    pub fn new(depth: i32) -> (builder: TreeBuilder)
        ensures
            builder@ == Machine::start(depth as int),
            builder.taken() == Seq::<Draw>::empty(),
            builder.led_by_draws(),
    {
        let open: Vec<OpenNode> = Vec::new();
        assert(frames_of(open@) =~= Seq::<Frame>::empty());
        TreeBuilder {
            depth,
            level: depth,
            open,
            phase: Phase::Waiting(opening_of(depth)),
            taken: Ghost(Seq::empty()),
        }
    }

    /// The depth that the tree may have.
    pub fn depth(&self) -> (depth: i32)
        ensures
            depth == self@.depth,
    {
        self.depth
    }

    /// Whether the builder is in the state to which the draws it has
    /// accepted lead from the start. Every builder is.
    pub open spec fn led_by_draws(&self) -> bool {
        &&& Machine::start(self@.depth).accepts_all(self.taken())
        &&& Machine::start(self@.depth).run(self.taken()) == self@
    }

    /// The draw that the builder waits for; none once the tree is finished.
    /// It waits as long as the rule of growth finds the accepted draws too
    /// short for a tree, which they are no more once they are as many as
    /// the depth costs.
    pub fn request(&self) -> (request: Option<Request>)
        ensures
            request == match self@.phase {
                Phase::Waiting(r) => Some(r),
                Phase::Finished(_) => None,
            },
            request is Some <==> grow(self@.depth, self.taken()) is Short,
            request is Some ==> self.taken().len() < cost(self@.depth),
            self.led_by_draws(),
    {
        proof {
            use_type_invariant(self);
            lemma_machine_follows_rule(self.depth as int, self.taken@);
            lemma_growth_ends(self.depth as int, self.taken@);
        }
        match &self.phase {
            Phase::Waiting(r) => Some(*r),
            Phase::Finished(_) => None,
        }
    }

    /// Tells whether a draw is the one that the builder waits for, and in
    /// its range.
    pub fn accepts(&self, draw: &Draw) -> (ok: bool)
        ensures
            ok == self@.accepts(*draw),
    {
        match &self.phase {
            Phase::Waiting(Request::Chance) => match draw {
                Draw::Chance(bits) => is_unit(*bits),
                _ => false,
            },
            Phase::Waiting(Request::Terminal) => match draw {
                Draw::Choice(index) => 0 <= *index && *index <= LAST_TERMINAL,
                _ => false,
            },
            Phase::Waiting(Request::Number) => match draw {
                Draw::Number(constant) => is_at_most_one(constant.bits()),
                _ => false,
            },
            Phase::Waiting(Request::Operator) => match draw {
                Draw::Choice(index) => 0 <= *index && *index <= LAST_OPERATOR,
                _ => false,
            },
            Phase::Finished(_) => false,
        }
    }

    /// Takes a draw. A draw that is not accepted changes nothing.
    pub fn feed(self, draw: Draw) -> (next: TreeBuilder)
        ensures
            next@ == self@.step(draw),
            next@.depth == self@.depth,
            next.taken() == if self@.accepts(draw) {
                self.taken().push(draw)
            } else {
                self.taken()
            },
            next.led_by_draws(),
    {
        proof {
            use_type_invariant(&self);
            lemma_step_keeps_depth(self@, draw);
            lemma_run_push(Machine::start(self.depth as int), self.taken@, draw);
        }
        if !self.accepts(&draw) {
            return self;
        }
        let TreeBuilder { depth, level, open, phase, taken } = self;
        let taken = Ghost(taken@.push(draw));
        match draw {
            Draw::Chance(bits) => {
                let request = if is_under_a_tenth(bits) {
                    Request::Terminal
                } else {
                    Request::Operator
                };
                TreeBuilder { depth, level, open, phase: Phase::Waiting(request), taken }
            },
            Draw::Choice(index) => match phase {
                Phase::Waiting(Request::Terminal) => {
                    if index == LAST_TERMINAL {
                        TreeBuilder {
                            depth,
                            level,
                            open,
                            phase: Phase::Waiting(Request::Number),
                            taken,
                        }
                    } else {
                        let leaf = if index == 0 {
                            Node::X
                        } else if index == 1 {
                            Node::Y
                        } else {
                            Node::T
                        };
                        Self::deliver(depth, level, open, leaf, taken)
                    }
                },
                _ => {
                    let mut open = open;
                    let ghost before = open@;
                    open.push(OpenNode { operator: operator_of(index), operands: Vec::new() });
                    assert(frames_of(open@) =~= frames_of(before).push(
                        Frame { operator: operator_at(index as int), operands: Seq::empty() },
                    ));
                    let level: i32 = level - 1;
                    TreeBuilder {
                        depth,
                        level,
                        open,
                        phase: Phase::Waiting(opening_of(level)),
                        taken,
                    }
                },
            },
            Draw::Number(constant) => Self::deliver(
                depth,
                level,
                open,
                Node::Number(constant),
                taken,
            ),
        }
    }

    /// Hands a finished node to the open operators.
    fn deliver(
        depth: i32,
        level: i32,
        open: Vec<OpenNode>,
        node: Node,
        taken: Ghost<Seq<Draw>>,
    ) -> (next: TreeBuilder)
        requires
            level == depth - open.len(),
            forall|i: int|
                0 <= i < open.len() ==> (#[trigger] open[i]).operands.len()
                    < open[i].operator.arity(),
            Machine::start(depth as int).accepts_all(taken@),
            Machine::start(depth as int).run(taken@) == deliver(
                depth as int,
                frames_of(open@),
                node,
            ),
        ensures
            next@ == deliver(depth as int, frames_of(open@), node),
            next.taken() == taken@,
    {
        let mut rest = open;
        let mut grown = node;
        let mut level: i32 = level;
        loop
            invariant
                level == depth - rest.len(),
                forall|i: int|
                    0 <= i < rest.len() ==> (#[trigger] rest[i]).operands.len()
                        < rest[i].operator.arity(),
                deliver(depth as int, frames_of(open@), node) == deliver(
                    depth as int,
                    frames_of(rest@),
                    grown,
                ),
                Machine::start(depth as int).accepts_all(taken@),
                Machine::start(depth as int).run(taken@) == deliver(
                    depth as int,
                    frames_of(open@),
                    node,
                ),
            decreases rest.len(),
        {
            let ghost frames = frames_of(rest@);
            match rest.pop() {
                None => {
                    assert(frames_of(rest@) =~= frames);
                    return TreeBuilder {
                        depth,
                        level,
                        open: rest,
                        phase: Phase::Finished(grown),
                        taken,
                    };
                },
                Some(top) => {
                    assert(top.frame() == frames.last());
                    assert(frames_of(rest@) =~= frames.drop_last());
                    let OpenNode { operator, operands } = top;
                    let mut operands = operands;
                    operands.push(grown);
                    if operands.len() >= operator.operands() {
                        grown = assemble(operator, operands);
                        level = level + 1;
                    } else {
                        let ghost below = rest@;
                        rest.push(OpenNode { operator, operands });
                        assert(frames_of(rest@) =~= frames_of(below).push(
                            Frame { operator, operands: operands@ },
                        ));
                        return TreeBuilder {
                            depth,
                            level,
                            open: rest,
                            phase: Phase::Waiting(opening_of(level)),
                            taken,
                        };
                    }
                },
            }
        }
    }

    /// The tree, once it is finished. It is the tree that the rule of growth
    /// makes of the accepted draws, which it uses up; it is no higher than
    /// the depth allows, so without depth it is a terminal; and each of its
    /// constants lies between minus one and one.
    pub fn finish(self) -> (tree: Option<Node>)
        ensures
            tree == match self@.phase {
                Phase::Waiting(_) => None,
                Phase::Finished(node) => Some(node),
            },
            tree matches Some(node) ==> {
                &&& grow(self@.depth, self.taken()) == Outcome::Done(node, Seq::empty())
                &&& node.height() <= effective(self@.depth)
                &&& self@.depth <= 0 ==> node.is_terminal()
                &&& node.bounded()
            },
    {
        proof {
            use_type_invariant(&self);
            if self@.phase is Finished {
                lemma_finished_tree_is_grown(
                    self.depth as int,
                    self.taken@,
                    self@.phase->Finished_0,
                );
                lemma_grown_height(self.depth as int, self.taken@);
                lemma_grown_bounded(self.depth as int, self.taken@);
            }
        }
        match self.phase {
            Phase::Waiting(_) => None,
            Phase::Finished(node) => Some(node),
        }
    }
}

/// What grows is decided by the depth and the draws: two builders of one
/// depth that have accepted the same draws are in the same state, and so
/// hold the same tree once they are finished.
pub proof fn lemma_same_draws_same_tree(first: TreeBuilder, second: TreeBuilder)
    requires
        first.led_by_draws(),
        second.led_by_draws(),
        first@.depth == second@.depth,
        first.taken() == second.taken(),
    ensures
        first@ == second@,
{
}

} // verus!
