//! The rule by which a tree grows, stated over a whole row of draws, and the
//! proof that a builder follows it.

use vstd::prelude::*;
use crate::expr::{applied, Node, Operator};
use crate::machine::{
    deliver, leaf_at, operator_at, Draw, Frame, Machine, Phase, Request, LAST_OPERATOR,
    LAST_TERMINAL,
};
use crate::single::{at_most_one, in_unit_interval, under_a_tenth};

verus! {

/// What the rule makes of a row of draws.
pub enum Outcome<T> {
    /// What has grown, and the draws that are left over.
    Done(T, Seq<Draw>),
    /// The draws ran out before the growth was over.
    Short,
    /// A draw was not the one that the rule asks for, or out of its range.
    Refused,
}

/// A constant grows out of a number from minus one to one.
pub open spec fn grow_number(draws: Seq<Draw>) -> Outcome<Node> {
    if draws.len() == 0 {
        Outcome::Short
    } else {
        match draws.first() {
            Draw::Number(constant) => if at_most_one(constant.pattern()) {
                Outcome::Done(Node::Number(constant), draws.drop_first())
            } else {
                Outcome::Refused
            },
            _ => Outcome::Refused,
        }
    }
}

/// A terminal grows out of an index from 0 to 3: `x`, `y`, `t`, or a
/// constant, which takes one more draw.
pub open spec fn grow_terminal(draws: Seq<Draw>) -> Outcome<Node> {
    if draws.len() == 0 {
        Outcome::Short
    } else {
        match draws.first() {
            Draw::Choice(index) => if 0 <= index < LAST_TERMINAL {
                Outcome::Done(leaf_at(index as int), draws.drop_first())
            } else if index == LAST_TERMINAL {
                grow_number(draws.drop_first())
            } else {
                Outcome::Refused
            },
            _ => Outcome::Refused,
        }
    }
}

/// The depth that counts: a depth below zero is as good as none.
pub open spec fn effective(level: int) -> nat {
    if level > 0 {
        level as nat
    } else {
        0
    }
}

/// A node that may have the given depth. Without depth left it is a
/// terminal. Otherwise a number from zero to one is drawn first: below one
/// tenth the node is a terminal all the same, else it is an operator's node,
/// whose operands may have one less depth.
pub open spec fn grow(level: int, draws: Seq<Draw>) -> Outcome<Node>
    decreases effective(level), 0nat,
{
    if level <= 0 {
        grow_terminal(draws)
    } else if draws.len() == 0 {
        Outcome::Short
    } else {
        match draws.first() {
            Draw::Chance(bits) => if !in_unit_interval(bits) {
                Outcome::Refused
            } else if under_a_tenth(bits) {
                grow_terminal(draws.drop_first())
            } else {
                grow_operator(level - 1, draws.drop_first())
            },
            _ => Outcome::Refused,
        }
    }
}

/// An operator's node grows out of an index from 0 to 8, which picks the
/// operator, and then its operands grow, each of which may have the given
/// depth.
pub open spec fn grow_operator(below: int, draws: Seq<Draw>) -> Outcome<Node>
    decreases effective(below), 6nat,
{
    if draws.len() == 0 {
        Outcome::Short
    } else {
        match draws.first() {
            Draw::Choice(index) => if 0 <= index <= LAST_OPERATOR {
                let operator = operator_at(index as int);
                match grow_operands(below, operator.arity(), draws.drop_first()) {
                    Outcome::Done(operands, rest) => Outcome::Done(
                        applied(operator, operands),
                        rest,
                    ),
                    Outcome::Short => Outcome::Short,
                    Outcome::Refused => Outcome::Refused,
                }
            } else {
                Outcome::Refused
            },
            _ => Outcome::Refused,
        }
    }
}

/// A row of nodes, each of which may have the given depth, grown one after
/// the other.
pub open spec fn grow_operands(level: int, count: nat, draws: Seq<Draw>) -> Outcome<Seq<Node>>
    decreases effective(level), count + 1,
{
    if count == 0 {
        Outcome::Done(Seq::empty(), draws)
    } else {
        match grow(level, draws) {
            Outcome::Done(first, rest) => match grow_operands(level, (count - 1) as nat, rest) {
                Outcome::Done(others, left) => Outcome::Done(seq![first] + others, left),
                Outcome::Short => Outcome::Short,
                Outcome::Refused => Outcome::Refused,
            },
            Outcome::Short => Outcome::Short,
            Outcome::Refused => Outcome::Refused,
        }
    }
}

/// What it means that a machine in the state `from` follows an outcome of
/// the rule on a row of draws. Where something has grown, the machine goes
/// on from the state `after` with the draws that are left, and has accepted
/// every draw before them; where the draws ran out, it has accepted them
/// all and still waits; where a draw was refused, it has not accepted it.
spec fn follows<T>(
    from: Machine,
    draws: Seq<Draw>,
    outcome: Outcome<T>,
    after: Machine,
) -> bool {
    match outcome {
        Outcome::Done(_, rest) => from.run(draws) == after.run(rest) && from.accepts_all(draws)
            == after.accepts_all(rest),
        Outcome::Short => from.accepts_all(draws) && from.run(draws).phase is Waiting,
        Outcome::Refused => !from.accepts_all(draws),
    }
}

/// The state to which a grown node leads.
spec fn delivered(depth: int, frames: Seq<Frame>, outcome: Outcome<Node>) -> Machine {
    match outcome {
        Outcome::Done(node, _) => deliver(depth, frames, node),
        _ => arbitrary(),
    }
}

/// A machine that waits for a constant follows the rule for constants.
proof fn lemma_follows_number(from: Machine, draws: Seq<Draw>)
    requires
        from.phase == Phase::Waiting(Request::Number),
    ensures
        follows(
            from,
            draws,
            grow_number(draws),
            delivered(from.depth, from.frames, grow_number(draws)),
        ),
{
}

/// A machine that waits for a terminal follows the rule for terminals.
proof fn lemma_follows_terminal(from: Machine, draws: Seq<Draw>)
    requires
        from.phase == Phase::Waiting(Request::Terminal),
    ensures
        follows(
            from,
            draws,
            grow_terminal(draws),
            delivered(from.depth, from.frames, grow_terminal(draws)),
        ),
{
    if draws.len() > 0 {
        if let Draw::Choice(index) = draws.first() {
            if index == LAST_TERMINAL {
                let next = from.step(draws.first());
                lemma_follows_number(next, draws.drop_first());
            }
        }
    }
}

/// A machine in which a node opens follows the rule for that node.
proof fn lemma_follows_node(depth: int, frames: Seq<Frame>, draws: Seq<Draw>)
    ensures
        follows(
            Machine::opened(depth, frames),
            draws,
            grow(depth - frames.len(), draws),
            delivered(depth, frames, grow(depth - frames.len(), draws)),
        ),
    decreases effective(depth - frames.len()), 0nat,
{
    let level = depth - frames.len();
    let from = Machine::opened(depth, frames);
    if level <= 0 {
        lemma_follows_terminal(from, draws);
    } else if draws.len() > 0 {
        if let Draw::Chance(bits) = draws.first() {
            if in_unit_interval(bits) {
                let chanced = from.step(draws.first());
                let later = draws.drop_first();
                assert(from.run(draws) == chanced.run(later));
                assert(from.accepts_all(draws) == chanced.accepts_all(later));
                if under_a_tenth(bits) {
                    lemma_follows_terminal(chanced, later);
                } else {
                    lemma_follows_operator(depth, frames, later);
                }
            }
        }
    }
}

/// A machine that waits for an operator follows the rule for operators'
/// nodes.
proof fn lemma_follows_operator(depth: int, frames: Seq<Frame>, draws: Seq<Draw>)
    requires
        depth - frames.len() > 0,
    ensures
        follows(
            Machine { depth, frames, phase: Phase::Waiting(Request::Operator) },
            draws,
            grow_operator(depth - frames.len() - 1, draws),
            delivered(depth, frames, grow_operator(depth - frames.len() - 1, draws)),
        ),
    decreases effective(depth - frames.len() - 1), 6nat,
{
    let from = Machine { depth, frames, phase: Phase::Waiting(Request::Operator) };
    if draws.len() > 0 {
        if let Draw::Choice(index) = draws.first() {
            if 0 <= index <= LAST_OPERATOR {
                let operator = operator_at(index as int);
                let none = Seq::<Node>::empty();
                let later = draws.drop_first();
                let outcome = grow_operands(depth - frames.len() - 1, operator.arity(), later);
                assert(from.step(draws.first()) == Machine::opened(
                    depth,
                    frames.push(Frame { operator, operands: none }),
                ));
                lemma_follows_operands(depth, frames, operator, none, later);
                assert(none + grown_operands(outcome) =~= grown_operands(outcome));
            }
        }
    }
}

/// The nodes that have grown; none where the rule has made none.
pub open spec fn grown_operands(outcome: Outcome<Seq<Node>>) -> Seq<Node> {
    match outcome {
        Outcome::Done(operands, _) => operands,
        _ => Seq::empty(),
    }
}

/// A machine in which an operand opens below an operator follows the rule
/// for the operands that the operator still lacks.
proof fn lemma_follows_operands(
    depth: int,
    frames: Seq<Frame>,
    operator: Operator,
    grown: Seq<Node>,
    draws: Seq<Draw>,
)
    requires
        grown.len() < operator.arity(),
    ensures
        ({
            let inner = frames.push(Frame { operator, operands: grown });
            let outcome = grow_operands(
                depth - inner.len(),
                (operator.arity() - grown.len()) as nat,
                draws,
            );
            follows(
                Machine::opened(depth, inner),
                draws,
                outcome,
                deliver(depth, frames, applied(operator, grown + grown_operands(outcome))),
            )
        }),
    decreases effective(depth - frames.len() - 1), operator.arity() - grown.len() + 1,
{
    let inner = frames.push(Frame { operator, operands: grown });
    let level = depth - inner.len();
    let count = (operator.arity() - grown.len()) as nat;
    let from = Machine::opened(depth, inner);
    lemma_follows_node(depth, inner, draws);
    if let Outcome::Done(first, rest) = grow(level, draws) {
        let longer = grown.push(first);
        assert(inner.last() == Frame { operator, operands: grown });
        assert(inner.drop_last() =~= frames);
        if longer.len() >= operator.arity() {
            assert(grow_operands(level, 0, rest) == Outcome::Done(Seq::<Node>::empty(), rest));
            assert(grown + (seq![first] + Seq::<Node>::empty()) =~= longer);
        } else {
            let next = frames.push(Frame { operator, operands: longer });
            assert(deliver(depth, inner, first) == Machine::opened(depth, next));
            lemma_follows_operands(depth, frames, operator, longer, rest);
            let others = grown_operands(grow_operands(level, (count - 1) as nat, rest));
            assert(grown + (seq![first] + others) =~= longer + others);
        }
    }
}

/// A finished machine accepts no draw, and no draw changes it.
pub proof fn lemma_finished_stays(machine: Machine, draws: Seq<Draw>)
    requires
        machine.phase is Finished,
    ensures
        machine.run(draws) == machine,
        machine.accepts_all(draws) <==> draws.len() == 0,
    decreases draws.len(),
{
    if draws.len() > 0 {
        lemma_finished_stays(machine, draws.drop_first());
    }
}

/// A draw behind a row of draws is taken in the state that the row leads
/// to.
pub proof fn lemma_run_push(machine: Machine, draws: Seq<Draw>, draw: Draw)
    ensures
        machine.run(draws.push(draw)) == machine.run(draws).step(draw),
        machine.accepts_all(draws.push(draw)) == (machine.accepts_all(draws) && machine.run(
            draws,
        ).accepts(draw)),
    decreases draws.len(),
{
    let longer = draws.push(draw);
    if draws.len() == 0 {
        assert(longer.first() == draw);
        assert(longer.drop_first() =~= draws);
        assert(machine.step(draw).run(draws) == machine.step(draw));
        assert(machine.step(draw).accepts_all(draws));
    } else {
        assert(longer.first() == draws.first());
        assert(longer.drop_first() =~= draws.drop_first().push(draw));
        lemma_run_push(machine.step(draws.first()), draws.drop_first(), draw);
    }
}

/// A machine that starts afresh follows the rule. Where the rule makes a
/// tree of a row of draws, the machine ends with that tree, and has accepted
/// every draw if and only if none is left over. Where the draws run out,
/// the machine has accepted them all and still waits. Where the rule
/// refuses a draw, so does the machine.
pub proof fn lemma_machine_follows_rule(depth: int, draws: Seq<Draw>)
    ensures
        match grow(depth, draws) {
            Outcome::Done(tree, rest) => {
                &&& Machine::start(depth).run(draws) == Machine::finished(depth, tree)
                &&& Machine::start(depth).accepts_all(draws) <==> rest.len() == 0
            },
            Outcome::Short => {
                &&& Machine::start(depth).accepts_all(draws)
                &&& Machine::start(depth).run(draws).phase is Waiting
            },
            Outcome::Refused => !Machine::start(depth).accepts_all(draws),
        },
{
    let none = Seq::<Frame>::empty();
    assert(Machine::start(depth) == Machine::opened(depth, none));
    lemma_follows_node(depth, none, draws);
    if let Outcome::Done(tree, rest) = grow(depth, draws) {
        lemma_finished_stays(Machine::finished(depth, tree), rest);
    }
}

/// The tree of a machine that has accepted every draw of a row, and is
/// finished, is the tree that the rule makes of the row, with no draw left
/// over.
pub proof fn lemma_finished_tree_is_grown(depth: int, draws: Seq<Draw>, tree: Node)
    requires
        Machine::start(depth).accepts_all(draws),
        Machine::start(depth).run(draws).phase == Phase::Finished(tree),
    ensures
        grow(depth, draws) == Outcome::Done(tree, Seq::empty()),
{
    lemma_machine_follows_rule(depth, draws);
    if let Outcome::Done(grown, rest) = grow(depth, draws) {
        assert(rest =~= Seq::<Draw>::empty());
    }
}

/// An operator's node is one higher than its highest operand.
proof fn lemma_applied_height(operator: Operator, operands: Seq<Node>, bound: nat)
    requires
        operands.len() == operator.arity(),
        forall|i: int| 0 <= i < operands.len() ==> (#[trigger] operands[i]).height() <= bound,
    ensures
        applied(operator, operands).height() <= bound + 1,
        !applied(operator, operands).is_terminal(),
{
    assert(operands[0].height() <= bound);
    if operator.arity() >= 2 {
        assert(operands[1].height() <= bound);
    }
    if operator.arity() >= 4 {
        assert(operands[2].height() <= bound);
        assert(operands[3].height() <= bound);
    }
}

/// No tree that the rule makes is higher than the depth it was given.
pub proof fn lemma_grown_height(level: int, draws: Seq<Draw>)
    ensures
        grow(level, draws) matches Outcome::Done(tree, _) ==> tree.height() <= effective(level),
    decreases effective(level), 0nat,
{
    if level > 0 && draws.len() > 0 {
        lemma_grown_operator_height(level - 1, draws.drop_first());
    }
}

/// No operator's node that the rule makes is higher than one more than the
/// depth its operands were given.
proof fn lemma_grown_operator_height(below: int, draws: Seq<Draw>)
    ensures
        grow_operator(below, draws) matches Outcome::Done(tree, _) ==> tree.height()
            <= effective(below) + 1,
    decreases effective(below), 6nat,
{
    if draws.len() > 0 {
        if let Draw::Choice(index) = draws.first() {
            let operator = operator_at(index as int);
            let later = draws.drop_first();
            lemma_grown_operands_height(below, operator.arity(), later);
            if let Outcome::Done(operands, _) = grow_operands(below, operator.arity(), later) {
                lemma_applied_height(operator, operands, effective(below));
            }
        }
    }
}

/// The rule makes as many nodes in a row as it is asked for, none of them
/// higher than the depth they were given.
pub proof fn lemma_grown_operands_height(level: int, count: nat, draws: Seq<Draw>)
    ensures
        grow_operands(level, count, draws) matches Outcome::Done(operands, _) ==> {
            &&& operands.len() == count
            &&& forall|i: int|
                0 <= i < operands.len() ==> (#[trigger] operands[i]).height() <= effective(level)
        },
    decreases effective(level), count + 1,
{
    if count > 0 {
        lemma_grown_height(level, draws);
        if let Outcome::Done(first, rest) = grow(level, draws) {
            lemma_grown_operands_height(level, (count - 1) as nat, rest);
        }
    }
}

/// An operator's node is bounded when its operands are.
proof fn lemma_applied_bounded(operator: Operator, operands: Seq<Node>)
    requires
        operands.len() == operator.arity(),
        forall|i: int| 0 <= i < operands.len() ==> (#[trigger] operands[i]).bounded(),
    ensures
        applied(operator, operands).bounded(),
{
    assert(operands[0].bounded());
    if operator.arity() >= 2 {
        assert(operands[1].bounded());
    }
    if operator.arity() >= 4 {
        assert(operands[2].bounded());
        assert(operands[3].bounded());
    }
}

/// Every constant of a tree that the rule makes lies between minus one and
/// one.
pub proof fn lemma_grown_bounded(level: int, draws: Seq<Draw>)
    ensures
        grow(level, draws) matches Outcome::Done(tree, _) ==> tree.bounded(),
    decreases effective(level), 0nat,
{
    if level > 0 && draws.len() > 0 {
        lemma_grown_operator_bounded(level - 1, draws.drop_first());
    }
}

/// Every constant of an operator's node that the rule makes lies between
/// minus one and one.
proof fn lemma_grown_operator_bounded(below: int, draws: Seq<Draw>)
    ensures
        grow_operator(below, draws) matches Outcome::Done(tree, _) ==> tree.bounded(),
    decreases effective(below), 6nat,
{
    if draws.len() > 0 {
        if let Draw::Choice(index) = draws.first() {
            let operator = operator_at(index as int);
            let later = draws.drop_first();
            lemma_grown_operands_height(below, operator.arity(), later);
            lemma_grown_operands_bounded(below, operator.arity(), later);
            if let Outcome::Done(operands, _) = grow_operands(below, operator.arity(), later) {
                lemma_applied_bounded(operator, operands);
            }
        }
    }
}

/// Every constant of the nodes that the rule makes in a row lies between
/// minus one and one.
pub proof fn lemma_grown_operands_bounded(level: int, count: nat, draws: Seq<Draw>)
    ensures
        grow_operands(level, count, draws) matches Outcome::Done(operands, _) ==> forall|i: int|
            0 <= i < operands.len() ==> (#[trigger] operands[i]).bounded(),
    decreases effective(level), count + 1,
{
    if count > 0 {
        lemma_grown_bounded(level, draws);
        if let Outcome::Done(first, rest) = grow(level, draws) {
            lemma_grown_operands_bounded(level, (count - 1) as nat, rest);
        }
    }
}

/// More draws behind a row of which the rule has made a constant change
/// nothing but what is left over.
proof fn lemma_grow_number_more(draws: Seq<Draw>, more: Seq<Draw>)
    ensures
        grow_number(draws) matches Outcome::Done(node, rest) ==> grow_number(draws + more)
            == Outcome::Done(node, rest + more),
{
    if draws.len() > 0 {
        assert((draws + more).first() == draws.first());
        assert((draws + more).drop_first() =~= draws.drop_first() + more);
    }
}

/// More draws behind a row of which the rule has made a terminal change
/// nothing but what is left over.
proof fn lemma_grow_terminal_more(draws: Seq<Draw>, more: Seq<Draw>)
    ensures
        grow_terminal(draws) matches Outcome::Done(node, rest) ==> grow_terminal(draws + more)
            == Outcome::Done(node, rest + more),
{
    if draws.len() > 0 {
        assert((draws + more).first() == draws.first());
        assert((draws + more).drop_first() =~= draws.drop_first() + more);
        lemma_grow_number_more(draws.drop_first(), more);
    }
}

/// More draws behind a row of which the rule has made a node change
/// nothing but what is left over.
pub proof fn lemma_grow_more(level: int, draws: Seq<Draw>, more: Seq<Draw>)
    ensures
        grow(level, draws) matches Outcome::Done(node, rest) ==> grow(level, draws + more)
            == Outcome::Done(node, rest + more),
    decreases effective(level), 0nat,
{
    if level <= 0 {
        lemma_grow_terminal_more(draws, more);
    } else if draws.len() > 0 {
        assert((draws + more).first() == draws.first());
        assert((draws + more).drop_first() =~= draws.drop_first() + more);
        lemma_grow_terminal_more(draws.drop_first(), more);
        lemma_grow_operator_more(level - 1, draws.drop_first(), more);
    }
}

/// More draws behind a row of which the rule has made an operator's node
/// change nothing but what is left over.
proof fn lemma_grow_operator_more(below: int, draws: Seq<Draw>, more: Seq<Draw>)
    ensures
        grow_operator(below, draws) matches Outcome::Done(node, rest) ==> grow_operator(
            below,
            draws + more,
        ) == Outcome::Done(node, rest + more),
    decreases effective(below), 6nat,
{
    if draws.len() > 0 {
        assert((draws + more).first() == draws.first());
        assert((draws + more).drop_first() =~= draws.drop_first() + more);
        if let Draw::Choice(index) = draws.first() {
            lemma_grow_operands_more(
                below,
                operator_at(index as int).arity(),
                draws.drop_first(),
                more,
            );
        }
    }
}

/// More draws behind a row of which the rule has made operands change
/// nothing but what is left over.
pub proof fn lemma_grow_operands_more(level: int, count: nat, draws: Seq<Draw>, more: Seq<Draw>)
    ensures
        grow_operands(level, count, draws) matches Outcome::Done(operands, rest) ==> grow_operands(
            level,
            count,
            draws + more,
        ) == Outcome::Done(operands, rest + more),
    decreases effective(level), count + 1,
{
    if count > 0 {
        lemma_grow_more(level, draws, more);
        if let Outcome::Done(first, rest) = grow(level, draws) {
            lemma_grow_operands_more(level, (count - 1) as nat, rest, more);
        }
    }
}

/// The state of the tree that is growing, where trees of one depth grow one
/// after the other out of a row of draws: none, once as many trees have
/// grown as were to grow.
pub open spec fn growing(level: int, count: nat, draws: Seq<Draw>) -> Option<Machine>
    decreases count,
{
    if count == 0 {
        None
    } else {
        match grow(level, draws) {
            Outcome::Done(_, rest) => growing(level, (count - 1) as nat, rest),
            _ => Some(Machine::start(level).run(draws)),
        }
    }
}

/// Trees that have used up their draws, and what grows after them: the
/// trees that the rule makes of both rows of draws are the first trees and
/// then those of the second row, and the tree that is growing is the one of
/// the second row.
pub proof fn lemma_grow_after(
    level: int,
    count: nat,
    draws: Seq<Draw>,
    further: nat,
    more: Seq<Draw>,
)
    requires
        grow_operands(level, count, draws) matches Outcome::Done(_, rest) && rest.len() == 0,
    ensures
        grow_operands(level, count + further, draws + more) == match grow_operands(
            level,
            further,
            more,
        ) {
            Outcome::Done(trees, rest) => Outcome::Done(
                grown_operands(grow_operands(level, count, draws)) + trees,
                rest,
            ),
            Outcome::Short => Outcome::Short,
            Outcome::Refused => Outcome::Refused,
        },
        growing(level, count + further, draws + more) == growing(level, further, more),
    decreases count,
{
    let first = grown_operands(grow_operands(level, count, draws));
    if count == 0 {
        assert(draws + more =~= more);
        if let Outcome::Done(trees, rest) = grow_operands(level, further, more) {
            assert(first + trees =~= trees);
        }
    } else {
        lemma_grow_more(level, draws, more);
        if let Outcome::Done(tree, rest) = grow(level, draws) {
            lemma_grow_after(level, (count - 1) as nat, rest, further, more);
            let others = grown_operands(grow_operands(level, (count - 1) as nat, rest));
            if let Outcome::Done(trees, left) = grow_operands(level, further, more) {
                assert(seq![tree] + (others + trees) =~= first + trees);
            }
        }
    }
}

/// Without depth, the rule makes terminals only.
pub proof fn lemma_no_depth_no_operator(level: int, draws: Seq<Draw>)
    requires
        level <= 0,
    ensures
        grow(level, draws) matches Outcome::Done(tree, _) ==> tree.is_terminal(),
{
}

} // verus!
