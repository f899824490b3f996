//! A picture in the making: three trees, for red, green and blue, grown one
//! after the other from one stream of draws, and then the pixels, painted
//! one after the other.
//!
//! The picture says what is to be done next. Whoever makes the picture makes
//! the draw or works out the colour, and hands it back.

use vstd::prelude::*;
use crate::budget::{cost, lemma_growth_ends};
use crate::builder::TreeBuilder;
use crate::canvas::{fits, samples, Canvas, Colour, Raster};
use crate::describe::{channel_line, describe, description, lines};
use crate::expr::Node;
use crate::generator::{
    grown_by_indices, held, seed_value, seeded, turns_left, ExpressionGenerator,
};
use crate::growth::{
    effective, grow_operands, growing, grown_operands, lemma_grow_after,
    lemma_grown_operands_bounded, lemma_grown_operands_height, lemma_machine_follows_rule, Outcome,
};
use crate::machine::{Draw, Machine, Phase, Request};

verus! {

/// What is to be done next for a picture.
#[derive(Clone, Copy, Debug, PartialEq, Eq)]
pub enum Task {
    /// A draw is to be made and fed.
    Draw(Request),
    /// The pixel in this column and row is to be painted.
    Shade(u32, u32),
    /// Nothing: the picture is finished.
    Finished,
}

/// How far a picture has come.
pub struct Sketch {
    /// The depth that each of the three trees may have.
    pub depth: int,
    /// The draws accepted so far, for all the trees.
    pub draws: Seq<Draw>,
    /// What has been painted.
    pub raster: Raster,
}

impl Sketch {
    /// The picture of which nothing has been drawn or painted.
    pub open spec fn start(depth: int, width: nat, height: nat) -> Sketch {
        Sketch { depth, draws: Seq::empty(), raster: Raster::empty(width, height) }
    }

    /// The state of the tree that is growing; none once all three have
    /// grown.
    pub open spec fn growing(self) -> Option<Machine> {
        growing(self.depth, 3, self.draws)
    }

    /// The trees of red, green and blue, once they have grown.
    pub open spec fn trees(self) -> Seq<Node> {
        grown_operands(grow_operands(self.depth, 3, self.draws))
    }

    /// What is to be done next: a draw for the tree that is growing, and
    /// after the trees the next pixel.
    pub open spec fn task(self) -> Task {
        match self.growing() {
            Some(machine) => match machine.phase {
                Phase::Waiting(request) => Task::Draw(request),
                Phase::Finished(_) => Task::Finished,
            },
            None => match self.raster.position() {
                Some((x, y)) => Task::Shade(x as u32, y as u32),
                None => Task::Finished,
            },
        }
    }

    /// The picture after a draw: the tree that is growing takes it, if it
    /// accepts it; else nothing changes.
    pub open spec fn feed(self, draw: Draw) -> Sketch {
        match self.growing() {
            Some(machine) => if machine.accepts(draw) {
                Sketch { draws: self.draws.push(draw), ..self }
            } else {
                self
            },
            None => self,
        }
    }

    /// The picture after a colour: once the trees have grown, the next
    /// pixel is painted; else nothing changes.
    pub open spec fn paint(self, colour: Colour) -> Sketch {
        match self.growing() {
            Some(_) => self,
            None => Sketch { raster: self.raster.paint(colour), ..self },
        }
    }
}

/// A picture in the making.
pub struct Picture {
    depth: i32,
    /// The trees that have grown: red, green, blue.
    grown: Vec<Node>,
    /// The tree that is growing.
    builder: Option<TreeBuilder>,
    canvas: Canvas,
    /// The draws accepted so far.
    draws: Ghost<Seq<Draw>>,
    /// The draws of the trees that have grown.
    used: Ghost<Seq<Draw>>,
}

impl View for Picture {
    type V = Sketch;

    closed spec fn view(&self) -> Sketch {
        Sketch { depth: self.depth as int, draws: self.draws@, raster: self.canvas@ }
    }
}

impl Picture {
    #[verifier::type_invariant]
    spec fn inv(&self) -> bool {
        &&& self.grown.len() <= 3
        &&& self.builder is Some <==> self.grown.len() < 3
        &&& grow_operands(self.depth as int, self.grown.len() as nat, self.used@) == Outcome::Done(
            self.grown@,
            Seq::empty(),
        )
        &&& self.used@.len() <= self.grown.len() * cost(self.depth as int)
        &&& match self.builder {
            Some(builder) => {
                &&& builder@.depth == self.depth
                &&& builder@.phase is Waiting
                &&& builder.led_by_draws()
                &&& self.draws@ == self.used@ + builder.taken()
                &&& self.canvas@.painted.len() == 0
            },
            None => self.draws@ == self.used@,
        }
    }

    /// The tree that is growing is the one of the builder; without a builder
    /// the three trees have grown, and have used up the draws.
    proof fn lemma_growing(&self)
        requires
            self.inv(),
        ensures
            match self.builder {
                Some(builder) => {
                    &&& self@.growing() == Some(builder@)
                    &&& self@.draws.len() < 3 * cost(self@.depth)
                },
                None => {
                    &&& self@.growing() is None
                    &&& grow_operands(self@.depth, 3, self@.draws) == Outcome::Done(
                        self.grown@,
                        Seq::empty(),
                    )
                },
            },
    {
        let depth = self.depth as int;
        let count = self.grown.len() as nat;
        match self.builder {
            Some(builder) => {
                lemma_grow_after(depth, count, self.used@, (3 - count) as nat, builder.taken());
                lemma_machine_follows_rule(depth, builder.taken());
                lemma_growth_ends(depth, builder.taken());
                assert(count * cost(depth) + cost(depth) <= 3 * cost(depth)) by (nonlinear_arith)
                    requires
                        count < 3,
                ;
            },
            None => {
                lemma_grow_after(depth, 3, self.used@, 0, Seq::empty());
                assert(self.used@ + Seq::<Draw>::empty() =~= self.used@);
            },
        }
    }

    /// A picture of the given width and height, whose trees may have the
    /// given depth, of which nothing has been drawn or painted. There is
    /// none where a vector cannot hold its samples.
    pub fn new(width: u32, height: u32, depth: i32) -> (made: Option<Picture>)
        ensures
            made is Some <==> fits(width, height),
            made matches Some(picture) ==> picture@ == Sketch::start(
                depth as int,
                width as nat,
                height as nat,
            ),
    {
        let canvas = match Canvas::new(width, height) {
            Some(canvas) => canvas,
            None => {
                return None;
            },
        };
        let grown: Vec<Node> = Vec::new();
        assert(grown@ =~= Seq::<Node>::empty());
        assert(Seq::<Draw>::empty() + Seq::<Draw>::empty() =~= Seq::<Draw>::empty());
        Some(
            Picture {
                depth,
                grown,
                builder: Some(TreeBuilder::new(depth)),
                canvas,
                draws: Ghost(Seq::empty()),
                used: Ghost(Seq::empty()),
            },
        )
    }

    /// The depth that each tree may have.
    pub fn depth(&self) -> (depth: i32)
        ensures
            depth == self@.depth,
    {
        self.depth
    }

    /// The width and the height.
    pub fn size(&self) -> (size: (u32, u32))
        ensures
            size.0 == self@.raster.width,
            size.1 == self@.raster.height,
    {
        self.canvas.size()
    }

    /// What is to be done next. A draw is to be made only as long as the
    /// draws are fewer than three trees of the depth cost.
    pub fn task(&self) -> (task: Task)
        ensures
            task == self@.task(),
            task is Draw ==> self@.draws.len() < 3 * cost(self@.depth),
    {
        proof {
            use_type_invariant(self);
            self.lemma_growing();
        }
        match &self.builder {
            Some(builder) => match builder.request() {
                Some(request) => Task::Draw(request),
                None => Task::Finished,
            },
            None => match self.canvas.position() {
                Some((x, y)) => Task::Shade(x, y),
                None => Task::Finished,
            },
        }
    }

    /// Takes a draw for the tree that is growing. A draw that is not
    /// accepted changes nothing, nor does any draw once the trees have grown.
    pub fn feed(self, draw: Draw) -> (next: Picture)
        ensures
            next@ == self@.feed(draw),
    {
        proof {
            use_type_invariant(&self);
            self.lemma_growing();
        }
        let Picture { depth, grown, builder, canvas, draws, used } = self;
        let builder = match builder {
            Some(builder) => builder,
            None => {
                return Picture { depth, grown, builder: None, canvas, draws, used };
            },
        };
        if !builder.accepts(&draw) {
            return Picture { depth, grown, builder: Some(builder), canvas, draws, used };
        }
        let builder = builder.feed(draw);
        let draws = Ghost(draws@.push(draw));
        assert(draws@ =~= used@ + builder.taken());
        if builder.request().is_some() {
            return Picture { depth, grown, builder: Some(builder), canvas, draws, used };
        }
        let ghost count = grown.len() as nat;
        let ghost taken = builder.taken();
        let mut grown = grown;
        match builder.finish() {
            Some(tree) => {
                grown.push(tree);
            },
            None => {
                assert(false);
            },
        }
        proof {
            lemma_growth_ends(depth as int, taken);
            assert((count + 1) * cost(depth as int) == count * cost(depth as int) + cost(
                depth as int,
            )) by (nonlinear_arith);
            lemma_grow_after(depth as int, count, used@, 1, taken);
            assert(grow_operands(depth as int, 0, Seq::<Draw>::empty()) == Outcome::Done(
                Seq::<Node>::empty(),
                Seq::<Draw>::empty(),
            ));
            assert(grown@ =~= grown_operands(grow_operands(depth as int, count, used@)) + (
            seq![grown@.last()] + Seq::<Node>::empty()));
            assert(draws@ + Seq::<Draw>::empty() =~= draws@);
        }
        let builder = if grown.len() < 3 {
            Some(TreeBuilder::new(depth))
        } else {
            None
        };
        Picture { depth, grown, builder, canvas, draws, used: draws }
    }

    /// Paints the next pixel, once the trees have grown. Before that, and
    /// on a full picture, nothing changes.
    pub fn paint(self, red: u8, green: u8, blue: u8) -> (next: Picture)
        ensures
            next@ == self@.paint((red, green, blue)),
    {
        proof {
            use_type_invariant(&self);
            self.lemma_growing();
        }
        let Picture { depth, grown, builder, canvas, draws, used } = self;
        match builder {
            Some(builder) => Picture { depth, grown, builder: Some(builder), canvas, draws, used },
            None => {
                let canvas = canvas.paint(red, green, blue);
                Picture { depth, grown, builder: None, canvas, draws, used }
            },
        }
    }

    /// The trees of red, green and blue, once all three have grown. They
    /// are the trees that the rule of growth makes, one after the other, of
    /// the draws, which they use up. None is higher than the depth allows,
    /// so without depth each is a terminal; and every constant in them lies
    /// between minus one and one.
    pub fn channels(&self) -> (trees: Option<(&Node, &Node, &Node)>)
        ensures
            trees is Some <==> self@.growing() is None,
            trees matches Some((red, green, blue)) ==> {
                &&& grow_operands(self@.depth, 3, self@.draws) == Outcome::Done(
                    seq![*red, *green, *blue],
                    Seq::empty(),
                )
                &&& red.height() <= effective(self@.depth)
                &&& green.height() <= effective(self@.depth)
                &&& blue.height() <= effective(self@.depth)
                &&& self@.depth <= 0 ==> red.is_terminal() && green.is_terminal()
                    && blue.is_terminal()
                &&& red.bounded() && green.bounded() && blue.bounded()
            },
    {
        proof {
            use_type_invariant(self);
            self.lemma_growing();
        }
        if self.grown.len() < 3 {
            return None;
        }
        proof {
            lemma_grown_operands_height(self.depth as int, 3, self.used@);
            lemma_grown_operands_bounded(self.depth as int, 3, self.used@);
            assert(self.grown@ =~= seq![self.grown[0], self.grown[1], self.grown[2]]);
            assert(self.grown@[0].bounded() && self.grown@[1].bounded()
                && self.grown@[2].bounded());
            assert(self.grown@[0].height() <= effective(self.depth as int));
            assert(self.grown@[1].height() <= effective(self.depth as int));
            assert(self.grown@[2].height() <= effective(self.depth as int));
        }
        Some((&self.grown[0], &self.grown[1], &self.grown[2]))
    }

    /// The finished picture: its samples, three for each pixel, row after
    /// row, and its description. There is none before the trees have grown
    /// and every pixel has been painted.
    pub fn finish(self) -> (made: Option<(Vec<u8>, String)>)
        ensures
            made is Some <==> self@.growing() is None && self@.raster.full(),
            made matches Some((raw, text)) ==> {
                let trees = self@.trees();
                &&& raw@ == samples(self@.raster.painted)
                &&& raw.len() == 3 * (self@.raster.width * self@.raster.height)
                &&& text@ == description(trees[0], trees[1], trees[2])
                &&& lines(text@) == seq![
                    channel_line('R', trees[0]),
                    channel_line('G', trees[1]),
                    channel_line('B', trees[2]),
                ]
            },
    {
        let text = match self.channels() {
            Some((red, green, blue)) => describe(red, green, blue),
            None => {
                return None;
            },
        };
        if self.canvas.position().is_some() {
            return None;
        }
        assert(self@.raster.shown() =~= self@.raster.painted);
        Some((self.canvas.into_samples(), text))
    }
}

/// Begins a picture: starts the stream of the seed text, and a picture of
/// the given width and height whose trees may have the given depth, and
/// lets the trees grow as far as indices decide. There is none where a
/// vector cannot hold the samples of the picture.
pub fn generate_image(seed: &str, width: u32, height: u32, depth: i32) -> (made: Option<
    (ExpressionGenerator, Picture),
>)
    ensures
        made is Some <==> fits(width, height),
        made matches Some((generator, picture)) ==> {
            let start = Sketch::start(depth as int, width as nat, height as nat);
            &&& generator.seed == seed_value(seed@)
            &&& (picture@, held(generator.rng)) == grown_by_indices(
                start,
                seeded(seed_value(seed@)),
                turns_left(start),
            )
            &&& picture@.task() != Task::Draw(Request::Terminal)
            &&& picture@.task() != Task::Draw(Request::Operator)
        },
{
    let picture = match Picture::new(width, height, depth) {
        Some(picture) => picture,
        None => {
            return None;
        },
    };
    let mut generator = ExpressionGenerator::new(seed);
    let picture = generator.gen_expr(picture);
    Some((generator, picture))
}

} // verus!
