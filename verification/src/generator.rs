//! The random stream of a picture, and the draws that are made from it
//! here: the choices among indices.

use vstd::prelude::*;
use vstd::std_specs::hash::DefaultHasherAdditionalSpecFns;
use std::collections::hash_map::DefaultHasher;
use std::hash::Hasher;
use rand::{Rng, SeedableRng};
use rand_chacha::ChaCha8Rng;
use crate::budget::cost;
use crate::machine::{Draw, Request, LAST_OPERATOR, LAST_TERMINAL};
use crate::picture::{Picture, Sketch, Task};

verus! {

/// The ChaCha stream of eight rounds, of the crate `rand_chacha`. Nothing is
/// known here of what is inside.
#[verifier::external_type_specification]
#[verifier::external_body]
pub struct ExChaCha8Rng(ChaCha8Rng);

/// What the default hasher of std has been given to write, in the model
/// that vstd makes of it, after a byte slice has been hashed into it.
pub uninterp spec fn hashed_into(written: Seq<Seq<u8>>, bytes: Seq<u8>) -> Seq<Seq<u8>>;

/// The number that a seed text stands for: what the default hasher of std
/// makes of the text's bytes.
pub open spec fn seed_value(text: Seq<char>) -> u64 {
    DefaultHasher::spec_finish(hashed_into(Seq::empty(), vstd::utf8::encode_utf8(text)))
}

/// `Hash::hash` of std, for a byte slice and the default hasher. The
/// contract claims that what the hasher is given to write depends on what
/// it had been given before and on the bytes, and on nothing else.
#[verifier::external_body]
fn hash_bytes(bytes: &[u8], hasher: &mut DefaultHasher)
    ensures
        final(hasher)@ == hashed_into(old(hasher)@, bytes@),
{
    std::hash::Hash::hash(&bytes, hasher)
}

/// What a stream holds: its seed, its stream number and its word position,
/// which the crate `rand_chacha` gives out as `get_seed`, `get_stream` and
/// `get_word_pos`. What a stream yields next depends on these alone.
pub uninterp spec fn held(stream: ChaCha8Rng) -> (Seq<u8>, u64, int);

/// What the stream holds that is started from a number.
pub uninterp spec fn seeded(seed: u64) -> (Seq<u8>, u64, int);

/// The index from 0 to `last` that a stream yields which holds `state`.
pub uninterp spec fn index_of(state: (Seq<u8>, u64, int), last: i32) -> i32;

/// What a stream holds after it has yielded an index from 0 to `last`,
/// where it held `state` before.
pub uninterp spec fn after_index(state: (Seq<u8>, u64, int), last: i32) -> (Seq<u8>, u64, int);

/// `SeedableRng::seed_from_u64` of the crate `rand_core`, for the ChaCha
/// stream of eight rounds. The contract claims that what the stream holds
/// depends on the number alone.
#[verifier::external_body]
fn stream_from(seed: u64) -> (stream: ChaCha8Rng)
    ensures
        held(stream) == seeded(seed),
{
    ChaCha8Rng::seed_from_u64(seed)
}

/// `Rng::gen_range` of the crate `rand`, on the closed range from 0 to
/// `last`. The contract claims that the index lies in that range, and that
/// the index and what the stream holds afterwards depend on what the stream
/// held before and on `last` alone.
#[verifier::external_body]
fn draw_index(stream: &mut ChaCha8Rng, last: i32) -> (index: i32)
    requires
        0 <= last,
    ensures
        0 <= index <= last,
        index == index_of(held(*old(stream)), last),
        held(*final(stream)) == after_index(held(*old(stream)), last),
{
    stream.gen_range(0..=last)
}

/// A random stream that was started from a seed text.
pub struct ExpressionGenerator {
    /// The number that the seed text stands for.
    pub seed: u64,
    /// The stream. The numbers between zero and one, and the constants,
    /// are drawn from it by whoever makes the picture.
    pub rng: ChaCha8Rng,
}

/// The turns that a picture has left for draws: as many as three trees of
/// its depth cost, less the draws it has accepted.
pub open spec fn turns_left(sketch: Sketch) -> nat {
    if sketch.draws.len() < 3 * cost(sketch.depth) {
        (3 * cost(sketch.depth) - sketch.draws.len()) as nat
    } else {
        0
    }
}

/// A picture, and what the stream holds, after the trees have grown as far
/// as indices decide, in so many turns at most: as long as an index is asked
/// for, the stream yields it and the picture is fed with it.
pub open spec fn grown_by_indices(sketch: Sketch, state: (Seq<u8>, u64, int), turns: nat) -> (
    Sketch,
    (Seq<u8>, u64, int),
)
    decreases turns,
{
    if turns == 0 {
        (sketch, state)
    } else {
        match sketch.task() {
            Task::Draw(Request::Terminal) => grown_by_indices(
                sketch.feed(Draw::Choice(index_of(state, LAST_TERMINAL))),
                after_index(state, LAST_TERMINAL),
                (turns - 1) as nat,
            ),
            Task::Draw(Request::Operator) => grown_by_indices(
                sketch.feed(Draw::Choice(index_of(state, LAST_OPERATOR))),
                after_index(state, LAST_OPERATOR),
                (turns - 1) as nat,
            ),
            _ => (sketch, state),
        }
    }
}

impl ExpressionGenerator {
    /// Starts the stream of a seed text.
    pub fn new(seed: &str) -> (generator: ExpressionGenerator)
        ensures
            generator.seed == seed_value(seed@),
            held(generator.rng) == seeded(generator.seed),
    {
        let mut hasher = DefaultHasher::new();
        hash_bytes(seed.as_bytes(), &mut hasher);
        let value: u64 = hasher.finish();
        ExpressionGenerator { seed: value, rng: stream_from(value) }
    }

    /// Makes the draw that a request asks for, where it asks for an index:
    /// the index that the stream yields. Any other request leaves the stream
    /// as it is.
    pub fn pick(&mut self, request: Request) -> (draw: Option<Draw>)
        ensures
            final(self).seed == old(self).seed,
            match request {
                Request::Terminal => {
                    &&& draw == Some(Draw::Choice(index_of(held(old(self).rng), LAST_TERMINAL)))
                    &&& held(final(self).rng) == after_index(held(old(self).rng), LAST_TERMINAL)
                    &&& 0 <= index_of(held(old(self).rng), LAST_TERMINAL) <= LAST_TERMINAL
                },
                Request::Operator => {
                    &&& draw == Some(Draw::Choice(index_of(held(old(self).rng), LAST_OPERATOR)))
                    &&& held(final(self).rng) == after_index(held(old(self).rng), LAST_OPERATOR)
                    &&& 0 <= index_of(held(old(self).rng), LAST_OPERATOR) <= LAST_OPERATOR
                },
                _ => draw is None && final(self).rng == old(self).rng,
            },
    {
        match request {
            Request::Terminal => Some(Draw::Choice(draw_index(&mut self.rng, LAST_TERMINAL))),
            Request::Operator => Some(Draw::Choice(draw_index(&mut self.rng, LAST_OPERATOR))),
            _ => None,
        }
    }

    /// Lets the trees of a picture grow as far as indices decide: draws each
    /// index that is asked for, and feeds it, until a number is asked for or
    /// the trees have grown.
    pub fn gen_expr(&mut self, picture: Picture) -> (next: Picture)
        ensures
            final(self).seed == old(self).seed,
            (next@, held(final(self).rng)) == grown_by_indices(
                picture@,
                held(old(self).rng),
                turns_left(picture@),
            ),
            next@.task() != Task::Draw(Request::Terminal),
            next@.task() != Task::Draw(Request::Operator),
    {
        let mut next = picture;
        loop
            invariant
                self.seed == old(self).seed,
                grown_by_indices(next@, held(self.rng), turns_left(next@)) == grown_by_indices(
                    picture@,
                    held(old(self).rng),
                    turns_left(picture@),
                ),
            ensures
                next@.task() != Task::Draw(Request::Terminal),
                next@.task() != Task::Draw(Request::Operator),
            decreases turns_left(next@),
        {
            let draw = match next.task() {
                Task::Draw(request) => self.pick(request),
                _ => None,
            };
            match draw {
                Some(draw) => {
                    next = next.feed(draw);
                },
                None => {
                    break ;
                },
            }
        }
        next
    }
}

} // verus!
