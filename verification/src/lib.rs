//! Random art: pictures whose colours are arithmetic expressions over the
//! place of a pixel.
//!
//! A picture has three expression trees, for red, green and blue. They grow
//! out of one stream of random draws, which a seed text starts. Each pixel is
//! then coloured by what the three trees make of its place.
//!
//! This library holds no floating-point number. It decides which draw is
//! made next and what each draw means, draws the indices, keeps the trees,
//! writes them down, and lays the colours out as a picture. Whoever makes a
//! picture draws the numbers and works out the colours, one at a time, as
//! the picture asks for them; a number passes through here as the bit
//! pattern of its single-precision value.
//!
//! - [`single`]: single-precision numbers, read through their bit patterns.
//! - [`expr`]: the expression model and its text.
//! - [`describe`]: the description of a picture.
//! - [`machine`]: the states of a growing tree, and what a draw does to one.
//! - [`growth`]: the rule of growth over a whole row of draws, and the proof
//!   that the states follow it.
//! - [`budget`]: a bound on the draws that a tree takes.
//! - [`builder`]: the builder of one tree.
//! - [`generator`]: the random stream, and the draws of indices.
//! - [`canvas`]: the pixel grid.
//! - [`picture`]: a picture in the making.

pub mod budget;
pub mod builder;
pub mod canvas;
pub mod describe;
pub mod expr;
pub mod generator;
pub mod growth;
pub mod machine;
pub mod picture;
pub mod single;

pub use crate::picture::generate_image;
