use rand::{Rng, RngCore, SeedableRng};
use rand_chacha::ChaCha8Rng;
use random_art::generator::ExpressionGenerator;
use random_art::machine::{Draw, Request, LAST_OPERATOR, LAST_TERMINAL};
use std::collections::hash_map::DefaultHasher;
use std::hash::{Hash, Hasher};

fn hashed(seed: &str) -> u64 {
    let bytes = seed.as_bytes();
    let mut hasher = DefaultHasher::new();
    Hash::hash(&bytes, &mut hasher);
    hasher.finish()
}

#[test]
fn the_seed_value_is_the_hash_of_the_text() {
    for seed in ["", "a", "test seed", "same seed", "SecretKey"] {
        assert_eq!(ExpressionGenerator::new(seed).seed, hashed(seed));
    }
}

#[test]
fn the_seed_value_depends_on_the_text() {
    let a = ExpressionGenerator::new("test seed").seed;
    let b = ExpressionGenerator::new("same seed").seed;
    let empty = ExpressionGenerator::new("").seed;
    assert_ne!(a, b);
    assert_ne!(a, empty);
    assert_eq!(a, ExpressionGenerator::new("test seed").seed);
}

#[test]
fn the_stream_is_the_one_of_the_seed_value() {
    let mut generator = ExpressionGenerator::new("test seed");
    let mut stream = ChaCha8Rng::seed_from_u64(hashed("test seed"));
    for _ in 0..100 {
        assert_eq!(generator.rng.next_u32(), stream.next_u32());
    }
    let mut other = ChaCha8Rng::seed_from_u64(hashed("same seed"));
    let same = (0..8).all(|_| generator.rng.next_u32() == other.next_u32());
    assert!(!same);
}

#[test]
fn a_pick_is_the_index_that_the_stream_gives() {
    let mut generator = ExpressionGenerator::new("same seed");
    let mut stream = ChaCha8Rng::seed_from_u64(hashed("same seed"));
    let mut seen_terminal = [false; 4];
    let mut seen_operator = [false; 9];
    for _ in 0..500 {
        let expected: i32 = stream.gen_range(0..=LAST_TERMINAL);
        match generator.pick(Request::Terminal) {
            Some(Draw::Choice(index)) => {
                assert_eq!(index, expected);
                assert!((0..=LAST_TERMINAL).contains(&index));
                seen_terminal[index as usize] = true;
            }
            other => panic!("{:?}", other),
        }
        let expected: i32 = stream.gen_range(0..=LAST_OPERATOR);
        match generator.pick(Request::Operator) {
            Some(Draw::Choice(index)) => {
                assert_eq!(index, expected);
                assert!((0..=LAST_OPERATOR).contains(&index));
                seen_operator[index as usize] = true;
            }
            other => panic!("{:?}", other),
        }
    }
    assert!(seen_terminal.iter().all(|seen| *seen));
    assert!(seen_operator.iter().all(|seen| *seen));
}

#[test]
fn numbers_are_not_picked_here() {
    let mut generator = ExpressionGenerator::new("test seed");
    let mut stream = ChaCha8Rng::seed_from_u64(hashed("test seed"));
    assert_eq!(generator.pick(Request::Chance), None);
    assert_eq!(generator.pick(Request::Number), None);
    assert_eq!(generator.rng.next_u64(), stream.next_u64());
    assert_eq!(generator.seed, hashed("test seed"));
}

#[test]
fn the_indices_reach_their_bounds() {
    assert_eq!(LAST_TERMINAL, 3);
    assert_eq!(LAST_OPERATOR, 8);
}

#[test]
fn a_stream_holds_its_seed_its_number_and_its_place() {
    let generator = ExpressionGenerator::new("test seed");
    let twin = ChaCha8Rng::seed_from_u64(hashed("test seed"));
    assert_eq!(generator.rng.get_seed(), twin.get_seed());
    assert_eq!(generator.rng.get_stream(), 0);
    assert_eq!(generator.rng.get_word_pos(), 0);
    assert_eq!(generator.rng, twin);
}

#[test]
fn streams_that_hold_the_same_yield_the_same_indices() {
    let mut first = ExpressionGenerator::new("one");
    let mut second = ExpressionGenerator::new("two");
    for _ in 0..5 {
        first.pick(Request::Operator);
    }
    second.rng = ChaCha8Rng::from_seed(first.rng.get_seed());
    second.rng.set_stream(first.rng.get_stream());
    second.rng.set_word_pos(first.rng.get_word_pos());
    for _ in 0..200 {
        assert_eq!(first.pick(Request::Terminal), second.pick(Request::Terminal));
        assert_eq!(first.pick(Request::Operator), second.pick(Request::Operator));
        assert_eq!(first.rng.get_word_pos(), second.rng.get_word_pos());
    }
}

#[test]
fn a_pick_moves_the_stream_on() {
    let mut generator = ExpressionGenerator::new("test seed");
    let before = generator.rng.get_word_pos();
    generator.pick(Request::Terminal);
    assert!(generator.rng.get_word_pos() > before);
    let place = generator.rng.get_word_pos();
    generator.pick(Request::Number);
    generator.pick(Request::Chance);
    assert_eq!(generator.rng.get_word_pos(), place);
}
