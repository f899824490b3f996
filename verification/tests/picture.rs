use random_art::expr::{Constant, Node};
use random_art::machine::{Draw, Request};
use random_art::picture::{generate_image, Picture, Task};

fn chance(value: f32) -> Draw {
    Draw::Chance(value.to_bits())
}

fn number(value: f32) -> Draw {
    Draw::Number(Constant::new(value.to_bits(), format!("{}", value)).unwrap())
}

fn begun(width: u32, height: u32, depth: i32) -> Picture {
    Picture::new(width, height, depth).unwrap()
}

fn fed(picture: Picture, draws: Vec<Draw>) -> Picture {
    let mut picture = picture;
    for draw in draws {
        assert!(matches!(picture.task(), Task::Draw(_)));
        picture = picture.feed(draw);
    }
    picture
}

#[test]
fn a_picture_begins_with_a_draw() {
    assert_eq!(begun(2, 2, 3).task(), Task::Draw(Request::Chance));
    assert_eq!(begun(2, 2, 0).task(), Task::Draw(Request::Terminal));
    assert_eq!(begun(0, 0, 0).task(), Task::Draw(Request::Terminal));
    let picture = begun(7, 5, 9);
    assert_eq!(picture.size(), (7, 5));
    assert_eq!(picture.depth(), 9);
    assert!(picture.channels().is_none());
}

#[test]
fn a_picture_begins_with_the_stream_of_its_seed() {
    let (generator, picture) = generate_image("test seed", 1, 1, 1).unwrap();
    let (again, _) = generate_image("test seed", 5, 5, 5).unwrap();
    let (other, _) = generate_image("same seed", 1, 1, 1).unwrap();
    assert_eq!(generator.seed, again.seed);
    assert_ne!(generator.seed, other.seed);
    assert_eq!(picture.task(), Task::Draw(Request::Chance));
    assert_eq!(picture.size(), (1, 1));
    assert_eq!(picture.depth(), 1);
}

#[test]
fn a_picture_too_large_is_not_begun() {
    assert!(generate_image("a seed", u32::MAX, u32::MAX, 1).is_none());
    assert!(Picture::new(u32::MAX, u32::MAX, 1).is_none());
}

#[test]
fn a_generated_picture_asks_for_numbers_and_colours_only() {
    for seed in ["test seed", "same seed", "a", "b", "c", "d"] {
        for depth in [0, 1, 4] {
            let (mut generator, mut picture) = generate_image(seed, 2, 2, depth).unwrap();
            let mut shaded = 0;
            loop {
                picture = match picture.task() {
                    Task::Draw(Request::Chance) => generator.gen_expr(picture.feed(chance(0.5))),
                    Task::Draw(Request::Number) => generator.gen_expr(picture.feed(number(0.5))),
                    Task::Draw(other) => panic!("{:?}", other),
                    Task::Shade(_, _) => {
                        shaded += 1;
                        picture.paint(0, 0, 0)
                    }
                    Task::Finished => break,
                };
            }
            assert_eq!(shaded, 4);
            assert!(picture.finish().is_some());
        }
    }
}

#[test]
fn indices_are_drawn_from_the_stream() {
    let mut generator = random_art::generator::ExpressionGenerator::new("a seed");
    let mut twin = random_art::generator::ExpressionGenerator::new("a seed");
    let mut picture = generator.gen_expr(begun(1, 1, 0));
    let mut other = begun(1, 1, 0);
    loop {
        match other.task() {
            Task::Draw(request) => match twin.pick(request) {
                Some(draw) => other = other.feed(draw),
                None => {
                    assert_eq!(picture.task(), Task::Draw(request));
                    picture = generator.gen_expr(picture.feed(number(0.25)));
                    other = other.feed(number(0.25));
                }
            },
            task => {
                assert_eq!(picture.task(), task);
                break;
            }
        }
    }
    let (red, green, blue) = picture.channels().unwrap();
    let (r, g, b) = other.channels().unwrap();
    assert_eq!((red, green, blue), (r, g, b));
}

#[test]
fn growing_by_indices_leaves_a_painting_alone() {
    let mut generator = random_art::generator::ExpressionGenerator::new("a seed");
    let picture = fed(begun(2, 1, 0), vec![Draw::Choice(0), Draw::Choice(1), Draw::Choice(2)]);
    let picture = generator.gen_expr(picture).paint(1, 2, 3);
    let picture = generator.gen_expr(picture);
    assert_eq!(picture.task(), Task::Shade(1, 0));
    let (samples, text) = generator.gen_expr(picture.paint(4, 5, 6)).finish().unwrap();
    assert_eq!(samples, vec![1, 2, 3, 4, 5, 6]);
    assert_eq!(text, "R: x\nG: y\nB: t");
}

#[test]
fn three_trees_grow_before_any_pixel_is_painted() {
    let picture = begun(2, 1, 1);
    let picture = fed(picture, vec![chance(0.0), Draw::Choice(0)]);
    assert_eq!(picture.task(), Task::Draw(Request::Chance));
    assert!(picture.channels().is_none());
    let picture = fed(picture, vec![chance(0.5), Draw::Choice(5), Draw::Choice(1)]);
    assert_eq!(picture.task(), Task::Draw(Request::Chance));
    let picture = fed(picture, vec![chance(0.05), Draw::Choice(3)]);
    assert_eq!(picture.task(), Task::Draw(Request::Number));
    let picture = fed(picture, vec![number(-0.25)]);
    assert_eq!(picture.task(), Task::Shade(0, 0));
    let (red, green, blue) = picture.channels().unwrap();
    assert_eq!(*red, Node::X);
    assert_eq!(*green, Node::Sin(Box::new(Node::Y)));
    assert_eq!(blue.to_string(), "-0.25");
}

#[test]
fn pixels_are_asked_for_row_after_row() {
    let mut picture = fed(begun(3, 2, 0), vec![Draw::Choice(0), Draw::Choice(1), Draw::Choice(2)]);
    let mut places = Vec::new();
    while let Task::Shade(x, y) = picture.task() {
        places.push((x, y));
        picture = picture.paint((10 * x) as u8, (10 * y) as u8, 7);
    }
    assert_eq!(places, vec![(0, 0), (1, 0), (2, 0), (0, 1), (1, 1), (2, 1)]);
    assert_eq!(picture.task(), Task::Finished);
    let (samples, text) = picture.finish().unwrap();
    assert_eq!(samples, vec![0, 0, 7, 10, 0, 7, 20, 0, 7, 0, 10, 7, 10, 10, 7, 20, 10, 7]);
    assert_eq!(text, "R: x\nG: y\nB: t");
}

#[test]
fn a_draw_that_is_not_wanted_changes_no_picture() {
    let picture = begun(1, 1, 0);
    let picture = picture.feed(chance(0.5)).feed(number(0.5)).feed(Draw::Choice(4));
    assert_eq!(picture.task(), Task::Draw(Request::Terminal));
    let picture = picture.paint(1, 2, 3);
    assert_eq!(picture.task(), Task::Draw(Request::Terminal));
    let picture = fed(picture, vec![Draw::Choice(2), Draw::Choice(2), Draw::Choice(2)]);
    assert_eq!(picture.task(), Task::Shade(0, 0));
    let picture = picture.feed(Draw::Choice(0)).feed(chance(0.5));
    assert_eq!(picture.task(), Task::Shade(0, 0));
    let picture = picture.paint(1, 2, 3);
    assert_eq!(picture.task(), Task::Finished);
    let picture = picture.paint(4, 5, 6).feed(Draw::Choice(0));
    let (samples, text) = picture.finish().unwrap();
    assert_eq!(samples, vec![1, 2, 3]);
    assert_eq!(text, "R: t\nG: t\nB: t");
}

#[test]
fn an_unfinished_picture_gives_nothing() {
    assert!(begun(1, 1, 0).finish().is_none());
    let picture = fed(begun(1, 2, 0), vec![Draw::Choice(0), Draw::Choice(0), Draw::Choice(0)]);
    assert!(picture.finish().is_none());
    let picture = fed(begun(1, 2, 0), vec![Draw::Choice(0), Draw::Choice(0), Draw::Choice(0)]);
    assert!(picture.paint(0, 0, 0).finish().is_none());
    let picture = fed(begun(1, 2, 0), vec![Draw::Choice(0), Draw::Choice(0), Draw::Choice(0)]);
    assert!(picture.paint(0, 0, 0).paint(0, 0, 0).finish().is_some());
}

#[test]
fn a_picture_without_pixels_is_finished_by_its_trees() {
    let picture = fed(begun(0, 4, 0), vec![Draw::Choice(1), Draw::Choice(1), Draw::Choice(1)]);
    assert_eq!(picture.task(), Task::Finished);
    let (samples, text) = picture.finish().unwrap();
    assert!(samples.is_empty());
    assert_eq!(text, "R: y\nG: y\nB: y");
}
