use random_art::builder::TreeBuilder;
use random_art::expr::{Constant, Node};
use random_art::machine::{Draw, Request, LAST_OPERATOR, LAST_TERMINAL};

fn chance(value: f32) -> Draw {
    Draw::Chance(value.to_bits())
}

fn number(value: f32) -> Draw {
    Draw::Number(Constant::new(value.to_bits(), format!("{}", value)).unwrap())
}

fn fed(depth: i32, draws: Vec<Draw>) -> TreeBuilder {
    let mut builder = TreeBuilder::new(depth);
    for draw in draws {
        assert!(builder.accepts(&draw), "{:?}", draw);
        builder = builder.feed(draw);
    }
    builder
}

fn grown(depth: i32, draws: Vec<Draw>) -> Node {
    let builder = fed(depth, draws);
    assert_eq!(builder.request(), None);
    builder.finish().unwrap()
}

#[test]
fn without_depth_a_terminal_is_asked_for_at_once() {
    for depth in [0, -1, -7, i32::MIN] {
        let builder = TreeBuilder::new(depth);
        assert_eq!(builder.depth(), depth);
        assert_eq!(builder.request(), Some(Request::Terminal));
    }
}

#[test]
fn with_depth_the_chance_is_asked_for_first() {
    for depth in [1, 2, 18, i32::MAX] {
        assert_eq!(TreeBuilder::new(depth).request(), Some(Request::Chance));
    }
}

#[test]
fn without_depth_the_tree_is_a_terminal() {
    assert_eq!(grown(0, vec![Draw::Choice(0)]), Node::X);
    assert_eq!(grown(0, vec![Draw::Choice(1)]), Node::Y);
    assert_eq!(grown(0, vec![Draw::Choice(2)]), Node::T);
    assert_eq!(grown(0, vec![Draw::Choice(3), number(-0.5)]).to_string(), "-0.5");
    assert_eq!(grown(-3, vec![Draw::Choice(1)]), Node::Y);
}

#[test]
fn a_chance_below_a_tenth_stops_the_node_early() {
    assert_eq!(grown(5, vec![chance(0.0), Draw::Choice(0)]), Node::X);
    assert_eq!(grown(5, vec![chance(0.099_999_99), Draw::Choice(2)]), Node::T);
    let builder = fed(5, vec![chance(0.099_999_99)]);
    assert_eq!(builder.request(), Some(Request::Terminal));
}

#[test]
fn a_chance_of_a_tenth_or_more_asks_for_an_operator() {
    assert_eq!(fed(5, vec![chance(0.1)]).request(), Some(Request::Operator));
    assert_eq!(fed(5, vec![chance(0.5)]).request(), Some(Request::Operator));
    assert_eq!(fed(1, vec![chance(0.999_999_94)]).request(), Some(Request::Operator));
}

#[test]
fn the_last_terminal_asks_for_a_number() {
    let builder = fed(0, vec![Draw::Choice(LAST_TERMINAL)]);
    assert_eq!(builder.request(), Some(Request::Number));
    let tree = builder.feed(number(0.25)).finish().unwrap();
    match tree {
        Node::Number(c) => {
            assert_eq!(c.bits(), 0.25f32.to_bits());
            assert_eq!(c.text(), "0.25");
        }
        other => panic!("{:?}", other),
    }
}

#[test]
fn each_index_picks_its_operator() {
    let names = ["add", "mult", "mod", "div", "sqrt", "sin", "cos", "avg", "mix"];
    let counts = [2, 2, 2, 2, 1, 1, 1, 2, 4];
    for index in 0..=LAST_OPERATOR {
        let mut draws = vec![chance(0.5), Draw::Choice(index)];
        for _ in 0..counts[index as usize] {
            draws.push(Draw::Choice(0));
        }
        let tree = grown(1, draws);
        let operands = vec!["x"; counts[index as usize]].join(", ");
        assert_eq!(tree.to_string(), format!("{}({})", names[index as usize], operands));
    }
}

#[test]
fn operands_grow_in_order_with_one_less_depth() {
    let tree = grown(
        2,
        vec![
            chance(0.5),
            Draw::Choice(0),
            chance(0.05),
            Draw::Choice(0),
            chance(0.9),
            Draw::Choice(4),
            Draw::Choice(3),
            number(0.25),
        ],
    );
    assert_eq!(tree.to_string(), "add(x, sqrt(0.25))");
    assert_eq!(
        tree,
        Node::Add(
            Box::new(Node::X),
            Box::new(Node::Sqrt(Box::new(Node::Number(
                Constant::new(0.25f32.to_bits(), "0.25".to_string()).unwrap()
            ))))
        )
    );
}

#[test]
fn a_mix_takes_four_operands() {
    let tree = grown(
        3,
        vec![
            chance(0.3),
            Draw::Choice(8),
            chance(0.01),
            Draw::Choice(1),
            chance(0.7),
            Draw::Choice(5),
            chance(0.2),
            Draw::Choice(7),
            Draw::Choice(0),
            Draw::Choice(2),
            chance(0.0),
            Draw::Choice(3),
            number(-1.0),
            chance(0.4),
            Draw::Choice(3),
            chance(0.05),
            Draw::Choice(2),
            chance(0.6),
            Draw::Choice(6),
            Draw::Choice(1),
        ],
    );
    assert_eq!(tree.to_string(), "mix(y, sin(avg(x, t)), -1, div(t, cos(y)))");
}

#[test]
fn the_requests_follow_the_growth() {
    let mut builder = TreeBuilder::new(1);
    let script = vec![
        (Request::Chance, chance(0.5)),
        (Request::Operator, Draw::Choice(2)),
        (Request::Terminal, Draw::Choice(3)),
        (Request::Number, number(0.75)),
        (Request::Terminal, Draw::Choice(1)),
    ];
    for (request, draw) in script {
        assert_eq!(builder.request(), Some(request));
        assert!(builder.accepts(&draw));
        builder = builder.feed(draw);
    }
    assert_eq!(builder.request(), None);
    assert_eq!(builder.finish().unwrap().to_string(), "mod(0.75, y)");
}

#[test]
fn an_unfinished_builder_gives_no_tree() {
    assert_eq!(TreeBuilder::new(3).finish(), None);
    assert_eq!(fed(3, vec![chance(0.5), Draw::Choice(0), chance(0.0)]).finish(), None);
}

#[test]
fn a_draw_that_was_not_asked_for_changes_nothing() {
    let builder = TreeBuilder::new(1);
    assert!(!builder.accepts(&Draw::Choice(0)));
    assert!(!builder.accepts(&number(0.5)));
    let builder = builder.feed(Draw::Choice(0)).feed(number(0.5));
    assert_eq!(builder.request(), Some(Request::Chance));
    let builder = builder.feed(chance(0.5));
    assert!(!builder.accepts(&chance(0.5)));
    assert!(!builder.accepts(&number(0.5)));
    let builder = builder.feed(chance(0.5)).feed(Draw::Choice(4)).feed(Draw::Choice(0));
    assert_eq!(builder.request(), None);
    assert!(!builder.accepts(&Draw::Choice(0)));
    let tree = builder.feed(Draw::Choice(1)).finish().unwrap();
    assert_eq!(tree, Node::Sqrt(Box::new(Node::X)));
}

#[test]
fn a_draw_out_of_its_range_is_not_accepted() {
    let builder = TreeBuilder::new(0);
    assert!(!builder.accepts(&Draw::Choice(-1)));
    assert!(!builder.accepts(&Draw::Choice(LAST_TERMINAL + 1)));
    assert!(builder.accepts(&Draw::Choice(LAST_TERMINAL)));
    let builder = builder.feed(Draw::Choice(LAST_TERMINAL));
    assert!(!builder.accepts(&number(1.5)));
    assert!(!builder.accepts(&number(-1.000_000_1)));
    assert!(builder.accepts(&number(1.0)));
    assert!(builder.accepts(&number(-1.0)));

    let builder = TreeBuilder::new(1);
    assert!(!builder.accepts(&chance(1.0)));
    assert!(!builder.accepts(&chance(-0.5)));
    assert!(!builder.accepts(&chance(f32::NAN)));
    assert!(builder.accepts(&chance(0.0)));
    let builder = builder.feed(chance(0.5));
    assert!(!builder.accepts(&Draw::Choice(-1)));
    assert!(!builder.accepts(&Draw::Choice(LAST_OPERATOR + 1)));
    assert!(builder.accepts(&Draw::Choice(LAST_OPERATOR)));
}

#[test]
fn the_depth_stays_through_the_growth() {
    let builder = fed(4, vec![chance(0.5), Draw::Choice(8), chance(0.5), Draw::Choice(0)]);
    assert_eq!(builder.depth(), 4);
}

#[test]
fn no_tree_is_higher_than_its_depth() {
    fn height(node: &Node) -> u32 {
        match node {
            Node::Add(a, b)
            | Node::Mult(a, b)
            | Node::Mod(a, b)
            | Node::Div(a, b)
            | Node::Average(a, b) => 1 + height(a).max(height(b)),
            Node::Sqrt(a) | Node::Sin(a) | Node::Cos(a) => 1 + height(a),
            Node::Mix(a, b, c, d) => {
                1 + height(a).max(height(b)).max(height(c)).max(height(d))
            }
            _ => 0,
        }
    }
    for depth in 0..6 {
        let mut builder = TreeBuilder::new(depth);
        while let Some(request) = builder.request() {
            let draw = match request {
                Request::Chance => chance(0.5),
                Request::Terminal => Draw::Choice(1),
                Request::Number => number(0.0),
                Request::Operator => Draw::Choice(4),
            };
            builder = builder.feed(draw);
        }
        let tree = builder.finish().unwrap();
        assert_eq!(height(&tree), depth as u32);
    }
}

#[test]
fn no_tree_takes_more_draws_than_its_depth_costs() {
    let mut cost: usize = 2;
    for depth in 0..6 {
        let mut builder = TreeBuilder::new(depth);
        let mut taken: usize = 0;
        while let Some(request) = builder.request() {
            let draw = match request {
                Request::Chance => chance(0.5),
                Request::Terminal => Draw::Choice(LAST_TERMINAL),
                Request::Number => number(0.5),
                Request::Operator => Draw::Choice(LAST_OPERATOR),
            };
            assert!(builder.accepts(&draw));
            builder = builder.feed(draw);
            taken += 1;
        }
        assert_eq!(taken, cost);
        cost = 2 + 4 * cost;
    }
}

#[test]
fn a_tree_can_be_copied() {
    let tree = grown(
        2,
        vec![
            chance(0.5),
            Draw::Choice(8),
            chance(0.0),
            Draw::Choice(3),
            number(0.125),
            chance(0.5),
            Draw::Choice(6),
            Draw::Choice(0),
            chance(0.0),
            Draw::Choice(1),
            chance(0.0),
            Draw::Choice(2),
        ],
    );
    let copy = tree.clone();
    assert_eq!(copy, tree);
    assert_eq!(copy.to_string(), "mix(0.125, cos(x), y, t)");
}
