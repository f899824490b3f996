//! The expression model: a closed set of nodes over the coordinates `x`, `y`
//! and the time `t`, and the text in which a tree is written down.

use vstd::prelude::*;
use vstd::string::*;
use crate::single::{
    at_most_one, below_zero, is_below_zero, is_negligible, is_zero, negligible, zero,
};

verus! {

/// A character that may occur in the decimal spelling of a number: a digit,
/// a sign, the point, or a letter (as in `inf`).
pub open spec fn numeral_char(c: char) -> bool {
    ||| '0' <= c <= '9'
    ||| 'a' <= c <= 'z'
    ||| 'A' <= c <= 'Z'
    ||| c == '.'
    ||| c == '-'
    ||| c == '+'
}

/// A non-empty run of numeral characters.
pub open spec fn is_numeral(s: Seq<char>) -> bool {
    s.len() > 0 && forall|i: int| 0 <= i < s.len() ==> numeral_char(#[trigger] s[i])
}

/// A constant of an expression: the bit pattern of its single-precision
/// value, and the decimal spelling under which it is written down. Both are
/// given by whoever makes the constant; that the one spells the other is not
/// known here.
#[derive(Debug, PartialEq)]
pub struct Constant {
    bits: u32,
    text: String,
}

impl Constant {
    /// The bit pattern of the value.
    pub closed spec fn pattern(&self) -> u32 {
        self.bits
    }

    /// The spelling.
    pub closed spec fn literal(&self) -> Seq<char> {
        self.text@
    }

    /// Every constant is spelled by a numeral.
    #[verifier::type_invariant]
    pub open spec fn wf(&self) -> bool {
        is_numeral(self.literal())
    }

    /// Makes a constant of a pattern and its spelling; there is none when
    /// the spelling is not a numeral.
    pub fn new(bits: u32, text: String) -> (made: Option<Constant>)
        ensures
            made is Some <==> is_numeral(text@),
            made matches Some(c) ==> c.pattern() == bits && c.literal() == text@ && c.wf(),
    {
        if is_numeral_text(text.as_str()) {
            Some(Constant { bits, text })
        } else {
            None
        }
    }

    /// The bit pattern of the value.
    pub fn bits(&self) -> (bits: u32)
        ensures
            bits == self.pattern(),
    {
        self.bits
    }

    /// The spelling.
    pub fn text(&self) -> (text: &str)
        ensures
            text@ == self.literal(),
            is_numeral(text@),
    {
        proof {
            use_type_invariant(self);
        }
        self.text.as_str()
    }
}

impl Clone for Constant {
    fn clone(&self) -> (copy: Self)
        ensures
            copy == *self,
    {
        proof {
            use_type_invariant(self);
        }
        Constant { bits: self.bits, text: self.text.clone() }
    }
}

/// Tells whether a text is a numeral.
pub fn is_numeral_text(text: &str) -> (r: bool)
    ensures
        r == is_numeral(text@),
{
    if !text.is_ascii() {
        assert(!is_numeral(text@)) by {
            if is_numeral(text@) {
                assert forall|i: int| 0 <= i < text@.len() implies '\0' <= #[trigger] text@[i]
                    <= '\u{7f}' by {
                    assert(numeral_char(text@[i]));
                }
            }
        }
        return false;
    }
    let n: usize = text.unicode_len();
    if n == 0 {
        return false;
    }
    let mut i: usize = 0;
    while i < n
        invariant
            i <= n,
            n == text@.len(),
            text.is_ascii(),
            forall|j: int| 0 <= j < i ==> numeral_char(#[trigger] text@[j]),
        decreases n - i,
    {
        let b: u8 = text.get_ascii(i);
        let ok: bool = (48 <= b && b <= 57) || (97 <= b && b <= 122) || (65 <= b && b <= 90) || b
            == 46 || b == 45 || b == 43;
        assert(ok == numeral_char(text@[i as int]));
        if !ok {
            return false;
        }
        i = i + 1;
    }
    true
}

/// The operators of an expression.
#[derive(Clone, Copy, Debug, PartialEq, Eq)]
pub enum Operator {
    /// Half the sum of two operands: the same as `Average`.
    Add,
    /// The product of two operands.
    Mult,
    /// The remainder of the first operand by the second, with the sign of
    /// the first; zero where the second is zero.
    Mod,
    /// The first operand divided by the second; zero where the second is
    /// negligible.
    Div,
    /// The square root; zero where the operand is below zero.
    Sqrt,
    /// The sine.
    Sin,
    /// The cosine.
    Cos,
    /// Half the sum of two operands.
    Average,
    /// Of four operands, the third and the fourth weighted by the first and
    /// the second.
    Mix,
}

impl Operator {
    /// How many operands the operator takes.
    pub open spec fn arity(self) -> nat {
        match self {
            Operator::Sqrt | Operator::Sin | Operator::Cos => 1,
            Operator::Mix => 4,
            _ => 2,
        }
    }

    /// The name under which the operator is written down.
    pub open spec fn name(self) -> Seq<char> {
        match self {
            Operator::Add => "add"@,
            Operator::Mult => "mult"@,
            Operator::Mod => "mod"@,
            Operator::Div => "div"@,
            Operator::Sqrt => "sqrt"@,
            Operator::Sin => "sin"@,
            Operator::Cos => "cos"@,
            Operator::Average => "avg"@,
            Operator::Mix => "mix"@,
        }
    }

    /// Whether the operator stands for zero, whatever its other operands,
    /// when its last operand has the given bit pattern: the remainder, when
    /// the divisor is zero; the quotient, when the divisor is negligible; the
    /// square root, of a number below zero.
    pub open spec fn guarded(self, last: u32) -> bool {
        match self {
            Operator::Mod => zero(last),
            Operator::Div => negligible(last),
            Operator::Sqrt => below_zero(last),
            _ => false,
        }
    }

    /// Tells whether the operator stands for zero when its last operand has
    /// the given bit pattern.
    pub fn guards(self, last: u32) -> (r: bool)
        ensures
            r == self.guarded(last),
    {
        match self {
            Operator::Mod => is_zero(last),
            Operator::Div => is_negligible(last),
            Operator::Sqrt => is_below_zero(last),
            _ => false,
        }
    }

    /// How many operands the operator takes.
    pub fn operands(self) -> (n: usize)
        ensures
            n == self.arity(),
    {
        match self {
            Operator::Sqrt | Operator::Sin | Operator::Cos => 1,
            Operator::Mix => 4,
            _ => 2,
        }
    }

    /// The name under which the operator is written down.
    pub fn label(self) -> (label: &'static str)
        ensures
            label@ == self.name(),
    {
        match self {
            Operator::Add => "add",
            Operator::Mult => "mult",
            Operator::Mod => "mod",
            Operator::Div => "div",
            Operator::Sqrt => "sqrt",
            Operator::Sin => "sin",
            Operator::Cos => "cos",
            Operator::Average => "avg",
            Operator::Mix => "mix",
        }
    }
}

/// An expression over `x`, `y` and `t`. A node owns its operands.
#[derive(Debug, PartialEq)]
pub enum Node {
    /// The horizontal coordinate.
    X,
    /// The vertical coordinate.
    Y,
    /// The time.
    T,
    /// A constant.
    Number(Constant),
    Add(Box<Node>, Box<Node>),
    Mult(Box<Node>, Box<Node>),
    Mod(Box<Node>, Box<Node>),
    Div(Box<Node>, Box<Node>),
    Sqrt(Box<Node>),
    Sin(Box<Node>),
    Cos(Box<Node>),
    Average(Box<Node>, Box<Node>),
    Mix(Box<Node>, Box<Node>, Box<Node>, Box<Node>),
}

impl Clone for Node {
    fn clone(&self) -> (copy: Self)
        ensures
            copy == *self,
        decreases self,
    {
        match self {
            Node::X => Node::X,
            Node::Y => Node::Y,
            Node::T => Node::T,
            Node::Number(c) => Node::Number(c.clone()),
            Node::Add(a, b) => Node::Add(Box::new((**a).clone()), Box::new((**b).clone())),
            Node::Mult(a, b) => Node::Mult(Box::new((**a).clone()), Box::new((**b).clone())),
            Node::Mod(a, b) => Node::Mod(Box::new((**a).clone()), Box::new((**b).clone())),
            Node::Div(a, b) => Node::Div(Box::new((**a).clone()), Box::new((**b).clone())),
            Node::Sqrt(a) => Node::Sqrt(Box::new((**a).clone())),
            Node::Sin(a) => Node::Sin(Box::new((**a).clone())),
            Node::Cos(a) => Node::Cos(Box::new((**a).clone())),
            Node::Average(a, b) => Node::Average(
                Box::new((**a).clone()),
                Box::new((**b).clone()),
            ),
            Node::Mix(a, b, c, d) => Node::Mix(
                Box::new((**a).clone()),
                Box::new((**b).clone()),
                Box::new((**c).clone()),
                Box::new((**d).clone()),
            ),
        }
    }
}

/// An operator applied to its operands, in the order in which they are
/// written.
pub open spec fn applied(operator: Operator, operands: Seq<Node>) -> Node
    recommends
        operands.len() == operator.arity(),
{
    match operator {
        Operator::Add => Node::Add(Box::new(operands[0]), Box::new(operands[1])),
        Operator::Mult => Node::Mult(Box::new(operands[0]), Box::new(operands[1])),
        Operator::Mod => Node::Mod(Box::new(operands[0]), Box::new(operands[1])),
        Operator::Div => Node::Div(Box::new(operands[0]), Box::new(operands[1])),
        Operator::Sqrt => Node::Sqrt(Box::new(operands[0])),
        Operator::Sin => Node::Sin(Box::new(operands[0])),
        Operator::Cos => Node::Cos(Box::new(operands[0])),
        Operator::Average => Node::Average(Box::new(operands[0]), Box::new(operands[1])),
        Operator::Mix => Node::Mix(
            Box::new(operands[0]),
            Box::new(operands[1]),
            Box::new(operands[2]),
            Box::new(operands[3]),
        ),
    }
}

/// The text of an operator applied to written operands: the name, then the
/// operands in brackets, separated by a comma and a blank.
pub open spec fn applied_text(name: Seq<char>, operands: Seq<Seq<char>>) -> Seq<char> {
    name + "("@ + listed(operands) + ")"@
}

/// Texts in a row, separated by a comma and a blank.
pub open spec fn listed(texts: Seq<Seq<char>>) -> Seq<char>
    decreases texts.len(),
{
    if texts.len() == 0 {
        Seq::empty()
    } else if texts.len() == 1 {
        texts[0]
    } else {
        listed(texts.drop_last()) + ", "@ + texts.last()
    }
}

impl Node {
    /// The operator at the root, if the node is not a terminal.
    pub open spec fn operator(self) -> Option<Operator> {
        match self {
            Node::Add(..) => Some(Operator::Add),
            Node::Mult(..) => Some(Operator::Mult),
            Node::Mod(..) => Some(Operator::Mod),
            Node::Div(..) => Some(Operator::Div),
            Node::Sqrt(..) => Some(Operator::Sqrt),
            Node::Sin(..) => Some(Operator::Sin),
            Node::Cos(..) => Some(Operator::Cos),
            Node::Average(..) => Some(Operator::Average),
            Node::Mix(..) => Some(Operator::Mix),
            _ => None,
        }
    }

    /// A terminal reads a coordinate, the time, or a constant.
    pub open spec fn is_terminal(self) -> bool {
        self.operator() is None
    }

    /// The number of operators on the longest way from the root to a
    /// terminal.
    pub open spec fn height(self) -> nat
        decreases self,
    {
        match self {
            Node::Add(a, b) | Node::Mult(a, b) | Node::Mod(a, b) | Node::Div(a, b) | Node::Average(
                a,
                b,
            ) => 1 + vstd::math::max(a.height() as int, b.height() as int) as nat,
            Node::Sqrt(a) | Node::Sin(a) | Node::Cos(a) => 1 + a.height(),
            Node::Mix(a, b, c, d) => 1 + vstd::math::max(
                vstd::math::max(a.height() as int, b.height() as int),
                vstd::math::max(c.height() as int, d.height() as int),
            ) as nat,
            _ => 0,
        }
    }

    /// Every constant in the tree is spelled by a numeral.
    pub open spec fn wf(self) -> bool
        decreases self,
    {
        match self {
            Node::Number(c) => c.wf(),
            Node::Add(a, b) | Node::Mult(a, b) | Node::Mod(a, b) | Node::Div(a, b) | Node::Average(
                a,
                b,
            ) => a.wf() && b.wf(),
            Node::Sqrt(a) | Node::Sin(a) | Node::Cos(a) => a.wf(),
            Node::Mix(a, b, c, d) => a.wf() && b.wf() && c.wf() && d.wf(),
            _ => true,
        }
    }

    /// Every constant in the tree lies between minus one and one.
    pub open spec fn bounded(self) -> bool
        decreases self,
    {
        match self {
            Node::Number(c) => at_most_one(c.pattern()),
            Node::Add(a, b) | Node::Mult(a, b) | Node::Mod(a, b) | Node::Div(a, b) | Node::Average(
                a,
                b,
            ) => a.bounded() && b.bounded(),
            Node::Sqrt(a) | Node::Sin(a) | Node::Cos(a) => a.bounded(),
            Node::Mix(a, b, c, d) => a.bounded() && b.bounded() && c.bounded() && d.bounded(),
            _ => true,
        }
    }

    /// The text of the expression: `x`, `y`, `t` or the numeral of a
    /// constant for a terminal, and for the others the operator's name with
    /// the operands' texts in brackets.
    pub open spec fn rendered(self) -> Seq<char>
        decreases self,
    {
        match self {
            Node::X => "x"@,
            Node::Y => "y"@,
            Node::T => "t"@,
            Node::Number(c) => c.literal(),
            Node::Add(a, b) => applied_text(Operator::Add.name(), seq![a.rendered(), b.rendered()]),
            Node::Mult(a, b) => applied_text(
                Operator::Mult.name(),
                seq![a.rendered(), b.rendered()],
            ),
            Node::Mod(a, b) => applied_text(Operator::Mod.name(), seq![a.rendered(), b.rendered()]),
            Node::Div(a, b) => applied_text(Operator::Div.name(), seq![a.rendered(), b.rendered()]),
            Node::Sqrt(a) => applied_text(Operator::Sqrt.name(), seq![a.rendered()]),
            Node::Sin(a) => applied_text(Operator::Sin.name(), seq![a.rendered()]),
            Node::Cos(a) => applied_text(Operator::Cos.name(), seq![a.rendered()]),
            Node::Average(a, b) => applied_text(
                Operator::Average.name(),
                seq![a.rendered(), b.rendered()],
            ),
            Node::Mix(a, b, c, d) => applied_text(
                Operator::Mix.name(),
                seq![a.rendered(), b.rendered(), c.rendered(), d.rendered()],
            ),
        }
    }
}

/// A character of an expression's text: one of a numeral, a bracket, the
/// comma or the blank.
pub open spec fn expression_char(c: char) -> bool {
    numeral_char(c) || c == '(' || c == ')' || c == ',' || c == ' '
}

/// A non-empty run of expression characters.
pub open spec fn is_expression_text(s: Seq<char>) -> bool {
    s.len() > 0 && forall|i: int| 0 <= i < s.len() ==> expression_char(#[trigger] s[i])
}

/// The views of a row of strings.
pub open spec fn views(texts: Seq<String>) -> Seq<Seq<char>> {
    Seq::new(texts.len(), |i: int| texts[i]@)
}

/// Every operator's name is a run of letters.
pub proof fn lemma_name_is_expression_text(operator: Operator)
    ensures
        is_expression_text(operator.name()),
{
    reveal_strlit("add");
    reveal_strlit("mult");
    reveal_strlit("mod");
    reveal_strlit("div");
    reveal_strlit("sqrt");
    reveal_strlit("sin");
    reveal_strlit("cos");
    reveal_strlit("avg");
    reveal_strlit("mix");
}

/// A list of expression texts holds expression characters only.
pub proof fn lemma_listed_chars(texts: Seq<Seq<char>>)
    requires
        forall|k: int| 0 <= k < texts.len() ==> is_expression_text(#[trigger] texts[k]),
    ensures
        forall|i: int| 0 <= i < listed(texts).len() ==> expression_char(#[trigger] listed(texts)[i]),
    decreases texts.len(),
{
    if texts.len() >= 2 {
        reveal_strlit(", ");
        let front = texts.drop_last();
        assert forall|k: int| 0 <= k < front.len() implies is_expression_text(
            #[trigger] front[k],
        ) by {
            assert(front[k] == texts[k]);
        }
        lemma_listed_chars(front);
        assert(is_expression_text(texts.last()));
        let head = listed(front) + ", "@;
        assert forall|i: int| 0 <= i < listed(texts).len() implies expression_char(
            #[trigger] listed(texts)[i],
        ) by {
            if i < listed(front).len() {
                assert(listed(texts)[i] == listed(front)[i]);
            } else if i < head.len() {
                assert(listed(texts)[i] == ", "@[i - listed(front).len()]);
            } else {
                assert(listed(texts)[i] == texts.last()[i - head.len()]);
            }
        }
    } else if texts.len() == 1 {
        assert(is_expression_text(texts[0]));
    }
}

/// An operator applied to expression texts is an expression text.
pub proof fn lemma_applied_text_chars(operator: Operator, texts: Seq<Seq<char>>)
    requires
        forall|k: int| 0 <= k < texts.len() ==> is_expression_text(#[trigger] texts[k]),
    ensures
        is_expression_text(applied_text(operator.name(), texts)),
{
    reveal_strlit("(");
    reveal_strlit(")");
    lemma_name_is_expression_text(operator);
    lemma_listed_chars(texts);
}

/// The text of a tree whose constants are spelled by numerals is a single
/// run of expression characters: it holds no line break.
pub proof fn lemma_rendered_is_expression_text(node: Node)
    requires
        node.wf(),
    ensures
        is_expression_text(node.rendered()),
    decreases node,
{
    reveal_strlit("x");
    reveal_strlit("y");
    reveal_strlit("t");
    match node {
        Node::Add(a, b) | Node::Mult(a, b) | Node::Mod(a, b) | Node::Div(a, b) | Node::Average(
            a,
            b,
        ) => {
            lemma_rendered_is_expression_text(*a);
            lemma_rendered_is_expression_text(*b);
            lemma_applied_text_chars(node.operator().unwrap(), seq![a.rendered(), b.rendered()]);
        },
        Node::Sqrt(a) | Node::Sin(a) | Node::Cos(a) => {
            lemma_rendered_is_expression_text(*a);
            lemma_applied_text_chars(node.operator().unwrap(), seq![a.rendered()]);
        },
        Node::Mix(a, b, c, d) => {
            lemma_rendered_is_expression_text(*a);
            lemma_rendered_is_expression_text(*b);
            lemma_rendered_is_expression_text(*c);
            lemma_rendered_is_expression_text(*d);
            lemma_applied_text_chars(
                Operator::Mix,
                seq![a.rendered(), b.rendered(), c.rendered(), d.rendered()],
            );
        },
        _ => {},
    }
}

/// Writes an operator applied to operands that are already written.
pub fn write_applied(operator: Operator, operands: &Vec<String>) -> (text: String)
    ensures
        text@ == applied_text(operator.name(), views(operands@)),
        (forall|k: int| 0 <= k < operands.len() ==> is_expression_text(#[trigger] operands[k]@))
            ==> is_expression_text(text@),
{
    proof {
        if forall|k: int| 0 <= k < operands.len() ==> is_expression_text(#[trigger] operands[k]@) {
            assert forall|k: int| 0 <= k < views(operands@).len() implies is_expression_text(
                #[trigger] views(operands@)[k],
            ) by {
                assert(is_expression_text(operands[k]@));
            }
            lemma_applied_text_chars(operator, views(operands@));
        }
    }
    let ghost texts = views(operands@);
    let mut text: String = String::from_str(operator.label());
    text.append("(");
    let mut i: usize = 0;
    assert(texts.take(0) =~= Seq::<Seq<char>>::empty());
    while i < operands.len()
        invariant
            i <= operands.len(),
            texts == views(operands@),
            text@ == operator.name() + "("@ + listed(texts.take(i as int)),
        decreases operands.len() - i,
    {
        proof {
            let before = texts.take(i as int);
            let after = texts.take(i + 1);
            assert(after.drop_last() =~= before);
            assert(after.last() == operands@[i as int]@);
        }
        if i > 0 {
            text.append(", ");
        }
        text.append(operands[i].as_str());
        i = i + 1;
    }
    assert(texts.take(i as int) =~= texts);
    text.append(")");
    text
}

/// Writes an operator applied to one written operand.
fn write_one(operator: Operator, a: String) -> (text: String)
    requires
        is_expression_text(a@),
    ensures
        text@ == applied_text(operator.name(), seq![a@]),
        is_expression_text(text@),
{
    let mut operands: Vec<String> = Vec::new();
    operands.push(a);
    assert(views(operands@) =~= seq![a@]);
    write_applied(operator, &operands)
}

/// Writes an operator applied to two written operands.
fn write_two(operator: Operator, a: String, b: String) -> (text: String)
    requires
        is_expression_text(a@),
        is_expression_text(b@),
    ensures
        text@ == applied_text(operator.name(), seq![a@, b@]),
        is_expression_text(text@),
{
    let mut operands: Vec<String> = Vec::new();
    operands.push(a);
    operands.push(b);
    assert(views(operands@) =~= seq![a@, b@]);
    write_applied(operator, &operands)
}

impl Node {
    /// Writes the expression down. The text is a single run of expression
    /// characters, so it holds no line break.
    pub fn to_string(&self) -> (text: String)
        ensures
            text@ == self.rendered(),
            is_expression_text(text@),
        decreases self,
    {
        proof {
            reveal_strlit("x");
            reveal_strlit("y");
            reveal_strlit("t");
        }
        match self {
            Node::X => String::from_str("x"),
            Node::Y => String::from_str("y"),
            Node::T => String::from_str("t"),
            Node::Number(c) => String::from_str(c.text()),
            Node::Add(a, b) => write_two(Operator::Add, a.to_string(), b.to_string()),
            Node::Mult(a, b) => write_two(Operator::Mult, a.to_string(), b.to_string()),
            Node::Mod(a, b) => write_two(Operator::Mod, a.to_string(), b.to_string()),
            Node::Div(a, b) => write_two(Operator::Div, a.to_string(), b.to_string()),
            Node::Sqrt(a) => write_one(Operator::Sqrt, a.to_string()),
            Node::Sin(a) => write_one(Operator::Sin, a.to_string()),
            Node::Cos(a) => write_one(Operator::Cos, a.to_string()),
            Node::Average(a, b) => write_two(Operator::Average, a.to_string(), b.to_string()),
            Node::Mix(a, b, c, d) => {
                let mut operands: Vec<String> = Vec::new();
                operands.push(a.to_string());
                operands.push(b.to_string());
                operands.push(c.to_string());
                operands.push(d.to_string());
                assert(views(operands@) =~= seq![
                    a.rendered(),
                    b.rendered(),
                    c.rendered(),
                    d.rendered(),
                ]);
                write_applied(Operator::Mix, &operands)
            },
        }
    }
}

} // verus!
