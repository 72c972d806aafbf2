use vstd::prelude::*;
use crate::tokenizer::{
    lemma_lex_bounds, lex, Decimal, LexErrorModel, Token, TokenModel, Tokenizer, TokenizerError,
};

verus! {

/// Binding strength of an operator, from loosest to tightest.
#[derive(Debug, Clone, Copy, PartialEq, Eq, Structural)]
pub enum OperationPrecedence {
    DefaultZero,
    AddSubtract,
    MultiplyDivision,
    Power,
    Negative,
}

impl OperationPrecedence {
    pub open spec fn spec_level(&self) -> nat {
        match self {
            OperationPrecedence::DefaultZero => 0,
            OperationPrecedence::AddSubtract => 1,
            OperationPrecedence::MultiplyDivision => 2,
            OperationPrecedence::Power => 3,
            OperationPrecedence::Negative => 4,
        }
    }

    /// The rank of the level in the order above, starting at 0.
    pub fn level(&self) -> (r: u8)
        ensures
            r == self.spec_level(),
    {
        match self {
            OperationPrecedence::DefaultZero => 0,
            OperationPrecedence::AddSubtract => 1,
            OperationPrecedence::MultiplyDivision => 2,
            OperationPrecedence::Power => 3,
            OperationPrecedence::Negative => 4,
        }
    }
}

/// The level at which a token binds as a binary operator; other tokens bind
/// at `DefaultZero`.
pub open spec fn precedence_of(t: TokenModel) -> OperationPrecedence {
    match t {
        TokenModel::Add | TokenModel::Subtract => OperationPrecedence::AddSubtract,
        TokenModel::Multiply | TokenModel::Divide => OperationPrecedence::MultiplyDivision,
        TokenModel::Power => OperationPrecedence::Power,
        _ => OperationPrecedence::DefaultZero,
    }
}

/// An expression tree. Each composite node owns its operands.
#[derive(Debug, PartialEq)]
pub enum Node {
    Add(Box<Node>, Box<Node>),
    Subtract(Box<Node>, Box<Node>),
    Multiply(Box<Node>, Box<Node>),
    Divide(Box<Node>, Box<Node>),
    Power(Box<Node>, Box<Node>),
    Negative(Box<Node>),
    Number(Decimal),
}

/// A syntax error, or a lexical error met while parsing.
#[derive(Debug, Clone, PartialEq)]
pub enum ParserError {
    /// The expression holds no token at all.
    NoTokens,
    /// A group is opened and not closed.
    UnmatchedParenthesis,
    /// A token stands where an operand is expected.
    InvalidExpression,
    /// The tokenizer failed.
    WrappedTokenizerError(TokenizerError),
}

impl ParserError {
    /// A sentence that says what went wrong; a lexical error gives its own.
    pub fn message(&self) -> (r: String)
        ensures
            r@ == match self {
                ParserError::NoTokens => "no tokens could be extracted from the expression"@,
                ParserError::UnmatchedParenthesis => "there are unmatched parenthesis in the expression"@,
                ParserError::InvalidExpression => "the expression isn't valid"@,
                ParserError::WrappedTokenizerError(e) => e.message_text(),
            },
    {
        match self {
            ParserError::NoTokens => String::from_str("no tokens could be extracted from the expression"),
            ParserError::UnmatchedParenthesis => String::from_str(
                "there are unmatched parenthesis in the expression",
            ),
            ParserError::InvalidExpression => String::from_str("the expression isn't valid"),
            ParserError::WrappedTokenizerError(e) => e.message(),
        }
    }
}

/// The mathematical value of an expression tree; a number is its integer and
/// fraction digits.
pub enum NodeModel {
    Add(Box<NodeModel>, Box<NodeModel>),
    Subtract(Box<NodeModel>, Box<NodeModel>),
    Multiply(Box<NodeModel>, Box<NodeModel>),
    Divide(Box<NodeModel>, Box<NodeModel>),
    Power(Box<NodeModel>, Box<NodeModel>),
    Negative(Box<NodeModel>),
    Number(Seq<u8>, Seq<u8>),
}

/// The mathematical value of a parser error.
pub enum ParseErrorModel {
    NoTokens,
    UnmatchedParenthesis,
    InvalidExpression,
    Lexical(LexErrorModel),
}

pub open spec fn node_model(n: Node) -> NodeModel
    decreases n,
{
    match n {
        Node::Add(l, r) => NodeModel::Add(Box::new(node_model(*l)), Box::new(node_model(*r))),
        Node::Subtract(l, r) => NodeModel::Subtract(
            Box::new(node_model(*l)),
            Box::new(node_model(*r)),
        ),
        Node::Multiply(l, r) => NodeModel::Multiply(
            Box::new(node_model(*l)),
            Box::new(node_model(*r)),
        ),
        Node::Divide(l, r) => NodeModel::Divide(
            Box::new(node_model(*l)),
            Box::new(node_model(*r)),
        ),
        Node::Power(l, r) => NodeModel::Power(Box::new(node_model(*l)), Box::new(node_model(*r))),
        Node::Negative(x) => NodeModel::Negative(Box::new(node_model(*x))),
        Node::Number(d) => NodeModel::Number(d.integer@, d.fraction@),
    }
}

impl View for Node {
    type V = NodeModel;

    open spec fn view(&self) -> NodeModel {
        node_model(*self)
    }
}

impl View for ParserError {
    type V = ParseErrorModel;

    open spec fn view(&self) -> ParseErrorModel {
        match self {
            ParserError::NoTokens => ParseErrorModel::NoTokens,
            ParserError::UnmatchedParenthesis => ParseErrorModel::UnmatchedParenthesis,
            ParserError::InvalidExpression => ParseErrorModel::InvalidExpression,
            ParserError::WrappedTokenizerError(e) => ParseErrorModel::Lexical(e@),
        }
    }
}

/// What a parsing step gives: the tree, the tokenizer's position and the
/// lookahead token after it; or an error.
pub type Step = Result<(NodeModel, int, TokenModel), ParseErrorModel>;

/// A quantity that every step that consumes a token lowers: twice the
/// characters left, plus one while the lookahead is not `End`.
pub open spec fn measure(s: Seq<char>, pos: int, cur: TokenModel) -> nat {
    if 0 <= pos <= s.len() {
        (2 * (s.len() - pos) + if cur is End { 0int } else { 1int }) as nat
    } else {
        0
    }
}

/// Pulls the next token from position `pos`: the new position and lookahead.
pub open spec fn advance(s: Seq<char>, pos: int) -> Result<(int, TokenModel), ParseErrorModel> {
    match lex(s, pos).0 {
        Ok(t) => Ok((lex(s, pos).1, t)),
        Err(e) => Err(ParseErrorModel::Lexical(e)),
    }
}

/// The tree that a binary operator token builds.
pub open spec fn binary(op: TokenModel, l: NodeModel, r: NodeModel) -> NodeModel {
    match op {
        TokenModel::Add => NodeModel::Add(Box::new(l), Box::new(r)),
        TokenModel::Subtract => NodeModel::Subtract(Box::new(l), Box::new(r)),
        TokenModel::Multiply => NodeModel::Multiply(Box::new(l), Box::new(r)),
        TokenModel::Divide => NodeModel::Divide(Box::new(l), Box::new(r)),
        _ => NodeModel::Power(Box::new(l), Box::new(r)),
    }
}

/// An operand followed by every operator that binds tighter than `prec`,
/// starting with lookahead `cur` and the tokenizer at `pos`.
pub open spec fn parse_expr(s: Seq<char>, prec: OperationPrecedence, pos: int, cur: TokenModel) -> Step
    decreases measure(s, pos, cur), 4int,
{
    match parse_primary(s, pos, cur) {
        Ok((left, p1, c1)) => if measure(s, p1, c1) <= measure(s, pos, cur) {
            parse_operators(s, prec, left, p1, c1)
        } else {
            Err(ParseErrorModel::InvalidExpression)
        },
        Err(e) => Err(e),
    }
}

/// Folds operators that bind tighter than `prec` onto `left`, left to right.
pub open spec fn parse_operators(
    s: Seq<char>,
    prec: OperationPrecedence,
    left: NodeModel,
    pos: int,
    cur: TokenModel,
) -> Step
    decreases measure(s, pos, cur), 3int,
{
    if prec.spec_level() < precedence_of(cur).spec_level() {
        match parse_operation(s, left, pos, cur) {
            Ok((n, p2, c2)) => if measure(s, p2, c2) < measure(s, pos, cur) {
                parse_operators(s, prec, n, p2, c2)
            } else {
                Err(ParseErrorModel::InvalidExpression)
            },
            Err(e) => Err(e),
        }
    } else {
        Ok((left, pos, cur))
    }
}

/// The binary operator `cur`, applied to `left` and to the operand that
/// follows at the operator's own level. So every operator, `^` included,
/// groups to the left: `2^3^2` is `(2^3)^2`.
pub open spec fn parse_operation(s: Seq<char>, left: NodeModel, pos: int, cur: TokenModel) -> Step
    decreases measure(s, pos, cur), 2int,
{
    match advance(s, pos) {
        Ok((p1, c1)) => if measure(s, p1, c1) < measure(s, pos, cur) {
            match parse_expr(s, precedence_of(cur), p1, c1) {
                Ok((right, p2, c2)) => Ok((binary(cur, left, right), p2, c2)),
                Err(e) => Err(e),
            }
        } else {
            Err(ParseErrorModel::InvalidExpression)
        },
        Err(e) => Err(e),
    }
}

/// An operand: a negated operand, a number, or a group.
pub open spec fn parse_primary(s: Seq<char>, pos: int, cur: TokenModel) -> Step
    decreases measure(s, pos, cur), 1int,
{
    match cur {
        TokenModel::Subtract => match advance(s, pos) {
            Ok((p1, c1)) => if measure(s, p1, c1) < measure(s, pos, cur) {
                match parse_expr(s, OperationPrecedence::Negative, p1, c1) {
                    Ok((inner, p2, c2)) => Ok((NodeModel::Negative(Box::new(inner)), p2, c2)),
                    Err(e) => Err(e),
                }
            } else {
                Err(ParseErrorModel::InvalidExpression)
            },
            Err(e) => Err(e),
        },
        TokenModel::Number(a, b) => match advance(s, pos) {
            Ok((p1, c1)) => Ok((NodeModel::Number(a, b), p1, c1)),
            Err(e) => Err(e),
        },
        TokenModel::OpenParenthesis => parse_group(s, pos, cur),
        _ => Err(ParseErrorModel::InvalidExpression),
    }
}

/// A group in parentheses; a second group right after it multiplies the first.
pub open spec fn parse_group(s: Seq<char>, pos: int, cur: TokenModel) -> Step
    decreases measure(s, pos, cur), 0int,
{
    match advance(s, pos) {
        Ok((p1, c1)) => if measure(s, p1, c1) < measure(s, pos, cur) {
            match parse_expr(s, OperationPrecedence::DefaultZero, p1, c1) {
                Ok((inner, p2, c2)) => if c2 is CloseParenthesis {
                    match advance(s, p2) {
                        Ok((p3, c3)) => if c3 is OpenParenthesis {
                            if measure(s, p3, c3) < measure(s, pos, cur) {
                                match parse_expr(s, OperationPrecedence::MultiplyDivision, p3, c3) {
                                    Ok((right, p4, c4)) => Ok(
                                        (NodeModel::Multiply(Box::new(inner), Box::new(right)), p4, c4),
                                    ),
                                    Err(e) => Err(e),
                                }
                            } else {
                                Err(ParseErrorModel::InvalidExpression)
                            }
                        } else {
                            Ok((inner, p3, c3))
                        },
                        Err(e) => Err(e),
                    }
                } else {
                    Err(ParseErrorModel::UnmatchedParenthesis)
                },
                Err(e) => Err(e),
            }
        } else {
            Err(ParseErrorModel::InvalidExpression)
        },
        Err(e) => Err(e),
    }
}

/// What building a parser over `s` gives: the position and first token, or
/// the error. Text without a token fails here.
pub open spec fn start(s: Seq<char>) -> Result<(int, TokenModel), ParseErrorModel> {
    match advance(s, 0) {
        Ok((p, TokenModel::End)) => Err(ParseErrorModel::NoTokens),
        r => r,
    }
}

/// The tree of the expression `s`, or the first error met.
pub open spec fn parse_text(s: Seq<char>) -> Result<NodeModel, ParseErrorModel> {
    match start(s) {
        Ok((p, t)) => match parse_expr(s, OperationPrecedence::DefaultZero, p, t) {
            Ok((n, _, _)) => Ok(n),
            Err(e) => Err(e),
        },
        Err(e) => Err(e),
    }
}

/// Within the text, an expression that parses leaves the tokenizer within the
/// text, lowers the measure or keeps it, and stops at a lookahead that binds
/// no tighter than `prec`. With the lemmas below, this shows that the measure
/// guards in the grammar never fall back to `InvalidExpression`.
pub proof fn lemma_expr_steps(s: Seq<char>, prec: OperationPrecedence, pos: int, cur: TokenModel)
    requires
        0 <= pos <= s.len(),
    ensures
        parse_primary(s, pos, cur) matches Ok((l, p1, c1)) ==> measure(s, p1, c1) < measure(s, pos, cur),
        parse_expr(s, prec, pos, cur) matches Ok((n, p, c)) ==> 0 <= p <= s.len() && measure(s, p, c)
            <= measure(s, pos, cur) && precedence_of(c).spec_level() <= prec.spec_level(),
    decreases measure(s, pos, cur), 4int,
{
    lemma_primary_steps(s, pos, cur);
    if let Ok((left, p1, c1)) = parse_primary(s, pos, cur) {
        lemma_operators_steps(s, prec, left, p1, c1);
    }
}

/// Folding operators keeps the tokenizer within the text, never raises the
/// measure, and stops at a lookahead that binds no tighter than `prec`.
pub proof fn lemma_operators_steps(
    s: Seq<char>,
    prec: OperationPrecedence,
    left: NodeModel,
    pos: int,
    cur: TokenModel,
)
    requires
        0 <= pos <= s.len(),
    ensures
        parse_operators(s, prec, left, pos, cur) matches Ok((n, p, c)) ==> 0 <= p <= s.len()
            && measure(s, p, c) <= measure(s, pos, cur) && precedence_of(c).spec_level()
            <= prec.spec_level(),
    decreases measure(s, pos, cur), 3int,
{
    if prec.spec_level() < precedence_of(cur).spec_level() {
        lemma_operation_steps(s, left, pos, cur);
        if let Ok((n, p2, c2)) = parse_operation(s, left, pos, cur) {
            lemma_operators_steps(s, prec, n, p2, c2);
        }
    }
}

/// Applying an operator consumes it: the measure drops.
pub proof fn lemma_operation_steps(s: Seq<char>, left: NodeModel, pos: int, cur: TokenModel)
    requires
        0 <= pos <= s.len(),
        !(cur is End),
    ensures
        parse_operation(s, left, pos, cur) matches Ok((n, p, c)) ==> 0 <= p <= s.len() && measure(
            s,
            p,
            c,
        ) < measure(s, pos, cur),
    decreases measure(s, pos, cur), 2int,
{
    lemma_advance_decreases(s, pos, cur);
    if let Ok((p1, c1)) = advance(s, pos) {
        lemma_expr_steps(s, precedence_of(cur), p1, c1);
    }
}

/// Reading an operand consumes at least one token: the measure drops.
pub proof fn lemma_primary_steps(s: Seq<char>, pos: int, cur: TokenModel)
    requires
        0 <= pos <= s.len(),
    ensures
        parse_primary(s, pos, cur) matches Ok((n, p, c)) ==> 0 <= p <= s.len() && measure(s, p, c)
            < measure(s, pos, cur),
    decreases measure(s, pos, cur), 1int,
{
    match cur {
        TokenModel::Subtract => {
            lemma_advance_decreases(s, pos, cur);
            if let Ok((p1, c1)) = advance(s, pos) {
                lemma_expr_steps(s, OperationPrecedence::Negative, p1, c1);
            }
        },
        TokenModel::Number(_, _) => {
            lemma_advance_decreases(s, pos, cur);
        },
        TokenModel::OpenParenthesis => {
            lemma_group_steps(s, pos, cur);
        },
        _ => {},
    }
}

/// Reading a group consumes its parentheses: the measure drops.
pub proof fn lemma_group_steps(s: Seq<char>, pos: int, cur: TokenModel)
    requires
        0 <= pos <= s.len(),
        cur is OpenParenthesis,
    ensures
        parse_group(s, pos, cur) matches Ok((n, p, c)) ==> 0 <= p <= s.len() && measure(s, p, c)
            < measure(s, pos, cur),
    decreases measure(s, pos, cur), 0int,
{
    lemma_advance_decreases(s, pos, cur);
    if let Ok((p1, c1)) = advance(s, pos) {
        lemma_expr_steps(s, OperationPrecedence::DefaultZero, p1, c1);
        if let Ok((inner, p2, c2)) = parse_expr(s, OperationPrecedence::DefaultZero, p1, c1) {
            if c2 is CloseParenthesis {
                lemma_advance_decreases(s, p2, c2);
                if let Ok((p3, c3)) = advance(s, p2) {
                    if c3 is OpenParenthesis {
                        lemma_expr_steps(s, OperationPrecedence::MultiplyDivision, p3, c3);
                    }
                }
            }
        }
    }
}

/// Builds the tree of an expression, pulling tokens one at a time from its
/// tokenizer with one token of lookahead.
pub struct Parser {
    tokenizer: Tokenizer,
    current_token: Token,
}

/// The lookahead is an operator or an operand token; advancing past it lowers
/// the measure.
proof fn lemma_advance_decreases(s: Seq<char>, pos: int, cur: TokenModel)
    requires
        0 <= pos <= s.len(),
        !(cur is End),
    ensures
        advance(s, pos) matches Ok((p1, c1)) ==> 0 <= p1 <= s.len() && measure(s, p1, c1)
            < measure(s, pos, cur),
{
    lemma_lex_bounds(s, pos);
}

/// `r` and the parser state `p` after a step are what `expected` says.
pub open spec fn outcome(r: Result<Node, ParserError>, p: Parser, expected: Step) -> bool {
    match (expected, r) {
        (Ok((n, pos, cur)), Ok(node)) => node@ == n && p.position() == pos && p.lookahead() == cur,
        (Err(e), Err(x)) => x@ == e,
        _ => false,
    }
}

impl Parser {
    pub closed spec fn wf(&self) -> bool {
        self.tokenizer.wf()
    }

    /// The text being parsed.
    pub closed spec fn text(&self) -> Seq<char> {
        self.tokenizer.text()
    }

    /// Where the tokenizer stands: just past the lookahead token.
    pub closed spec fn position(&self) -> int {
        self.tokenizer.position()
    }

    /// The lookahead token.
    pub closed spec fn lookahead(&self) -> TokenModel {
        self.current_token@
    }

    pub open spec fn measure_of(&self) -> nat {
        measure(self.text(), self.position(), self.lookahead())
    }

    proof fn lemma_wf_bounds(&self)
        requires
            self.wf(),
        ensures
            0 <= self.position() <= self.text().len(),
    {
        self.tokenizer.lemma_position_in_text();
    }

    /// Moves the lookahead one token on and hands back the token it held.
    fn advance_token(&mut self) -> (r: Result<Token, ParserError>)
        requires
            old(self).wf(),
        ensures
            final(self).wf(),
            final(self).text() == old(self).text(),
            match advance(old(self).text(), old(self).position()) {
                Ok((p, t)) => r == Ok::<Token, ParserError>(old(self).current_token)
                    && final(self).position() == p && final(self).lookahead() == t,
                Err(e) => r matches Err(x) && x@ == e
                    && final(self).lookahead() == old(self).lookahead(),
            },
    {
        match self.tokenizer.next() {
            Some(Ok(t)) => {
                let mut t = t;
                std::mem::swap(&mut self.current_token, &mut t);
                Ok(t)
            },
            Some(Err(e)) => Err(ParserError::WrappedTokenizerError(e)),
            None => Err(ParserError::NoTokens),
        }
    }
    /// Builds a parser over `expression` and reads its first token. Fails
    /// when the text holds no token, or when the first token is a lexical
    /// error.
    pub fn new(expression: &str) -> (r: Result<Parser, ParserError>)
        ensures
            match start(expression@) {
                Ok((p, t)) => r matches Ok(q) && q.wf() && q.text() == expression@ && q.position()
                    == p && q.lookahead() == t,
                Err(e) => r matches Err(x) && x@ == e,
            },
    {
        let mut tokenizer = Tokenizer::new(expression);
        match tokenizer.next() {
            Some(Ok(Token::End)) => Err(ParserError::NoTokens),
            Some(Ok(token)) => Ok(Parser { tokenizer, current_token: token }),
            Some(Err(e)) => Err(ParserError::WrappedTokenizerError(e)),
            None => Err(ParserError::NoTokens),
        }
    }

    /// Parses the expression from the lookahead on. What follows a complete
    /// expression (a `)` without its `(`, or a second operand) is left unread.
    pub fn parse(&mut self) -> (r: Result<Node, ParserError>)
        requires
            old(self).wf(),
        ensures
            final(self).wf(),
            final(self).text() == old(self).text(),
            outcome(
                r,
                *final(self),
                parse_expr(
                    old(self).text(),
                    OperationPrecedence::DefaultZero,
                    old(self).position(),
                    old(self).lookahead(),
                ),
            ),
    {
        self.parse_rec(OperationPrecedence::DefaultZero)
    }

    /// An operand followed by every operator that binds tighter than
    /// `op_prec`, grouped to the left.
    fn parse_rec(&mut self, op_prec: OperationPrecedence) -> (r: Result<Node, ParserError>)
        requires
            old(self).wf(),
        ensures
            final(self).wf(),
            final(self).text() == old(self).text(),
            outcome(
                r,
                *final(self),
                parse_expr(old(self).text(), op_prec, old(self).position(), old(self).lookahead()),
            ),
            r is Ok ==> final(self).measure_of() <= old(self).measure_of(),
        decreases old(self).measure_of(), 4int,
    {
        let ghost s = self.text();
        let ghost m0 = self.measure_of();
        let ghost expected = parse_expr(s, op_prec, self.position(), self.lookahead());
        let mut left = match self.process_number() {
            Ok(n) => n,
            Err(e) => return Err(e),
        };
        while op_prec.level() < self.current_token.get_operation_precedence().level()
            invariant
                self.wf(),
                self.text() == s,
                s == old(self).text(),
                m0 == old(self).measure_of(),
                expected == parse_expr(s, op_prec, old(self).position(), old(self).lookahead()),
                self.measure_of() <= m0,
                expected == parse_operators(s, op_prec, left@, self.position(), self.lookahead()),
            decreases self.measure_of(),
        {
            left = match self.process_node(left) {
                Ok(n) => n,
                Err(e) => return Err(e),
            };
        }
        Ok(left)
    }

    /// Applies the binary operator in the lookahead to `left` and the operand
    /// that follows it.
    fn process_node(&mut self, left: Node) -> (r: Result<Node, ParserError>)
        requires
            old(self).wf(),
            precedence_of(old(self).lookahead()).spec_level() > 0,
        ensures
            final(self).wf(),
            final(self).text() == old(self).text(),
            outcome(
                r,
                *final(self),
                parse_operation(old(self).text(), left@, old(self).position(), old(self).lookahead()),
            ),
            r is Ok ==> final(self).measure_of() < old(self).measure_of(),
        decreases old(self).measure_of(), 2int,
    {
        proof {
            self.lemma_wf_bounds();
            lemma_advance_decreases(self.text(), self.position(), self.lookahead());
        }
        let prec = self.current_token.get_operation_precedence();
        let op = match self.advance_token() {
            Ok(t) => t,
            Err(e) => return Err(e),
        };
        let right = match self.parse_rec(prec) {
            Ok(n) => n,
            Err(e) => return Err(e),
        };
        match op {
            Token::Add => Ok(Node::Add(Box::new(left), Box::new(right))),
            Token::Subtract => Ok(Node::Subtract(Box::new(left), Box::new(right))),
            Token::Multiply => Ok(Node::Multiply(Box::new(left), Box::new(right))),
            Token::Divide => Ok(Node::Divide(Box::new(left), Box::new(right))),
            // the lookahead binds above `DefaultZero`, so this is `Power`
            _ => Ok(Node::Power(Box::new(left), Box::new(right))),
        }
    }

    /// An operand: `-` and an operand, a number, or a group in parentheses
    /// (two adjacent groups multiply).
    fn process_number(&mut self) -> (r: Result<Node, ParserError>)
        requires
            old(self).wf(),
        ensures
            final(self).wf(),
            final(self).text() == old(self).text(),
            outcome(r, *final(self), parse_primary(old(self).text(), old(self).position(), old(self).lookahead())),
            r is Ok ==> final(self).measure_of() <= old(self).measure_of(),
            !(old(self).lookahead() is Subtract || old(self).lookahead() is Number
                || old(self).lookahead() is OpenParenthesis) ==> *final(self) == *old(self),
        decreases old(self).measure_of(), 1int,
    {
        let ghost s = self.text();
        let ghost pos = self.position();
        let ghost cur = self.lookahead();
        proof {
            self.lemma_wf_bounds();
        }
        match self.current_token {
            Token::Subtract => {
                proof {
                    lemma_advance_decreases(s, pos, cur);
                }
                if let Err(e) = self.advance_token() {
                    return Err(e);
                }
                let inner = match self.parse_rec(OperationPrecedence::Negative) {
                    Ok(n) => n,
                    Err(e) => return Err(e),
                };
                Ok(Node::Negative(Box::new(inner)))
            },
            Token::Number(_) => {
                proof {
                    lemma_advance_decreases(s, pos, cur);
                }
                match self.advance_token() {
                    Ok(Token::Number(d)) => Ok(Node::Number(d)),
                    // the token handed back is the number matched above
                    Ok(_) => Err(ParserError::InvalidExpression),
                    Err(e) => Err(e),
                }
            },
            Token::OpenParenthesis => {
                proof {
                    lemma_advance_decreases(s, pos, cur);
                }
                if let Err(e) = self.advance_token() {
                    return Err(e);
                }
                let inner = match self.parse_rec(OperationPrecedence::DefaultZero) {
                    Ok(n) => n,
                    Err(e) => return Err(e),
                };
                proof {
                    self.lemma_wf_bounds();
                    if self.lookahead() is CloseParenthesis {
                        lemma_advance_decreases(s, self.position(), self.lookahead());
                    }
                }
                if let Err(e) = self.check_parenthesis() {
                    return Err(e);
                }
                if let Token::OpenParenthesis = self.current_token {
                    let right = match self.parse_rec(OperationPrecedence::MultiplyDivision) {
                        Ok(n) => n,
                        Err(e) => return Err(e),
                    };
                    return Ok(Node::Multiply(Box::new(inner), Box::new(right)));
                }
                Ok(inner)
            },
            _ => Err(ParserError::InvalidExpression),
        }
    }

    /// Consumes the `)` that closes a group.
    fn check_parenthesis(&mut self) -> (r: Result<(), ParserError>)
        requires
            old(self).wf(),
        ensures
            final(self).wf(),
            final(self).text() == old(self).text(),
            !(old(self).lookahead() is CloseParenthesis) ==> r == Err::<(), ParserError>(
                ParserError::UnmatchedParenthesis,
            ) && *final(self) == *old(self),
            old(self).lookahead() is CloseParenthesis ==> match advance(
                old(self).text(),
                old(self).position(),
            ) {
                Ok((p, t)) => r is Ok && final(self).position() == p && final(self).lookahead() == t,
                Err(e) => r matches Err(x) && x@ == e
                    && final(self).lookahead() == old(self).lookahead(),
            },
    {
        if let Token::CloseParenthesis = self.current_token {
            match self.advance_token() {
                Ok(_) => Ok(()),
                Err(e) => Err(e),
            }
        } else {
            Err(ParserError::UnmatchedParenthesis)
        }
    }
}

/// The model of a parse result.
pub open spec fn result_model(r: Result<Node, ParserError>) -> Result<NodeModel, ParseErrorModel> {
    match r {
        Ok(n) => Ok(n@),
        Err(e) => Err(e@),
    }
}

/// Builds a fresh parser over `expression` and parses it: the tree of the
/// text, or the first error, construction errors included.
pub fn parse_expression(expression: &str) -> (r: Result<Node, ParserError>)
    ensures
        result_model(r) == parse_text(expression@),
{
    match Parser::new(expression) {
        Ok(mut parser) => parser.parse(),
        Err(e) => Err(e),
    }
}

/// Parsing has no hidden state: two parsers built from the same text give
/// equal trees, or equal errors.
pub proof fn lemma_reparse_equal(text: Seq<char>, r1: Result<Node, ParserError>, r2: Result<Node, ParserError>)
    requires
        result_model(r1) == parse_text(text),
        result_model(r2) == parse_text(text),
    ensures
        result_model(r1) == result_model(r2),
        r1 is Ok <==> r2 is Ok,
{
}

} // verus!
