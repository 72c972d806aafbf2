use vstd::prelude::*;
use vstd::string::*;
use crate::parser::{precedence_of, OperationPrecedence};

verus! {

broadcast use vstd::string::group_string_axioms;

/// A number literal as written: the digits before the decimal point and the
/// digits after it, each as a value from 0 to 9.
#[derive(Debug, Clone, PartialEq)]
pub struct Decimal {
    pub integer: Vec<u8>,
    pub fraction: Vec<u8>,
}

/// One lexical unit of an expression.
#[derive(Debug, Clone, PartialEq)]
pub enum Token {
    Add,
    Subtract,
    Multiply,
    Divide,
    Power,
    OpenParenthesis,
    CloseParenthesis,
    Number(Decimal),
    End,
}

/// A lexical error.
#[derive(Debug, Clone, PartialEq)]
pub enum TokenizerError {
    /// A run of digits and points that is not a number (more than one point).
    ErrorParsingNumber(String),
    /// A character that no token starts with.
    InvalidCharacter(char),
}

/// The mathematical value of a token.
pub enum TokenModel {
    Add,
    Subtract,
    Multiply,
    Divide,
    Power,
    OpenParenthesis,
    CloseParenthesis,
    Number(Seq<u8>, Seq<u8>),
    End,
}

/// The mathematical value of a lexical error.
pub enum LexErrorModel {
    ErrorParsingNumber(Seq<char>),
    InvalidCharacter(char),
}

impl View for Decimal {
    type V = (Seq<u8>, Seq<u8>);

    open spec fn view(&self) -> (Seq<u8>, Seq<u8>) {
        (self.integer@, self.fraction@)
    }
}

impl View for Token {
    type V = TokenModel;

    open spec fn view(&self) -> TokenModel {
        match self {
            Token::Add => TokenModel::Add,
            Token::Subtract => TokenModel::Subtract,
            Token::Multiply => TokenModel::Multiply,
            Token::Divide => TokenModel::Divide,
            Token::Power => TokenModel::Power,
            Token::OpenParenthesis => TokenModel::OpenParenthesis,
            Token::CloseParenthesis => TokenModel::CloseParenthesis,
            Token::Number(d) => TokenModel::Number(d.integer@, d.fraction@),
            Token::End => TokenModel::End,
        }
    }
}

impl View for TokenizerError {
    type V = LexErrorModel;

    open spec fn view(&self) -> LexErrorModel {
        match self {
            TokenizerError::ErrorParsingNumber(s) => LexErrorModel::ErrorParsingNumber(s@),
            TokenizerError::InvalidCharacter(c) => LexErrorModel::InvalidCharacter(*c),
        }
    }
}

impl Token {
    /// The level at which this token binds as a binary operator.
    pub fn get_operation_precedence(&self) -> (r: OperationPrecedence)
        ensures
            r == precedence_of(self@),
    {
        match self {
            Token::Add | Token::Subtract => OperationPrecedence::AddSubtract,
            Token::Multiply | Token::Divide => OperationPrecedence::MultiplyDivision,
            Token::Power => OperationPrecedence::Power,
            _ => OperationPrecedence::DefaultZero,
        }
    }
}

/// Relies on `char::to_string` (through `Display`): a string that holds just
/// that character.
#[verifier::external_body]
fn char_to_string(c: char) -> (r: String)
    ensures
        r@ == seq![c],
{
    c.to_string()
}

impl TokenizerError {
    pub open spec fn message_text(&self) -> Seq<char> {
        match self {
                TokenizerError::ErrorParsingNumber(s) => "an error occurred when trying to convert '"@
                    + s@ + "' into a number"@,
                TokenizerError::InvalidCharacter(c) => "found an invalid (or not supported) character "@
                    + seq![*c],
        }
    }

    /// A sentence that says what went wrong.
    pub fn message(&self) -> (r: String)
        ensures
            r@ == self.message_text(),
    {
        match self {
            TokenizerError::ErrorParsingNumber(s) => {
                let mut r = String::from_str("an error occurred when trying to convert '");
                r.append(s.as_str());
                r.append("' into a number");
                r
            },
            TokenizerError::InvalidCharacter(c) => {
                let mut r = String::from_str("found an invalid (or not supported) character ");
                let c = char_to_string(*c);
                r.append(c.as_str());
                r
            },
        }
    }
}

/// The model of one call of the tokenizer.
pub open spec fn lex_result_view(r: Result<Token, TokenizerError>) -> Result<TokenModel, LexErrorModel> {
    match r {
        Ok(t) => Ok(t@),
        Err(e) => Err(e@),
    }
}

pub open spec fn is_digit(c: char) -> bool {
    '0' <= c <= '9'
}

pub open spec fn is_number_char(c: char) -> bool {
    is_digit(c) || c == '.'
}

pub open spec fn digit_value(c: char) -> u8 {
    (c as u32 - '0' as u32) as u8
}

/// First index at or after `i` that does not hold a space.
pub open spec fn skip_spaces(s: Seq<char>, i: int) -> int
    decreases s.len() - i,
{
    if 0 <= i < s.len() && s[i] == ' ' {
        skip_spaces(s, i + 1)
    } else {
        i
    }
}

/// First index at or after `i` that does not hold a digit or a point.
pub open spec fn number_end(s: Seq<char>, i: int) -> int
    decreases s.len() - i,
{
    if 0 <= i < s.len() && is_number_char(s[i]) {
        number_end(s, i + 1)
    } else {
        i
    }
}

/// Reads a run of digits and points from left to right: the digits before the
/// first point form the integer part, those after it the fraction; the last
/// component counts the points.
pub open spec fn literal_parts(lit: Seq<char>) -> (Seq<u8>, Seq<u8>, nat)
    decreases lit.len(),
{
    if lit.len() == 0 {
        (Seq::empty(), Seq::empty(), 0)
    } else {
        let (a, b, n) = literal_parts(lit.drop_last());
        let c = lit.last();
        if c == '.' {
            (a, b, n + 1)
        } else if n == 0 {
            (a.push(digit_value(c)), b, n)
        } else {
            (a, b.push(digit_value(c)), n)
        }
    }
}

/// The token that a run of digits and points stands for: a number where it
/// holds at most one point.
pub open spec fn literal_token(lit: Seq<char>) -> Result<TokenModel, LexErrorModel> {
    let (a, b, n) = literal_parts(lit);
    if n <= 1 {
        Ok(TokenModel::Number(a, b))
    } else {
        Err(LexErrorModel::ErrorParsingNumber(lit))
    }
}

/// The token that a single character stands for, if any.
pub open spec fn symbol_token(c: char) -> Option<TokenModel> {
    if c == '+' {
        Some(TokenModel::Add)
    } else if c == '-' {
        Some(TokenModel::Subtract)
    } else if c == '*' {
        Some(TokenModel::Multiply)
    } else if c == '/' {
        Some(TokenModel::Divide)
    } else if c == '^' {
        Some(TokenModel::Power)
    } else if c == '(' {
        Some(TokenModel::OpenParenthesis)
    } else if c == ')' {
        Some(TokenModel::CloseParenthesis)
    } else {
        None
    }
}

/// The next token of `s` from index `i` on, and the index after it. Spaces
/// are skipped; at the end of the text the token is `End`, every time.
pub open spec fn lex(s: Seq<char>, i: int) -> (Result<TokenModel, LexErrorModel>, int) {
    let j = skip_spaces(s, i);
    if j >= s.len() {
        (Ok(TokenModel::End), j)
    } else if symbol_token(s[j]) is Some {
        (Ok(symbol_token(s[j])->0), j + 1)
    } else if is_digit(s[j]) {
        let k = number_end(s, j);
        (literal_token(s.subrange(j, k)), k)
    } else {
        (Err(LexErrorModel::InvalidCharacter(s[j])), j + 1)
    }
}

proof fn lemma_skip_spaces_bounds(s: Seq<char>, i: int)
    requires
        0 <= i <= s.len(),
    ensures
        i <= skip_spaces(s, i) <= s.len(),
    decreases s.len() - i,
{
    if i < s.len() && s[i] == ' ' {
        lemma_skip_spaces_bounds(s, i + 1);
    }
}

proof fn lemma_number_end_bounds(s: Seq<char>, i: int)
    requires
        0 <= i <= s.len(),
    ensures
        i <= number_end(s, i) <= s.len(),
    decreases s.len() - i,
{
    if i < s.len() && is_number_char(s[i]) {
        lemma_number_end_bounds(s, i + 1);
    }
}

/// The index after a token lies within the text, and past the start.
pub proof fn lemma_lex_bounds(s: Seq<char>, i: int)
    requires
        0 <= i <= s.len(),
    ensures
        i <= lex(s, i).1 <= s.len(),
        lex(s, i).0 != Ok::<TokenModel, LexErrorModel>(TokenModel::End) ==> i < lex(s, i).1,
{
    lemma_skip_spaces_bounds(s, i);
    let j = skip_spaces(s, i);
    if j < s.len() && symbol_token(s[j]) is None && is_digit(s[j]) {
        lemma_number_end_bounds(s, j);
        assert(is_number_char(s[j]));
        assert(number_end(s, j) == number_end(s, j + 1));
        lemma_number_end_bounds(s, j + 1);
    }
}

/// A space before a token changes neither the token nor where it ends.
pub proof fn lemma_leading_space_skipped(s: Seq<char>, i: int)
    requires
        0 <= i < s.len(),
        s[i] == ' ',
    ensures
        lex(s, i) == lex(s, i + 1),
{
}

/// Once the text is used up, the tokenizer yields `End` again and stays put.
pub proof fn lemma_end_repeats(s: Seq<char>, i: int)
    requires
        0 <= i <= s.len(),
        lex(s, i).0 == Ok::<TokenModel, LexErrorModel>(TokenModel::End),
    ensures
        lex(s, lex(s, i).1) == lex(s, i),
{
    lemma_lex_bounds(s, i);
    let j = skip_spaces(s, i);
    assert(j >= s.len());
    assert(skip_spaces(s, j) == j);
}

/// Lexer over the characters of an expression; yields one token per call.
pub struct Tokenizer {
    source: String,
    chars: Vec<char>,
    pos: usize,
}

impl Tokenizer {
    pub closed spec fn text(&self) -> Seq<char> {
        self.chars@
    }

    pub closed spec fn position(&self) -> int {
        self.pos as int
    }

    pub closed spec fn wf(&self) -> bool {
        &&& self.source@ == self.chars@
        &&& self.pos <= self.chars@.len()
    }

    pub fn new(expression: &str) -> (r: Tokenizer)
        ensures
            r.wf(),
            r.text() == expression@,
            r.position() == 0,
    {
        let mut chars: Vec<char> = Vec::new();
        for c in it: expression.chars()
            invariant
                chars@ == it.seq().take(it.index() as int),
        {
            chars.push(c);
        }
        assert(chars@ == expression@);
        Tokenizer { source: String::from_str(expression), chars, pos: 0 }
    }
    /// A well-formed tokenizer stands within its text.
    pub proof fn lemma_position_in_text(&self)
        requires
            self.wf(),
        ensures
            0 <= self.position() <= self.text().len(),
    {
    }

    /// Reads the next token. Once the text is used up the result is `End`,
    /// on this call and every later one; the result is never `None`.
    pub fn next(&mut self) -> (r: Option<Result<Token, TokenizerError>>)
        requires
            old(self).wf(),
        ensures
            final(self).wf(),
            final(self).text() == old(self).text(),
            r is Some,
            lex_result_view(r->0) == lex(old(self).text(), old(self).position()).0,
            final(self).position() == lex(old(self).text(), old(self).position()).1,
    {
        let ghost s = self.chars@;
        let ghost start = self.pos as int;
        let len = self.chars.len();
        while self.pos < len && self.chars[self.pos] == ' '
            invariant
                self.wf(),
                s == self.chars@,
                len == s.len(),
                start <= self.pos <= len,
                skip_spaces(s, self.pos as int) == skip_spaces(s, start),
            decreases len - self.pos,
        {
            self.pos = self.pos + 1;
        }
        if self.pos >= len {
            return Some(Ok(Token::End));
        }
        let c = self.chars[self.pos];
        let j = self.pos;
        self.pos = self.pos + 1;
        let symbol = if c == '+' {
            Some(Token::Add)
        } else if c == '-' {
            Some(Token::Subtract)
        } else if c == '*' {
            Some(Token::Multiply)
        } else if c == '/' {
            Some(Token::Divide)
        } else if c == '^' {
            Some(Token::Power)
        } else if c == '(' {
            Some(Token::OpenParenthesis)
        } else if c == ')' {
            Some(Token::CloseParenthesis)
        } else {
            None
        };
        if let Some(t) = symbol {
            return Some(Ok(t));
        }
        if !('0' <= c && c <= '9') {
            return Some(Err(TokenizerError::InvalidCharacter(c)));
        }
        let mut integer: Vec<u8> = Vec::new();
        let mut fraction: Vec<u8> = Vec::new();
        let mut points: usize = 0;
        self.pos = j;
        while self.pos < len && (('0' <= self.chars[self.pos] && self.chars[self.pos] <= '9')
            || self.chars[self.pos] == '.')
            invariant
                self.wf(),
                s == self.chars@,
                len == s.len(),
                j <= self.pos <= len,
                number_end(s, self.pos as int) == number_end(s, j as int),
                (integer@, fraction@, points as nat) == literal_parts(s.subrange(j as int, self.pos as int)),
                points <= self.pos - j,
            decreases len - self.pos,
        {
            let d = self.chars[self.pos];
            let ghost lit = s.subrange(j as int, self.pos as int + 1);
            assert(lit.drop_last() == s.subrange(j as int, self.pos as int));
            if d == '.' {
                points = points + 1;
            } else if points == 0 {
                integer.push((d as u32 - '0' as u32) as u8);
            } else {
                fraction.push((d as u32 - '0' as u32) as u8);
            }
            self.pos = self.pos + 1;
        }
        if points <= 1 {
            Some(Ok(Token::Number(Decimal { integer, fraction })))
        } else {
            let text = self.source.as_str().substring_char(j, self.pos);
            Some(Err(TokenizerError::ErrorParsingNumber(String::from_str(text))))
        }
    }

}

} // verus!
