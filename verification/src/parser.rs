//! Parsing: a token sequence to an abstract syntax tree by recursive descent.
//!
//! The grammar has three levels, low to high:
//!
//! ```text
//! expr     := summand ( '+' expr )?
//! summand  := term ( ('*' | '/' | '^') summand )?
//! term     := Number | bracket_open expr bracket_close
//! ```
//!
//! `*`, `/` and `^` share one level and bind tighter than `+`; a chain of
//! same-level operators is kept right-nested, each right child holding the
//! rest of the chain. An opening bracket must be closed by its own style.
//! Every rule commits once started and the whole token sequence must be
//! consumed.

use vstd::prelude::*;

use crate::lexer::LexError;
use crate::lexer::LexIssue;
use crate::lexer::LexItem;
use crate::lexer::RateTable;
use crate::lexer::Token;
use crate::lexer::cur_end;
use crate::lexer::is_bracket;
use crate::lexer::is_upper;
use crate::lexer::lemma_cur_end_characterize;
use crate::lexer::lex;
use crate::lexer::spec_lex;
use crate::lexer::table_lookup;
use crate::lexer::tokens_view;

verus! {

/// What a tree node stands for: one of the four operators, a numeric leaf
/// (carrying its decimal text), or a bracketed group.
#[derive(Debug, Clone, PartialEq)]
pub enum GrammarItem {
    Division,
    Power,
    Product,
    Sum,
    Number(String),
    Paren,
}

/// A node of the abstract syntax tree. An operator node has exactly two
/// children, left operand first; a `Paren` node exactly one; a `Number` node
/// none. `wf` states that shape.
#[derive(Debug, PartialEq)]
pub struct ParseNode {
    pub children: Vec<ParseNode>,
    pub entry: GrammarItem,
}

/// The mathematical model of a tree: a pure term over character sequences.
pub enum Expr {
    Sum(Box<Expr>, Box<Expr>),
    Product(Box<Expr>, Box<Expr>),
    Division(Box<Expr>, Box<Expr>),
    Power(Box<Expr>, Box<Expr>),
    Number(Seq<char>),
    Group(Box<Expr>),
}

impl ParseNode {
    /// A fresh `Paren` node without children, to be filled by the parser.
    pub fn new() -> (r: ParseNode)
        ensures
            r.entry == GrammarItem::Paren,
            r.children@.len() == 0,
    {
        ParseNode { children: Vec::new(), entry: GrammarItem::Paren }
    }

    /// The node has the child count its entry demands, recursively.
    pub open spec fn wf(self) -> bool
        decreases self,
    {
        match self.entry {
            GrammarItem::Number(_) => self.children@.len() == 0,
            GrammarItem::Paren => self.children@.len() == 1 && self.children@[0].wf(),
            _ => self.children@.len() == 2 && self.children@[0].wf() && self.children@[1].wf(),
        }
    }
}

impl View for ParseNode {
    type V = Expr;

    /// The term this node stands for. On a malformed node a missing child
    /// reads as an empty numeric leaf; `wf` nodes never meet that case.
    open spec fn view(&self) -> Expr
        decreases self,
    {
        match self.entry {
            GrammarItem::Number(t) => Expr::Number(t@),
            GrammarItem::Paren => if self.children@.len() == 1 {
                Expr::Group(Box::new(self.children@[0]@))
            } else {
                Expr::Number(Seq::empty())
            },
            _ => if self.children@.len() == 2 {
                let l = Box::new(self.children@[0]@);
                let r = Box::new(self.children@[1]@);
                match self.entry {
                    GrammarItem::Sum => Expr::Sum(l, r),
                    GrammarItem::Product => Expr::Product(l, r),
                    GrammarItem::Division => Expr::Division(l, r),
                    _ => Expr::Power(l, r),
                }
            } else {
                Expr::Number(Seq::empty())
            },
        }
    }
}

/// Why parsing failed.
#[derive(Debug, PartialEq)]
pub enum ParseError {
    /// A term was expected but the tokens were exhausted, or an opened
    /// bracket was never closed.
    UnexpectedEndOfInput,
    /// A term or a closing bracket was expected but another token stood
    /// there.
    UnexpectedToken,
    /// A closing bracket of the wrong style: the expected character, the
    /// found character, and the token position.
    BracketMismatch(char, char, usize),
    /// Tokens remain after a complete expression: the first of them and its
    /// position.
    TrailingInput(LexItem, usize),
}

/// The model of a parse failure.
pub enum ParseIssue {
    UnexpectedEndOfInput,
    UnexpectedToken,
    BracketMismatch(char, char, int),
    TrailingInput(Token, int),
}

impl View for ParseError {
    type V = ParseIssue;

    open spec fn view(&self) -> ParseIssue {
        match self {
            ParseError::UnexpectedEndOfInput => ParseIssue::UnexpectedEndOfInput,
            ParseError::UnexpectedToken => ParseIssue::UnexpectedToken,
            ParseError::BracketMismatch(e, f, p) => ParseIssue::BracketMismatch(
                *e,
                *f,
                *p as int,
            ),
            ParseError::TrailingInput(t, p) => ParseIssue::TrailingInput(t@, *p as int),
        }
    }
}

/// Why an evaluation call failed: in its scanner or in its parser.
#[derive(Debug, PartialEq)]
pub enum CalcError {
    Lex(LexError),
    Parse(ParseError),
}

/// The model of a failed call.
pub enum CalcIssue {
    Lex(LexIssue),
    Parse(ParseIssue),
}

impl View for CalcError {
    type V = CalcIssue;

    open spec fn view(&self) -> CalcIssue {
        match self {
            CalcError::Lex(e) => CalcIssue::Lex(e@),
            CalcError::Parse(e) => CalcIssue::Parse(e@),
        }
    }
}

/// The bracket character that closes `c`, and the one that opens it for a
/// closing `c`.
pub open spec fn spec_matching(c: char) -> char {
    if c == '(' {
        ')'
    } else if c == ')' {
        '('
    } else if c == '[' {
        ']'
    } else if c == ']' {
        '['
    } else if c == '{' {
        '}'
    } else {
        '{'
    }
}

/// `c` opens a bracketed group.
pub open spec fn is_open_bracket(c: char) -> bool {
    c == '(' || c == '[' || c == '{'
}

/// The partner of a bracket character: `(` and `)` map to each other, and so
/// on for the two other styles.
pub fn matching(c: char) -> (r: char)
    requires
        is_bracket(c),
    ensures
        r == spec_matching(c),
{
    if c == ')' {
        '('
    } else if c == ']' {
        '['
    } else if c == '}' {
        '{'
    } else if c == '(' {
        ')'
    } else if c == '[' {
        ']'
    } else {
        '}'
    }
}

/// The character of an operator token; for any other token an arbitrary
/// stand-in, never reached under the guards that apply this function.
pub open spec fn operator_char(tok: Token) -> char {
    match tok {
        Token::Operator(c) => c,
        Token::Bracket(c) => c,
        Token::Number(_) => ' ',
    }
}

/// The operator node for the summand-level operator `op` over `lhs` and
/// `rhs`.
pub open spec fn op_expr(op: char, lhs: Expr, rhs: Expr) -> Expr {
    if op == '*' {
        Expr::Product(Box::new(lhs), Box::new(rhs))
    } else if op == '^' {
        Expr::Power(Box::new(lhs), Box::new(rhs))
    } else {
        Expr::Division(Box::new(lhs), Box::new(rhs))
    }
}

/// What parsing an `expr` at `pos` yields: the term and the position after
/// it, or the failure. The guards `p > pos` restate that a rule never
/// returns without consuming a token, so the recursion is well founded.
pub open spec fn spec_parse_expr(t: Seq<Token>, pos: int) -> Result<(Expr, int), ParseIssue>
    decreases t.len() - pos, 2int,
{
    match spec_parse_summand(t, pos) {
        Ok((lhs, p)) => if pos < p && p < t.len() && t[p] == Token::Operator('+') {
            match spec_parse_expr(t, p + 1) {
                Ok((rhs, q)) => Ok((Expr::Sum(Box::new(lhs), Box::new(rhs)), q)),
                Err(e) => Err(e),
            }
        } else {
            Ok((lhs, p))
        },
        Err(e) => Err(e),
    }
}

/// What parsing a `summand` at `pos` yields.
pub open spec fn spec_parse_summand(t: Seq<Token>, pos: int) -> Result<(Expr, int), ParseIssue>
    decreases t.len() - pos, 1int,
{
    match spec_parse_term(t, pos) {
        Ok((lhs, p)) => if pos < p && p < t.len() && (t[p] == Token::Operator('*') || t[p]
            == Token::Operator('/') || t[p] == Token::Operator('^')) {
            match spec_parse_summand(t, p + 1) {
                Ok((rhs, q)) => Ok((op_expr(operator_char(t[p]), lhs, rhs), q)),
                Err(e) => Err(e),
            }
        } else {
            Ok((lhs, p))
        },
        Err(e) => Err(e),
    }
}

/// What parsing a `term` at `pos` yields: a numeric leaf, or a bracketed
/// group closed by the opener's own style.
pub open spec fn spec_parse_term(t: Seq<Token>, pos: int) -> Result<(Expr, int), ParseIssue>
    decreases t.len() - pos, 0int,
{
    if pos < 0 || pos >= t.len() {
        Err(ParseIssue::UnexpectedEndOfInput)
    } else {
        match t[pos] {
            Token::Number(v) => Ok((Expr::Number(v), pos + 1)),
            Token::Operator(_) => Err(ParseIssue::UnexpectedToken),
            Token::Bracket(c) => if is_open_bracket(c) {
                match spec_parse_expr(t, pos + 1) {
                    Ok((inner, p)) => if p < t.len() {
                        match t[p] {
                            Token::Bracket(c2) => if c2 == spec_matching(c) {
                                Ok((Expr::Group(Box::new(inner)), p + 1))
                            } else {
                                Err(ParseIssue::BracketMismatch(spec_matching(c), c2, p))
                            },
                            _ => Err(ParseIssue::UnexpectedToken),
                        }
                    } else {
                        Err(ParseIssue::UnexpectedEndOfInput)
                    },
                    Err(e) => Err(e),
                }
            } else {
                Err(ParseIssue::UnexpectedToken)
            },
        }
    }
}

/// What parsing a whole token sequence yields: the `expr` at position 0,
/// which must consume every token.
pub open spec fn spec_parse_tokens(t: Seq<Token>) -> Result<Expr, ParseIssue> {
    match spec_parse_expr(t, 0) {
        Ok((e, p)) => if p == t.len() {
            Ok(e)
        } else {
            Err(ParseIssue::TrailingInput(t[p], p))
        },
        Err(e) => Err(e),
    }
}

/// The whole pipeline on text: tokenize under `rt`, then parse.
pub open spec fn spec_parse_text(s: Seq<char>, rt: Seq<(Seq<char>, Seq<char>)>) -> Result<
    Expr,
    CalcIssue,
> {
    match spec_lex(s, rt) {
        Ok(toks) => match spec_parse_tokens(toks) {
            Ok(e) => Ok(e),
            Err(p) => Err(CalcIssue::Parse(p)),
        },
        Err(e) => Err(CalcIssue::Lex(e)),
    }
}

/// An expression that is one unresolvable currency code fails with exactly
/// `UnknownCurrency` naming that code — never a silent zero, and never a
/// failure of another kind.
pub proof fn lemma_unknown_currency(code: Seq<char>, rt: Seq<(Seq<char>, Seq<char>)>)
    requires
        code.len() > 0,
        forall|k: int| 0 <= k < code.len() ==> is_upper(code[k]),
        table_lookup(rt, code) is None,
    ensures
        spec_parse_text(code, rt) == Err::<Expr, CalcIssue>(
            CalcIssue::Lex(LexIssue::UnknownCurrency(code)),
        ),
{
    lemma_cur_end_characterize(code, 0, code.len() as int);
    assert(code.subrange(0, cur_end(code, 0)) =~= code);
}

/// `*`, `/` and `^` bind tighter than `+`: over any three numeric tokens,
/// `a + b * c` parses as a sum whose right operand is the product of `b` and
/// `c`, not as a product whose left operand is a sum.
pub proof fn lemma_precedence(a: Seq<char>, b: Seq<char>, c: Seq<char>)
    ensures
        spec_parse_tokens(
            seq![
                Token::Number(a),
                Token::Operator('+'),
                Token::Number(b),
                Token::Operator('*'),
                Token::Number(c),
            ],
        ) == Ok::<Expr, ParseIssue>(
            Expr::Sum(
                Box::new(Expr::Number(a)),
                Box::new(
                    Expr::Product(Box::new(Expr::Number(b)), Box::new(Expr::Number(c))),
                ),
            ),
        ),
{
    let t = seq![
        Token::Number(a),
        Token::Operator('+'),
        Token::Number(b),
        Token::Operator('*'),
        Token::Number(c),
    ];
    let bc = Expr::Product(Box::new(Expr::Number(b)), Box::new(Expr::Number(c)));
    assert(spec_parse_term(t, 0) == Ok::<(Expr, int), ParseIssue>((Expr::Number(a), 1)));
    assert(spec_parse_summand(t, 0) == Ok::<(Expr, int), ParseIssue>((Expr::Number(a), 1)));
    assert(spec_parse_term(t, 2) == Ok::<(Expr, int), ParseIssue>((Expr::Number(b), 3)));
    assert(spec_parse_term(t, 4) == Ok::<(Expr, int), ParseIssue>((Expr::Number(c), 5)));
    assert(spec_parse_summand(t, 4) == Ok::<(Expr, int), ParseIssue>((Expr::Number(c), 5)));
    assert(spec_parse_summand(t, 2) == Ok::<(Expr, int), ParseIssue>((bc, 5)));
    assert(spec_parse_expr(t, 2) == Ok::<(Expr, int), ParseIssue>((bc, 5)));
    assert(spec_parse_expr(t, 0) == Ok::<(Expr, int), ParseIssue>(
        (Expr::Sum(Box::new(Expr::Number(a)), Box::new(bc)), 5),
    ));
}

/// Exponentiation chains are right-nested: over any three numeric tokens,
/// `a ^ b ^ c` parses with `b ^ c` as the right operand of the outer power.
pub proof fn lemma_power_right_associative(a: Seq<char>, b: Seq<char>, c: Seq<char>)
    ensures
        spec_parse_tokens(
            seq![
                Token::Number(a),
                Token::Operator('^'),
                Token::Number(b),
                Token::Operator('^'),
                Token::Number(c),
            ],
        ) == Ok::<Expr, ParseIssue>(
            Expr::Power(
                Box::new(Expr::Number(a)),
                Box::new(Expr::Power(Box::new(Expr::Number(b)), Box::new(Expr::Number(c)))),
            ),
        ),
{
    let t = seq![
        Token::Number(a),
        Token::Operator('^'),
        Token::Number(b),
        Token::Operator('^'),
        Token::Number(c),
    ];
    let bc = Expr::Power(Box::new(Expr::Number(b)), Box::new(Expr::Number(c)));
    assert(spec_parse_term(t, 0) == Ok::<(Expr, int), ParseIssue>((Expr::Number(a), 1)));
    assert(spec_parse_term(t, 2) == Ok::<(Expr, int), ParseIssue>((Expr::Number(b), 3)));
    assert(spec_parse_term(t, 4) == Ok::<(Expr, int), ParseIssue>((Expr::Number(c), 5)));
    assert(spec_parse_summand(t, 4) == Ok::<(Expr, int), ParseIssue>((Expr::Number(c), 5)));
    assert(spec_parse_summand(t, 2) == Ok::<(Expr, int), ParseIssue>((bc, 5)));
    assert(spec_parse_summand(t, 0) == Ok::<(Expr, int), ParseIssue>(
        (Expr::Power(Box::new(Expr::Number(a)), Box::new(bc)), 5),
    ));
    assert(spec_parse_expr(t, 0) == Ok::<(Expr, int), ParseIssue>(
        (Expr::Power(Box::new(Expr::Number(a)), Box::new(bc)), 5),
    ));
}

/// A division chain is right-nested too: `a / b / c` parses with `b / c` as
/// the divisor of the outer division — the preserved trait that makes a
/// three-term chain reduce as `a / (b / c)`.
pub proof fn lemma_division_chain_right_nested(a: Seq<char>, b: Seq<char>, c: Seq<char>)
    ensures
        spec_parse_tokens(
            seq![
                Token::Number(a),
                Token::Operator('/'),
                Token::Number(b),
                Token::Operator('/'),
                Token::Number(c),
            ],
        ) == Ok::<Expr, ParseIssue>(
            Expr::Division(
                Box::new(Expr::Number(a)),
                Box::new(
                    Expr::Division(Box::new(Expr::Number(b)), Box::new(Expr::Number(c))),
                ),
            ),
        ),
{
    let t = seq![
        Token::Number(a),
        Token::Operator('/'),
        Token::Number(b),
        Token::Operator('/'),
        Token::Number(c),
    ];
    let bc = Expr::Division(Box::new(Expr::Number(b)), Box::new(Expr::Number(c)));
    assert(spec_parse_term(t, 0) == Ok::<(Expr, int), ParseIssue>((Expr::Number(a), 1)));
    assert(spec_parse_term(t, 2) == Ok::<(Expr, int), ParseIssue>((Expr::Number(b), 3)));
    assert(spec_parse_term(t, 4) == Ok::<(Expr, int), ParseIssue>((Expr::Number(c), 5)));
    assert(spec_parse_summand(t, 4) == Ok::<(Expr, int), ParseIssue>((Expr::Number(c), 5)));
    assert(spec_parse_summand(t, 2) == Ok::<(Expr, int), ParseIssue>((bc, 5)));
    assert(spec_parse_summand(t, 0) == Ok::<(Expr, int), ParseIssue>(
        (Expr::Division(Box::new(Expr::Number(a)), Box::new(bc)), 5),
    ));
    assert(spec_parse_expr(t, 0) == Ok::<(Expr, int), ParseIssue>(
        (Expr::Division(Box::new(Expr::Number(a)), Box::new(bc)), 5),
    ));
}

/// The bracket balance of one token: an opener counts one up, a closer one
/// down, everything else not at all.
pub open spec fn token_balance(tok: Token) -> int {
    match tok {
        Token::Bracket(c) => if is_open_bracket(c) {
            1int
        } else {
            -1int
        },
        _ => 0int,
    }
}

/// The bracket balance of a token sequence.
pub open spec fn bracket_balance(t: Seq<Token>) -> int
    decreases t.len(),
{
    if t.len() == 0 {
        0
    } else {
        token_balance(t[0]) + bracket_balance(t.drop_first())
    }
}

proof fn lemma_balance_add(a: Seq<Token>, b: Seq<Token>)
    ensures
        bracket_balance(a + b) == bracket_balance(a) + bracket_balance(b),
    decreases a.len(),
{
    if a.len() == 0 {
        assert(a + b =~= b);
    } else {
        assert((a + b).drop_first() =~= a.drop_first() + b);
        lemma_balance_add(a.drop_first(), b);
    }
}

proof fn lemma_balance_single(t: Seq<Token>, i: int)
    requires
        0 <= i < t.len(),
    ensures
        bracket_balance(t.subrange(i, i + 1)) == token_balance(t[i]),
{
    let s = t.subrange(i, i + 1);
    assert(s.drop_first() =~= Seq::<Token>::empty());
    assert(bracket_balance(s) == token_balance(s[0]) + bracket_balance(s.drop_first()));
}

/// A successfully parsed `term` region advances and is bracket-balanced.
proof fn lemma_term_balanced(t: Seq<Token>, pos: int)
    ensures
        spec_parse_term(t, pos) matches Ok((e, p)) ==> 0 <= pos < p <= t.len()
            && bracket_balance(t.subrange(pos, p)) == 0,
    decreases t.len() - pos, 0int,
{
    if spec_parse_term(t, pos) is Ok && 0 <= pos < t.len() {
        match t[pos] {
            Token::Number(_) => {
                lemma_balance_single(t, pos);
            },
            Token::Operator(_) => {},
            Token::Bracket(c) => {
                if is_open_bracket(c) {
                    lemma_expr_balanced(t, pos + 1);
                    match spec_parse_expr(t, pos + 1) {
                        Ok((inner, q)) => {
                            assert(t.subrange(pos, q + 1) =~= t.subrange(pos, pos + 1)
                                + t.subrange(pos + 1, q) + t.subrange(q, q + 1));
                            lemma_balance_add(
                                t.subrange(pos, pos + 1) + t.subrange(pos + 1, q),
                                t.subrange(q, q + 1),
                            );
                            lemma_balance_add(t.subrange(pos, pos + 1), t.subrange(pos + 1, q));
                            lemma_balance_single(t, pos);
                            lemma_balance_single(t, q);
                        },
                        Err(_) => {},
                    }
                }
            },
        }
    }
}

/// A successfully parsed `summand` region advances and is bracket-balanced.
proof fn lemma_summand_balanced(t: Seq<Token>, pos: int)
    ensures
        spec_parse_summand(t, pos) matches Ok((e, p)) ==> 0 <= pos < p <= t.len()
            && bracket_balance(t.subrange(pos, p)) == 0,
    decreases t.len() - pos, 1int,
{
    lemma_term_balanced(t, pos);
    match spec_parse_term(t, pos) {
        Ok((lhs, p)) => {
            if pos < p && p < t.len() && (t[p] == Token::Operator('*') || t[p]
                == Token::Operator('/') || t[p] == Token::Operator('^')) {
                lemma_summand_balanced(t, p + 1);
                match spec_parse_summand(t, p + 1) {
                    Ok((rhs, q)) => {
                        assert(t.subrange(pos, q) =~= t.subrange(pos, p) + t.subrange(p, p + 1)
                            + t.subrange(p + 1, q));
                        lemma_balance_add(
                            t.subrange(pos, p) + t.subrange(p, p + 1),
                            t.subrange(p + 1, q),
                        );
                        lemma_balance_add(t.subrange(pos, p), t.subrange(p, p + 1));
                        lemma_balance_single(t, p);
                    },
                    Err(_) => {},
                }
            }
        },
        Err(_) => {},
    }
}

/// A successfully parsed `expr` region advances and is bracket-balanced.
proof fn lemma_expr_balanced(t: Seq<Token>, pos: int)
    ensures
        spec_parse_expr(t, pos) matches Ok((e, p)) ==> 0 <= pos < p <= t.len()
            && bracket_balance(t.subrange(pos, p)) == 0,
    decreases t.len() - pos, 2int,
{
    lemma_summand_balanced(t, pos);
    match spec_parse_summand(t, pos) {
        Ok((lhs, p)) => {
            if pos < p && p < t.len() && t[p] == Token::Operator('+') {
                lemma_expr_balanced(t, p + 1);
                match spec_parse_expr(t, p + 1) {
                    Ok((rhs, q)) => {
                        assert(t.subrange(pos, q) =~= t.subrange(pos, p) + t.subrange(p, p + 1)
                            + t.subrange(p + 1, q));
                        lemma_balance_add(
                            t.subrange(pos, p) + t.subrange(p, p + 1),
                            t.subrange(p + 1, q),
                        );
                        lemma_balance_add(t.subrange(pos, p), t.subrange(p, p + 1));
                        lemma_balance_single(t, p);
                    },
                    Err(_) => {},
                }
            }
        },
        Err(_) => {},
    }
}

/// A token sequence whose brackets do not balance — an unmatched opener, or
/// an unmatched closer — never parses: the parser fails on it rather than
/// returning a partial result.
pub proof fn lemma_unbalanced_brackets_fail(t: Seq<Token>)
    ensures
        spec_parse_tokens(t) is Ok ==> bracket_balance(t) == 0,
{
    lemma_expr_balanced(t, 0);
    if spec_parse_tokens(t) is Ok {
        assert(t.subrange(0, t.len() as int) =~= t);
    }
}

/// Parses an `expr` production starting at `pos`: exactly `spec_parse_expr`.
fn parse_expr(tokens: &Vec<LexItem>, pos: usize) -> (r: Result<(ParseNode, usize), ParseError>)
    ensures
        match (r, spec_parse_expr(tokens_view(tokens@), pos as int)) {
            (Ok((n, p)), Ok((e, q))) => n@ == e && n.wf() && p as int == q && pos < p
                <= tokens@.len(),
            (Err(err), Err(issue)) => err@ == issue,
            _ => false,
        },
    decreases tokens@.len() - pos, 2int,
{
    let ghost t = tokens_view(tokens@);
    match parse_summand(tokens, pos) {
        Err(e) => Err(e),
        Ok((node_summand, next_pos)) => {
            let mut found_plus = false;
            if next_pos < tokens.len() {
                match &tokens[next_pos] {
                    LexItem::Op(c) => {
                        if *c == '+' {
                            found_plus = true;
                        }
                    },
                    _ => {},
                }
            }
            proof {
                if next_pos < tokens@.len() {
                    assert(t[next_pos as int] == tokens@[next_pos as int]@);
                }
            }
            if found_plus {
                match parse_expr(tokens, next_pos + 1) {
                    Err(e) => Err(e),
                    Ok((rhs, i)) => {
                        let ghost g_lhs = node_summand;
                        let ghost g_rhs = rhs;
                        let mut sum = ParseNode::new();
                        sum.entry = GrammarItem::Sum;
                        sum.children.push(node_summand);
                        sum.children.push(rhs);
                        proof {
                            assert(sum.children@ =~= seq![g_lhs, g_rhs]);
                        }
                        Ok((sum, i))
                    },
                }
            } else {
                Ok((node_summand, next_pos))
            }
        },
    }
}

/// Parses a `summand` production starting at `pos`: exactly
/// `spec_parse_summand`.
fn parse_summand(tokens: &Vec<LexItem>, pos: usize) -> (r: Result<
    (ParseNode, usize),
    ParseError,
>)
    ensures
        match (r, spec_parse_summand(tokens_view(tokens@), pos as int)) {
            (Ok((n, p)), Ok((e, q))) => n@ == e && n.wf() && p as int == q && pos < p
                <= tokens@.len(),
            (Err(err), Err(issue)) => err@ == issue,
            _ => false,
        },
    decreases tokens@.len() - pos, 1int,
{
    let ghost t = tokens_view(tokens@);
    match parse_term(tokens, pos) {
        Err(e) => Err(e),
        Ok((node_term, next_pos)) => {
            let mut found_op: Option<char> = None;
            if next_pos < tokens.len() {
                match &tokens[next_pos] {
                    LexItem::Op(c) => {
                        let cc = *c;
                        if cc == '*' || cc == '/' || cc == '^' {
                            found_op = Some(cc);
                        }
                    },
                    _ => {},
                }
            }
            proof {
                if next_pos < tokens@.len() {
                    assert(t[next_pos as int] == tokens@[next_pos as int]@);
                }
            }
            match found_op {
                Some(cc) => match parse_summand(tokens, next_pos + 1) {
                    Err(e) => Err(e),
                    Ok((rhs, i)) => {
                        let ghost g_lhs = node_term;
                        let ghost g_rhs = rhs;
                        let mut product = ParseNode::new();
                        product.entry = if cc == '*' {
                            GrammarItem::Product
                        } else if cc == '^' {
                            GrammarItem::Power
                        } else {
                            GrammarItem::Division
                        };
                        product.children.push(node_term);
                        product.children.push(rhs);
                        proof {
                            assert(product.children@ =~= seq![g_lhs, g_rhs]);
                        }
                        Ok((product, i))
                    },
                },
                None => Ok((node_term, next_pos)),
            }
        },
    }
}

/// Parses a `term` production starting at `pos`: exactly `spec_parse_term`.
fn parse_term(tokens: &Vec<LexItem>, pos: usize) -> (r: Result<(ParseNode, usize), ParseError>)
    ensures
        match (r, spec_parse_term(tokens_view(tokens@), pos as int)) {
            (Ok((n, p)), Ok((e, q))) => n@ == e && n.wf() && p as int == q && pos < p
                <= tokens@.len(),
            (Err(err), Err(issue)) => err@ == issue,
            _ => false,
        },
    decreases tokens@.len() - pos, 0int,
{
    let ghost t = tokens_view(tokens@);
    if pos >= tokens.len() {
        return Err(ParseError::UnexpectedEndOfInput);
    }
    proof {
        assert(t[pos as int] == tokens@[pos as int]@);
    }
    match &tokens[pos] {
        LexItem::Num(n) => {
            let mut node = ParseNode::new();
            node.entry = GrammarItem::Number(n.clone());
            Ok((node, pos + 1))
        },
        LexItem::Op(_) => Err(ParseError::UnexpectedToken),
        LexItem::Paren(c) => {
            let c = *c;
            if c == '(' || c == '[' || c == '{' {
                match parse_expr(tokens, pos + 1) {
                    Err(e) => Err(e),
                    Ok((node, next_pos)) => {
                        if next_pos < tokens.len() {
                            proof {
                                assert(t[next_pos as int] == tokens@[next_pos as int]@);
                            }
                            match &tokens[next_pos] {
                                LexItem::Paren(c2) => {
                                    let c2 = *c2;
                                    if c2 == matching(c) {
                                        let ghost g_inner = node;
                                        let mut paren = ParseNode::new();
                                        paren.children.push(node);
                                        proof {
                                            assert(paren.children@ =~= seq![g_inner]);
                                        }
                                        Ok((paren, next_pos + 1))
                                    } else {
                                        Err(
                                            ParseError::BracketMismatch(
                                                matching(c),
                                                c2,
                                                next_pos,
                                            ),
                                        )
                                    }
                                },
                                _ => Err(ParseError::UnexpectedToken),
                            }
                        } else {
                            Err(ParseError::UnexpectedEndOfInput)
                        }
                    },
                }
            } else {
                Err(ParseError::UnexpectedToken)
            }
        },
    }
}

/// The library's entry point: tokenizes `input` against `rates` and parses
/// the whole of it. Returns the well-formed tree whose model is exactly what
/// `spec_parse_text` says, or the first failure of either stage, unchanged.
pub fn parse(input: &str, rates: &RateTable) -> (r: Result<ParseNode, CalcError>)
    ensures
        match (r, spec_parse_text(input@, rates.rates())) {
            (Ok(n), Ok(e)) => n@ == e && n.wf(),
            (Err(err), Err(issue)) => err@ == issue,
            _ => false,
        },
{
    let tokens = match lex(input, rates) {
        Ok(t) => t,
        Err(e) => {
            return Err(CalcError::Lex(e));
        },
    };
    match parse_expr(&tokens, 0) {
        Err(e) => Err(CalcError::Parse(e)),
        Ok((n, i)) => {
            if i == tokens.len() {
                Ok(n)
            } else {
                proof {
                    assert(tokens_view(tokens@)[i as int] == tokens@[i as int]@);
                }
                Err(CalcError::Parse(ParseError::TrailingInput(tokens[i].clone(), i)))
            }
        },
    }
}

} // verus!
