//! Tokenization: raw expression text to a sequence of tokens.
//!
//! The scanner walks the input left to right. Digit-and-dot runs become one
//! numeric literal token, kept as its text; uppercase runs are currency codes,
//! replaced by the rate text the table resolves them to (a literal and a
//! resolved rate are indistinguishable once lexed); single characters become
//! operator and bracket tokens; spaces are skipped; anything else stops the
//! scan with an error.

use vstd::prelude::*;

verus! {

/// A token as the executable scanner produces it. A numeric value is carried
/// as its decimal text; interpreting that text as a machine number is the
/// caller's concern, outside this library.
#[derive(Debug, PartialEq)]
pub enum LexItem {
    /// One of `( ) [ ] { }`, kept literally so mismatched styles can be reported.
    Paren(char),
    /// One of `+ * / ^`.
    Op(char),
    /// The decimal text of a literal or of a resolved currency rate.
    Num(String),
}

/// The mathematical model of a token: the same three shapes over `Seq<char>`.
pub enum Token {
    Bracket(char),
    Operator(char),
    Number(Seq<char>),
}

impl Clone for LexItem {
    /// A clone is the same token, field for field.
    fn clone(&self) -> (res: Self)
        ensures
            res == *self,
    {
        match self {
            LexItem::Paren(c) => LexItem::Paren(*c),
            LexItem::Op(c) => LexItem::Op(*c),
            LexItem::Num(s) => LexItem::Num(s.clone()),
        }
    }
}

impl View for LexItem {
    type V = Token;

    open spec fn view(&self) -> Token {
        match self {
            LexItem::Paren(c) => Token::Bracket(*c),
            LexItem::Op(c) => Token::Operator(*c),
            LexItem::Num(s) => Token::Number(s@),
        }
    }
}

/// The model of a token sequence.
pub open spec fn tokens_view(items: Seq<LexItem>) -> Seq<Token> {
    items.map_values(|t: LexItem| t@)
}

/// Why tokenization failed.
#[derive(Debug, Clone, PartialEq)]
pub enum LexError {
    /// An input character matches no token rule. A digit-and-dot run that is
    /// no valid literal (no digit at all, or a second `.`) reports its `.`.
    UnexpectedCharacter(char),
    /// An uppercase run that the rate table does not resolve.
    UnknownCurrency(String),
}

/// The model of a tokenization failure.
pub enum LexIssue {
    UnexpectedCharacter(char),
    UnknownCurrency(Seq<char>),
}

impl View for LexError {
    type V = LexIssue;

    open spec fn view(&self) -> LexIssue {
        match self {
            LexError::UnexpectedCharacter(c) => LexIssue::UnexpectedCharacter(*c),
            LexError::UnknownCurrency(s) => LexIssue::UnknownCurrency(s@),
        }
    }
}

/// The rate table the scanner resolves currency codes against: pairs of a
/// code and the decimal text of its rate. It is handed in by the caller;
/// how it was populated is no concern of this library.
#[derive(Debug, Clone, PartialEq)]
pub struct RateTable {
    pub entries: Vec<(String, String)>,
}

/// Lookup over the model of a table: the value of the first entry whose code
/// matches, if any.
pub open spec fn table_lookup(rt: Seq<(Seq<char>, Seq<char>)>, code: Seq<char>) -> Option<
    Seq<char>,
>
    decreases rt.len(),
{
    if rt.len() == 0 {
        None
    } else if rt[0].0 == code {
        Some(rt[0].1)
    } else {
        table_lookup(rt.drop_first(), code)
    }
}

impl RateTable {
    /// The model of the table: its entries as character sequences.
    pub open spec fn rates(self) -> Seq<(Seq<char>, Seq<char>)> {
        self.entries@.map_values(|p: (String, String)| (p.0@, p.1@))
    }

    /// The rate text for `code`, or `None` where the table has no such code.
    pub fn lookup(&self, code: &String) -> (r: Option<String>)
        ensures
            match r {
                Some(v) => table_lookup(self.rates(), code@) == Some(v@),
                None => table_lookup(self.rates(), code@) is None,
            },
    {
        let n = self.entries.len();
        let mut i: usize = 0;
        proof {
            assert(self.rates().skip(0) =~= self.rates());
        }
        while i < n
            invariant
                0 <= i <= n == self.entries@.len(),
                table_lookup(self.rates(), code@) == table_lookup(
                    self.rates().skip(i as int),
                    code@,
                ),
            decreases n - i,
        {
            proof {
                assert(self.rates().skip(i as int)[0] == (
                    self.entries@[i as int].0@,
                    self.entries@[i as int].1@,
                ));
            }
            if self.entries[i].0 == *code {
                return Some(self.entries[i].1.clone());
            }
            proof {
                assert(self.rates().skip(i as int).drop_first() =~= self.rates().skip(
                    i as int + 1,
                ));
            }
            i = i + 1;
        }
        proof {
            assert(self.rates().skip(n as int) =~= Seq::<(Seq<char>, Seq<char>)>::empty());
        }
        None
    }
}

/// `c` is a decimal digit.
pub open spec fn is_digit(c: char) -> bool {
    ('0' as u32) <= (c as u32) && (c as u32) <= ('9' as u32)
}

/// `c` may stand inside a numeric literal run: a digit or `.`.
pub open spec fn is_num_char(c: char) -> bool {
    is_digit(c) || c == '.'
}

/// `c` is an uppercase letter, so part of a currency code.
pub open spec fn is_upper(c: char) -> bool {
    ('A' as u32) <= (c as u32) && (c as u32) <= ('Z' as u32)
}

/// `c` is an operator.
pub open spec fn is_op(c: char) -> bool {
    c == '+' || c == '*' || c == '/' || c == '^'
}

/// `c` is a bracket of any of the three styles.
pub open spec fn is_bracket(c: char) -> bool {
    c == '(' || c == ')' || c == '[' || c == ']' || c == '{' || c == '}'
}

/// The end of the digit-and-dot run that starts at `i`: the first position at
/// or after `i` holding no such character.
pub open spec fn num_end(s: Seq<char>, i: int) -> int
    decreases s.len() - i,
{
    if 0 <= i < s.len() && is_num_char(s[i]) {
        num_end(s, i + 1)
    } else {
        i
    }
}

/// The end of the uppercase run that starts at `i`.
pub open spec fn cur_end(s: Seq<char>, i: int) -> int
    decreases s.len() - i,
{
    if 0 <= i < s.len() && is_upper(s[i]) {
        cur_end(s, i + 1)
    } else {
        i
    }
}

/// How many `.` characters `s` holds.
pub open spec fn dot_count(s: Seq<char>) -> nat
    decreases s.len(),
{
    if s.len() == 0 {
        0
    } else {
        (if s[0] == '.' {
            1nat
        } else {
            0nat
        }) + dot_count(s.drop_first())
    }
}

/// `s` holds at least one digit.
pub open spec fn has_digit(s: Seq<char>) -> bool {
    exists|k: int| 0 <= k < s.len() && is_digit(s[k])
}

/// A digit-and-dot run is a valid literal when it has a digit and at most one
/// dot; exactly the texts the run may produce that every decimal reader takes.
pub open spec fn valid_literal(s: Seq<char>) -> bool {
    has_digit(s) && dot_count(s) <= 1
}

proof fn lemma_num_end_bounds(s: Seq<char>, i: int)
    requires
        0 <= i <= s.len(),
    ensures
        i <= num_end(s, i) <= s.len(),
        i < s.len() && is_num_char(s[i]) ==> num_end(s, i) > i,
    decreases s.len() - i,
{
    if i < s.len() && is_num_char(s[i]) {
        lemma_num_end_bounds(s, i + 1);
    }
}

proof fn lemma_cur_end_bounds(s: Seq<char>, i: int)
    requires
        0 <= i <= s.len(),
    ensures
        i <= cur_end(s, i) <= s.len(),
        i < s.len() && is_upper(s[i]) ==> cur_end(s, i) > i,
    decreases s.len() - i,
{
    if i < s.len() && is_upper(s[i]) {
        lemma_cur_end_bounds(s, i + 1);
    }
}

proof fn lemma_num_end_characterize(s: Seq<char>, i: int, j: int)
    requires
        0 <= i <= j <= s.len(),
        forall|k: int| i <= k < j ==> is_num_char(s[k]),
        j == s.len() || !is_num_char(s[j]),
    ensures
        num_end(s, i) == j,
    decreases j - i,
{
    if i < j {
        assert(is_num_char(s[i]));
        lemma_num_end_characterize(s, i + 1, j);
    }
}

pub proof fn lemma_cur_end_characterize(s: Seq<char>, i: int, j: int)
    requires
        0 <= i <= j <= s.len(),
        forall|k: int| i <= k < j ==> is_upper(s[k]),
        j == s.len() || !is_upper(s[j]),
    ensures
        cur_end(s, i) == j,
    decreases j - i,
{
    if i < j {
        assert(is_upper(s[i]));
        lemma_cur_end_characterize(s, i + 1, j);
    }
}

proof fn lemma_dot_count_push(s: Seq<char>, c: char)
    ensures
        dot_count(s.push(c)) == dot_count(s) + (if c == '.' {
            1nat
        } else {
            0nat
        }),
    decreases s.len(),
{
    assert(s.push(c)[0] == if s.len() == 0 { c } else { s[0] });
    if s.len() == 0 {
        assert(s.push(c).drop_first() =~= Seq::<char>::empty());
        assert(dot_count(s.push(c).drop_first()) == 0);
        assert(dot_count(s.push(c)) == (if c == '.' {
            1nat
        } else {
            0nat
        }) + dot_count(s.push(c).drop_first()));
    } else {
        assert(s.push(c).drop_first() =~= s.drop_first().push(c));
        lemma_dot_count_push(s.drop_first(), c);
        assert(dot_count(s.push(c)) == (if s[0] == '.' {
            1nat
        } else {
            0nat
        }) + dot_count(s.push(c).drop_first()));
        assert(dot_count(s) == (if s[0] == '.' {
            1nat
        } else {
            0nat
        }) + dot_count(s.drop_first()));
    }
}

#[via_fn]
proof fn spec_lex_from_decreases(s: Seq<char>, rt: Seq<(Seq<char>, Seq<char>)>, i: int) {
    if 0 <= i < s.len() {
        lemma_num_end_bounds(s, i);
        lemma_cur_end_bounds(s, i);
    }
}

/// What tokenizing `s` from position `i` yields under rate table `rt`: the
/// model the executable scanner is held to, token for token and error for
/// error.
pub open spec fn spec_lex_from(s: Seq<char>, rt: Seq<(Seq<char>, Seq<char>)>, i: int) -> Result<
    Seq<Token>,
    LexIssue,
>
    decreases s.len() - i,
    when 0 <= i <= s.len()
    via spec_lex_from_decreases
{
    if i >= s.len() {
        Ok(Seq::empty())
    } else {
        let c = s[i];
        if is_num_char(c) {
            let j = num_end(s, i);
            let lit = s.subrange(i, j);
            if valid_literal(lit) {
                match spec_lex_from(s, rt, j) {
                    Ok(t) => Ok(seq![Token::Number(lit)] + t),
                    Err(e) => Err(e),
                }
            } else {
                Err(LexIssue::UnexpectedCharacter('.'))
            }
        } else if is_op(c) {
            match spec_lex_from(s, rt, i + 1) {
                Ok(t) => Ok(seq![Token::Operator(c)] + t),
                Err(e) => Err(e),
            }
        } else if is_bracket(c) {
            match spec_lex_from(s, rt, i + 1) {
                Ok(t) => Ok(seq![Token::Bracket(c)] + t),
                Err(e) => Err(e),
            }
        } else if c == ' ' {
            spec_lex_from(s, rt, i + 1)
        } else if is_upper(c) {
            let j = cur_end(s, i);
            let code = s.subrange(i, j);
            match table_lookup(rt, code) {
                Some(v) => match spec_lex_from(s, rt, j) {
                    Ok(t) => Ok(seq![Token::Number(v)] + t),
                    Err(e) => Err(e),
                },
                None => Err(LexIssue::UnknownCurrency(code)),
            }
        } else {
            Err(LexIssue::UnexpectedCharacter(c))
        }
    }
}

/// Tokenizing `s` under `rt`, whole.
pub open spec fn spec_lex(s: Seq<char>, rt: Seq<(Seq<char>, Seq<char>)>) -> Result<
    Seq<Token>,
    LexIssue,
> {
    spec_lex_from(s, rt, 0)
}

/// Prefix tokens already produced, joined with the outcome of the rest of the
/// scan.
pub open spec fn lex_join(pre: Seq<Token>, rest: Result<Seq<Token>, LexIssue>) -> Result<
    Seq<Token>,
    LexIssue,
> {
    match rest {
        Ok(t) => Ok(pre + t),
        Err(e) => Err(e),
    }
}

/// `c` is a digit, executably.
fn digit_char(c: char) -> (r: bool)
    ensures
        r == is_digit(c),
{
    let u = c as u32;
    ('0' as u32) <= u && u <= ('9' as u32)
}

/// `c` may stand inside a numeric literal run, executably.
fn num_char(c: char) -> (r: bool)
    ensures
        r == is_num_char(c),
{
    digit_char(c) || c == '.'
}

/// `c` is an uppercase letter, executably.
fn upper_char(c: char) -> (r: bool)
    ensures
        r == is_upper(c),
{
    let u = c as u32;
    ('A' as u32) <= u && u <= ('Z' as u32)
}

/// Scans the digit-and-dot run of `input` that starts at `start`. Returns the
/// end of the run, how many dots it holds, and whether it holds a digit.
fn peek_number(input: &str, n: usize, start: usize) -> (r: (usize, usize, bool))
    requires
        n == input@.len(),
        start < n,
        is_num_char(input@[start as int]),
    ensures
        r.0 == num_end(input@, start as int),
        start < r.0 <= n,
        r.1 == dot_count(input@.subrange(start as int, r.0 as int)),
        r.2 == has_digit(input@.subrange(start as int, r.0 as int)),
{
    let ghost s = input@;
    let mut j = start;
    let mut dots: usize = 0;
    let mut saw_digit = false;
    loop
        invariant
            start <= j <= n == s.len() == input@.len(),
            s == input@,
            forall|k: int| start <= k < j ==> is_num_char(s[k]),
            dots == dot_count(s.subrange(start as int, j as int)),
            saw_digit == has_digit(s.subrange(start as int, j as int)),
            dots <= j - start,
        ensures
            start <= j <= n,
            forall|k: int| start <= k < j ==> is_num_char(s[k]),
            dots == dot_count(s.subrange(start as int, j as int)),
            saw_digit == has_digit(s.subrange(start as int, j as int)),
            j == n || !is_num_char(s[j as int]),
        decreases n - j,
    {
        if j >= n {
            break ;
        }
        let c = input.get_char(j);
        if !num_char(c) {
            break ;
        }
        proof {
            let before = s.subrange(start as int, j as int);
            let after = s.subrange(start as int, j as int + 1);
            assert(after =~= before.push(s[j as int]));
            lemma_dot_count_push(before, s[j as int]);
            if is_digit(s[j as int]) {
                assert(after[j - start] == s[j as int]);
                assert(has_digit(after));
            } else if has_digit(before) {
                let k = choose|k: int| 0 <= k < before.len() && is_digit(before[k]);
                assert(is_digit(after[k]));
            } else {
                assert forall|k: int| 0 <= k < after.len() implies !is_digit(after[k]) by {
                    if k < before.len() {
                        assert(!is_digit(before[k]));
                    }
                }
            }
        }
        if c == '.' {
            dots = dots + 1;
        } else {
            saw_digit = true;
        }
        j = j + 1;
    }
    proof {
        lemma_num_end_characterize(s, start as int, j as int);
    }
    (j, dots, saw_digit)
}

/// Scans the uppercase run of `input` that starts at `start` and returns its
/// end.
fn peek_currency(input: &str, n: usize, start: usize) -> (end: usize)
    requires
        n == input@.len(),
        start < n,
        is_upper(input@[start as int]),
    ensures
        end == cur_end(input@, start as int),
        start < end <= n,
{
    let ghost s = input@;
    let mut j = start;
    loop
        invariant
            start <= j <= n == s.len() == input@.len(),
            s == input@,
            forall|k: int| start <= k < j ==> is_upper(s[k]),
        ensures
            start <= j <= n,
            forall|k: int| start <= k < j ==> is_upper(s[k]),
            j == n || !is_upper(s[j as int]),
        decreases n - j,
    {
        if j >= n {
            break ;
        }
        let c = input.get_char(j);
        if !upper_char(c) {
            break ;
        }
        j = j + 1;
    }
    proof {
        lemma_cur_end_characterize(s, start as int, j as int);
    }
    j
}

/// Tokenizes `input` against `rates`: exactly what `spec_lex` says, token for
/// token on success and error for error on failure.
pub fn lex(input: &str, rates: &RateTable) -> (r: Result<Vec<LexItem>, LexError>)
    ensures
        match (r, spec_lex(input@, rates.rates())) {
            (Ok(v), Ok(t)) => tokens_view(v@) == t,
            (Err(e), Err(issue)) => e@ == issue,
            _ => false,
        },
{
    let ghost s = input@;
    let ghost rt = rates.rates();
    let n = input.unicode_len();
    let mut result: Vec<LexItem> = Vec::new();
    let mut i: usize = 0;
    loop
        invariant
            0 <= i <= n == s.len(),
            s == input@,
            rt == rates.rates(),
            spec_lex(s, rt) == lex_join(tokens_view(result@), spec_lex_from(s, rt, i as int)),
        decreases n - i,
    {
        if i >= n {
            proof {
                assert(tokens_view(result@) + Seq::<Token>::empty() =~= tokens_view(result@));
            }
            return Ok(result);
        }
        let c = input.get_char(i);
        let ghost pre = result@;
        if num_char(c) {
            let (j, dots, saw_digit) = peek_number(input, n, i);
            if !(saw_digit && dots <= 1) {
                return Err(LexError::UnexpectedCharacter('.'));
            }
            let text = input.substring_char(i, j).to_owned();
            result.push(LexItem::Num(text));
            proof {
                lex_step(s, rt, i as int, j as int, pre, result@.last());
            }
            i = j;
        } else if c == '+' || c == '*' || c == '/' || c == '^' {
            result.push(LexItem::Op(c));
            proof {
                lex_step(s, rt, i as int, i as int + 1, pre, result@.last());
            }
            i = i + 1;
        } else if c == '(' || c == ')' || c == '[' || c == ']' || c == '{' || c == '}' {
            result.push(LexItem::Paren(c));
            proof {
                lex_step(s, rt, i as int, i as int + 1, pre, result@.last());
            }
            i = i + 1;
        } else if c == ' ' {
            i = i + 1;
        } else if upper_char(c) {
            let j = peek_currency(input, n, i);
            let code = input.substring_char(i, j).to_owned();
            match rates.lookup(&code) {
                Some(v) => {
                    result.push(LexItem::Num(v));
                    proof {
                        lex_step(s, rt, i as int, j as int, pre, result@.last());
                    }
                    i = j;
                },
                None => {
                    return Err(LexError::UnknownCurrency(code));
                },
            }
        } else {
            return Err(LexError::UnexpectedCharacter(c));
        }
    }
}

/// One scanner step: producing the single token of `[i, j)` and moving on
/// preserves the loop's running account of `spec_lex`.
proof fn lex_step(
    s: Seq<char>,
    rt: Seq<(Seq<char>, Seq<char>)>,
    i: int,
    j: int,
    pre: Seq<LexItem>,
    item: LexItem,
)
    requires
        0 <= i < j <= s.len(),
        spec_lex_from(s, rt, i) == lex_join(seq![item@], spec_lex_from(s, rt, j)),
        spec_lex(s, rt) == lex_join(tokens_view(pre), spec_lex_from(s, rt, i)),
    ensures
        spec_lex(s, rt) == lex_join(tokens_view(pre.push(item)), spec_lex_from(s, rt, j)),
{
    assert(tokens_view(pre.push(item)) =~= tokens_view(pre).push(item@));
    match spec_lex_from(s, rt, j) {
        Ok(t) => {
            assert(tokens_view(pre) + (seq![item@] + t) =~= tokens_view(pre.push(item)) + t);
        },
        Err(_) => {},
    }
}

} // verus!
