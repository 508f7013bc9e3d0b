//! The grammar of payroll expressions: splitting an expression into tokens
//! and parsing the tokens into a tree of numbers, field references, binary
//! operations and function calls. Numbers stay as their text; reading and
//! evaluating them is left to the caller.

use vstd::prelude::*;

verus! {

/// Whether `c` is an ASCII digit.
pub open spec fn is_digit(c: char) -> bool {
    '0' <= c <= '9'
}

/// Whether `c` is a sign.
pub open spec fn is_sign(c: char) -> bool {
    c == '+' || c == '-'
}

/// Whether `c` is the lower-case ASCII letter `w` in either case (or, for
/// another `w`, `w` itself).
pub open spec fn same_letter(c: char, w: char) -> bool {
    c == w || ('a' <= w <= 'z' && (c as u32) + 32 == (w as u32))
}

/// Whether `s` spells `word` in any case.
pub open spec fn spells(s: Seq<char>, word: Seq<char>) -> bool {
    s.len() == word.len() && forall|i: int| 0 <= i < s.len() ==> same_letter(#[trigger] s[i], word[i])
}

/// Digits with at most one point, and at least one digit.
pub open spec fn is_mantissa(m: Seq<char>) -> bool {
    &&& forall|i: int| 0 <= i < m.len() ==> is_digit(#[trigger] m[i]) || m[i] == '.'
    &&& forall|i: int, j: int| 0 <= i < j < m.len() ==> !(#[trigger] m[i] == '.' && #[trigger] m[j] == '.')
    &&& exists|i: int| 0 <= i < m.len() && is_digit(#[trigger] m[i])
}

/// Whether every character of `d` is a digit.
pub open spec fn all_digits(d: Seq<char>) -> bool {
    forall|i: int| 0 <= i < d.len() ==> is_digit(#[trigger] d[i])
}

/// `x` without its leading sign, if it has one.
pub open spec fn unsigned(x: Seq<char>) -> Seq<char> {
    if x.len() > 0 && is_sign(x[0]) { x.drop_first() } else { x }
}

/// An optional sign, then one digit or more.
pub open spec fn is_exponent(x: Seq<char>) -> bool {
    unsigned(x).len() > 0 && all_digits(unsigned(x))
}

/// A decimal number: a mantissa, then optionally `e` or `E` and an
/// exponent.
pub open spec fn is_decimal(s: Seq<char>) -> bool {
    ||| is_mantissa(s)
    ||| exists|k: int|
        0 <= k < s.len() && (s[k] == 'e' || s[k] == 'E') && #[trigger] is_mantissa(s.take(k)) && is_exponent(
            s.skip(k + 1),
        )
}

/// The text that `str::parse` accepts as a floating-point number, as its
/// documentation gives the grammar: an optional sign, then `inf`,
/// `infinity` or `nan` in any case, or a decimal number.
pub open spec fn is_number_text(s: Seq<char>) -> bool {
    let body = unsigned(s);
    ||| spells(body, seq!['i', 'n', 'f'])
    ||| spells(body, seq!['i', 'n', 'f', 'i', 'n', 'i', 't', 'y'])
    ||| spells(body, seq!['n', 'a', 'n'])
    ||| is_decimal(body)
}

/// The characters of `s[from..to]`.
fn chars_of(s: &str, from: usize, to: usize) -> (v: Vec<char>)
    requires
        from <= to <= s@.len(),
    ensures
        v@ == s@.subrange(from as int, to as int),
{
    let mut v: Vec<char> = Vec::new();
    let mut i = from;
    while i < to
        invariant
            from <= i <= to <= s@.len(),
            v@ == s@.subrange(from as int, i as int),
        decreases to - i,
    {
        v.push(s.get_char(i));
        i = i + 1;
        assert(v@ =~= s@.subrange(from as int, i as int));
    }
    v
}

/// Whether `v` spells `word` in any case.
fn spells_exec(v: &Vec<char>, word: &Vec<char>) -> (b: bool)
    ensures
        b == spells(v@, word@),
{
    if v.len() != word.len() {
        return false;
    }
    let mut i: usize = 0;
    while i < v.len()
        invariant
            v@.len() == word@.len(),
            i <= v@.len(),
            forall|j: int| 0 <= j < i ==> same_letter(#[trigger] v@[j], word@[j]),
        decreases v@.len() - i,
    {
        let c = v[i];
        let w = word[i];
        if !(c == w || ('a' <= w && w <= 'z' && (c as u32) == (w as u32) - 32)) {
            assert(!same_letter(v@[i as int], word@[i as int]));
            return false;
        }
        assert(same_letter(v@[i as int], word@[i as int]));
        i = i + 1;
    }
    true
}

/// Whether `v[from..to]` is a mantissa.
fn mantissa_exec(v: &Vec<char>, from: usize, to: usize) -> (b: bool)
    requires
        from <= to <= v@.len(),
    ensures
        b == is_mantissa(v@.subrange(from as int, to as int)),
{
    let ghost m = v@.subrange(from as int, to as int);
    let mut i = from;
    let mut dot = false;
    let mut digit = false;
    while i < to
        invariant
            from <= i <= to <= v@.len(),
            m == v@.subrange(from as int, to as int),
            forall|k: int| 0 <= k < i - from ==> is_digit(#[trigger] m[k]) || m[k] == '.',
            forall|k: int, l: int| 0 <= k < l < i - from ==> !(#[trigger] m[k] == '.' && #[trigger] m[l] == '.'),
            dot == exists|k: int| 0 <= k < i - from && #[trigger] m[k] == '.',
            digit == exists|k: int| 0 <= k < i - from && is_digit(#[trigger] m[k]),
        decreases to - i,
    {
        let c = v[i];
        assert(m[i - from] == c);
        if c == '.' {
            if dot {
                proof {
                    let k = choose|k: int| 0 <= k < i - from && #[trigger] m[k] == '.';
                    assert(m[k] == '.' && m[i - from] == '.');
                }
                return false;
            }
            dot = true;
        } else if '0' <= c && c <= '9' {
            digit = true;
        } else {
            return false;
        }
        i = i + 1;
    }
    digit
}

/// Whether `v[from..to]` is an exponent.
fn exponent_exec(v: &Vec<char>, from: usize, to: usize) -> (b: bool)
    requires
        from <= to <= v@.len(),
    ensures
        b == is_exponent(v@.subrange(from as int, to as int)),
{
    let ghost x = v@.subrange(from as int, to as int);
    let start = if from < to && (v[from] == '+' || v[from] == '-') { from + 1 } else { from };
    let ghost d = unsigned(x);
    assert(from < to ==> x[0] == v@[from as int]);
    assert(d =~= v@.subrange(start as int, to as int));
    if start == to {
        return false;
    }
    let mut i = start;
    while i < to
        invariant
            from <= start <= i <= to <= v@.len(),
            d == v@.subrange(start as int, to as int),
            x == v@.subrange(from as int, to as int),
            d == unsigned(x),
            forall|k: int| 0 <= k < i - start ==> is_digit(#[trigger] d[k]),
        decreases to - i,
    {
        let c = v[i];
        assert(d[i - start] == c);
        if !('0' <= c && c <= '9') {
            assert(!is_digit(d[i - start]));
            return false;
        }
        i = i + 1;
    }
    true
}

/// Whether `v` is a decimal number.
fn decimal_exec(v: &Vec<char>) -> (b: bool)
    ensures
        b == is_decimal(v@),
{
    let n = v.len();
    let mut k: usize = 0;
    while k < n && v[k] != 'e' && v[k] != 'E'
        invariant
            k <= n == v@.len(),
            forall|j: int| 0 <= j < k ==> #[trigger] v@[j] != 'e' && v@[j] != 'E',
        decreases n - k,
    {
        k = k + 1;
    }
    assert(v@.subrange(0, n as int) =~= v@);
    if k == n {
        let b = mantissa_exec(v, 0, n);
        proof {
            if exists|k2: int|
                0 <= k2 < v@.len() && (v@[k2] == 'e' || v@[k2] == 'E') && #[trigger] is_mantissa(v@.take(k2))
                    && is_exponent(v@.skip(k2 + 1)) {
                let k2 = choose|k2: int|
                    0 <= k2 < v@.len() && (v@[k2] == 'e' || v@[k2] == 'E') && #[trigger] is_mantissa(v@.take(k2))
                        && is_exponent(v@.skip(k2 + 1));
                assert(v@[k2] != 'e' && v@[k2] != 'E');
            }
        }
        b
    } else {
        let m = mantissa_exec(v, 0, k);
        let e = exponent_exec(v, k + 1, n);
        proof {
            assert(v@.take(k as int) =~= v@.subrange(0, k as int));
            assert(v@.skip(k + 1) =~= v@.subrange(k + 1, n as int));
            if is_mantissa(v@) {
                assert(!is_digit(v@[k as int]) && v@[k as int] != '.');
            }
            if exists|k2: int|
                0 <= k2 < v@.len() && (v@[k2] == 'e' || v@[k2] == 'E') && #[trigger] is_mantissa(v@.take(k2))
                    && is_exponent(v@.skip(k2 + 1)) {
                let k2 = choose|k2: int|
                    0 <= k2 < v@.len() && (v@[k2] == 'e' || v@[k2] == 'E') && #[trigger] is_mantissa(v@.take(k2))
                        && is_exponent(v@.skip(k2 + 1));
                if k2 < k {
                    assert(v@[k2] != 'e' && v@[k2] != 'E');
                } else if k2 > k {
                    let t = v@.take(k2);
                    assert(t[k as int] == v@[k as int]);
                    assert(!is_digit(t[k as int]) && t[k as int] != '.');
                }
            }
            if m && e {
                assert(is_mantissa(v@.take(k as int)));
            }
        }
        m && e
    }
}

/// Whether `t` reads as a floating-point number.
fn number_text_exec(t: &str) -> (b: bool)
    ensures
        b == is_number_text(t@),
{
    let n = t.unicode_len();
    let start = if n > 0 && (t.get_char(0) == '+' || t.get_char(0) == '-') { 1 } else { 0 };
    let body = chars_of(t, start, n);
    proof {
        let s = t@;
        assert(n > 0 ==> s[0] == t@[0]);
        assert(body@ =~= unsigned(s));
    }
    spells_exec(&body, &vec!['i', 'n', 'f']) || spells_exec(&body, &vec!['i', 'n', 'f', 'i', 'n', 'i', 't', 'y'])
        || spells_exec(&body, &vec!['n', 'a', 'n']) || decimal_exec(&body)
}

/// A piece of an expression.
#[derive(Debug, Clone)]
pub enum Token {
    /// The text of a number.
    Number(String),
    Field(String),
    /// One of `+ - * / ( ) ,`.
    Operator(char),
    /// The name of a built-in function.
    Function(String),
    LeftParen,
    RightParen,
}

/// Model of a token.
pub enum TokenView {
    Number(Seq<char>),
    Field(Seq<char>),
    Operator(char),
    Function(Seq<char>),
    LeftParen,
    RightParen,
}

impl View for Token {
    type V = TokenView;

    open spec fn view(&self) -> TokenView {
        match self {
            Token::Number(s) => TokenView::Number(s@),
            Token::Field(s) => TokenView::Field(s@),
            Token::Operator(c) => TokenView::Operator(*c),
            Token::Function(s) => TokenView::Function(s@),
            Token::LeftParen => TokenView::LeftParen,
            Token::RightParen => TokenView::RightParen,
        }
    }
}

/// Models of a list of tokens.
pub open spec fn tokens_view(v: Seq<Token>) -> Seq<TokenView> {
    v.map_values(|t: Token| t@)
}

/// Whether `c` separates tokens without being one.
pub open spec fn is_blank(c: char) -> bool {
    c == ' ' || c == '\t' || c == '\n'
}

/// Whether `c` is a token of its own.
pub open spec fn is_operator_char(c: char) -> bool {
    c == '+' || c == '-' || c == '*' || c == '/' || c == '(' || c == ')' || c == ','
}

/// The names of the built-in functions.
pub open spec fn is_function_name(t: Seq<char>) -> bool {
    ||| t == seq!['h', 'o', 'u', 'r', 's', '_', 'b', 'e', 't', 'w', 'e', 'e', 'n']
    ||| t == seq!['m', 'i', 'n', 'u', 't', 'e', 's', '_', 'b', 'e', 't', 'w', 'e', 'e', 'n']
    ||| t == seq!['m', 'i', 'n', 'u', 't', 'e', 's', '_', 't', 'o', '_', 'h', 'o', 'u', 'r', 's']
    ||| t == seq!['m', 'u', 'l', 't', 'i', 'p', 'l', 'y']
}

/// What a run of characters between separators is: a number when it reads
/// as one, a function when it names one, and otherwise a field.
pub open spec fn classify(t: Seq<char>) -> TokenView {
    if is_number_text(t) {
        TokenView::Number(t)
    } else if is_function_name(t) {
        TokenView::Function(t)
    } else {
        TokenView::Field(t)
    }
}

/// The tokens with the pending run of characters, if any, added.
pub open spec fn flush(tokens: Seq<TokenView>, run: Seq<char>) -> Seq<TokenView> {
    if run.len() == 0 { tokens } else { tokens.push(classify(run)) }
}

/// The tokens of `s` so far and the run of characters still pending:
/// a blank ends the run, an operator ends it and is a token itself, any
/// other character extends it.
pub open spec fn scan(s: Seq<char>) -> (Seq<TokenView>, Seq<char>)
    decreases s.len(),
{
    if s.len() == 0 {
        (Seq::empty(), Seq::empty())
    } else {
        let (tokens, run) = scan(s.drop_last());
        let c = s.last();
        if is_blank(c) {
            (flush(tokens, run), Seq::empty())
        } else if is_operator_char(c) {
            (flush(tokens, run).push(TokenView::Operator(c)), Seq::empty())
        } else {
            (tokens, run.push(c))
        }
    }
}

/// The tokens of an expression.
pub open spec fn tokens_of(s: Seq<char>) -> Seq<TokenView> {
    flush(scan(s).0, scan(s).1)
}

/// Whether `a` and `b` hold the same characters.
fn same_chars(a: &Vec<char>, b: &Vec<char>) -> (r: bool)
    ensures
        r == (a@ == b@),
{
    if a.len() != b.len() {
        return false;
    }
    let mut i: usize = 0;
    while i < a.len()
        invariant
            a@.len() == b@.len(),
            i <= a@.len(),
            forall|j: int| 0 <= j < i ==> a@[j] == b@[j],
        decreases a@.len() - i,
    {
        if a[i] != b[i] {
            return false;
        }
        i = i + 1;
    }
    assert(a@ =~= b@);
    true
}

/// The token that the text `t` is.
fn classify_token(t: &str) -> (r: Token)
    ensures
        r@ == classify(t@),
{
    if number_text_exec(t) {
        return Token::Number(String::from_str(t));
    }
    let n = t.unicode_len();
    let v = chars_of(t, 0, n);
    assert(v@ =~= t@);
    if same_chars(&v, &vec!['h', 'o', 'u', 'r', 's', '_', 'b', 'e', 't', 'w', 'e', 'e', 'n']) || same_chars(
        &v,
        &vec!['m', 'i', 'n', 'u', 't', 'e', 's', '_', 'b', 'e', 't', 'w', 'e', 'e', 'n'],
    ) || same_chars(&v, &vec!['m', 'i', 'n', 'u', 't', 'e', 's', '_', 't', 'o', '_', 'h', 'o', 'u', 'r', 's'])
        || same_chars(&v, &vec!['m', 'u', 'l', 't', 'i', 'p', 'l', 'y']) {
        Token::Function(String::from_str(t))
    } else {
        Token::Field(String::from_str(t))
    }
}

/// Splits an expression into its tokens.
pub fn tokenize(expression: &str) -> (r: Vec<Token>)
    ensures
        tokens_view(r@) == tokens_of(expression@),
{
    let ghost s = expression@;
    let n = expression.unicode_len();
    let mut tokens: Vec<Token> = Vec::new();
    let mut start: usize = 0;
    let mut i: usize = 0;
    while i < n
        invariant
            n == s.len(),
            s == expression@,
            start <= i <= n,
            scan(s.take(i as int)) == (tokens_view(tokens@), s.subrange(start as int, i as int)),
        decreases n - i,
    {
        let c = expression.get_char(i);
        let ghost before = tokens@;
        proof {
            assert(s.take(i + 1).drop_last() =~= s.take(i as int));
            assert(s.take(i + 1).last() == c);
        }
        if c == ' ' || c == '\t' || c == '\n' || c == '+' || c == '-' || c == '*' || c == '/' || c == '('
            || c == ')' || c == ',' {
            if start < i {
                let t = classify_token(expression.substring_char(start, i));
                tokens.push(t);
                assert(tokens_view(tokens@) =~= tokens_view(before).push(t@));
            }
            let ghost flushed = tokens@;
            if !(c == ' ' || c == '\t' || c == '\n') {
                tokens.push(Token::Operator(c));
                assert(tokens_view(tokens@) =~= tokens_view(flushed).push(TokenView::Operator(c)));
            }
            start = i + 1;
            assert(s.subrange(start as int, i + 1) =~= Seq::<char>::empty());
        } else {
            assert(s.subrange(start as int, i as int).push(c) =~= s.subrange(start as int, i + 1));
        }
        i = i + 1;
    }
    assert(s.take(n as int) =~= s);
    if start < n {
        let ghost before = tokens@;
        let t = classify_token(expression.substring_char(start, n));
        tokens.push(t);
        assert(tokens_view(tokens@) =~= tokens_view(before).push(t@));
    }
    tokens
}

/// A parsed expression.
pub enum ExpressionNode {
    /// The text of a number.
    Number(String),
    Field(String),
    BinaryOp { left: Box<ExpressionNode>, operator: char, right: Box<ExpressionNode> },
    FunctionCall { name: String, args: Vec<ExpressionNode> },
}

/// Model of a parsed expression.
pub enum Expr {
    Number(Seq<char>),
    Field(Seq<char>),
    Binary(Box<Expr>, char, Box<Expr>),
    Call(Seq<char>, Seq<Expr>),
}

/// The model of a parsed expression.
pub open spec fn expr_of(n: ExpressionNode) -> Expr
    decreases n,
{
    match n {
        ExpressionNode::Number(s) => Expr::Number(s@),
        ExpressionNode::Field(s) => Expr::Field(s@),
        ExpressionNode::BinaryOp { left, operator, right } => Expr::Binary(
            Box::new(expr_of(*left)),
            operator,
            Box::new(expr_of(*right)),
        ),
        ExpressionNode::FunctionCall { name, args } => Expr::Call(name@, exprs_of(args@)),
    }
}

/// The models of a list of parsed expressions.
pub open spec fn exprs_of(s: Seq<ExpressionNode>) -> Seq<Expr>
    decreases s,
{
    if s.len() == 0 {
        Seq::empty()
    } else {
        exprs_of(s.drop_last()).push(expr_of(s.last()))
    }
}

/// Why tokens do not parse.
#[derive(Debug, Clone)]
pub enum ParseError {
    /// The tokens ended where a number, field, call or bracket was due.
    UnexpectedEnd,
    /// A function's name is not followed by `(`.
    ExpectedOpenParen,
    /// A function's arguments are not closed by `)`.
    ExpectedCloseAfterArguments,
    /// A bracketed expression is not closed by `)`.
    ExpectedClose,
    /// This token cannot start an operand.
    UnexpectedToken(Token),
}

/// Model of a parse error.
pub enum ParseErrorView {
    UnexpectedEnd,
    ExpectedOpenParen,
    ExpectedCloseAfterArguments,
    ExpectedClose,
    UnexpectedToken(TokenView),
    /// A part parsed without consuming a token; `law_parse_advances` shows
    /// that this never happens.
    Stalled,
}

impl View for ParseError {
    type V = ParseErrorView;

    open spec fn view(&self) -> ParseErrorView {
        match self {
            ParseError::UnexpectedEnd => ParseErrorView::UnexpectedEnd,
            ParseError::ExpectedOpenParen => ParseErrorView::ExpectedOpenParen,
            ParseError::ExpectedCloseAfterArguments => ParseErrorView::ExpectedCloseAfterArguments,
            ParseError::ExpectedClose => ParseErrorView::ExpectedClose,
            ParseError::UnexpectedToken(t) => ParseErrorView::UnexpectedToken(t@),
        }
    }
}

/// What parsing from a position gives: an expression and the position after
/// it, or an error.
pub type Parsed<A> = Result<(A, int), ParseErrorView>;

/// Whether token `p` is the operator `c`.
pub open spec fn is_op(t: Seq<TokenView>, p: int, c: char) -> bool {
    0 <= p < t.len() && t[p] == TokenView::Operator(c)
}

/// An expression: sums and differences of products.
pub open spec fn parse_expr(t: Seq<TokenView>, p: int) -> Parsed<Expr>
    decreases t.len() - p, 6int,
{
    parse_add(t, p)
}

/// A product, then any number of `+` or `-` and a product, grouped to the
/// left.
pub open spec fn parse_add(t: Seq<TokenView>, p: int) -> Parsed<Expr>
    decreases t.len() - p, 5int,
{
    match parse_mul(t, p) {
        Ok((l, q)) => if p < q <= t.len() { add_rest(t, l, q) } else { Err(ParseErrorView::Stalled) },
        Err(e) => Err(e),
    }
}

/// The rest of a sum after `l`, from position `q`.
pub open spec fn add_rest(t: Seq<TokenView>, l: Expr, q: int) -> Parsed<Expr>
    decreases t.len() - q, 1int,
{
    if is_op(t, q, '+') || is_op(t, q, '-') {
        let c = if is_op(t, q, '+') { '+' } else { '-' };
        match parse_mul(t, q + 1) {
            Ok((r, q2)) => if q + 1 < q2 <= t.len() {
                add_rest(t, Expr::Binary(Box::new(l), c, Box::new(r)), q2)
            } else {
                Err(ParseErrorView::Stalled)
            },
            Err(e) => Err(e),
        }
    } else {
        Ok((l, q))
    }
}

/// An operand, then any number of `*` or `/` and an operand, grouped to the
/// left.
pub open spec fn parse_mul(t: Seq<TokenView>, p: int) -> Parsed<Expr>
    decreases t.len() - p, 4int,
{
    match parse_primary(t, p) {
        Ok((l, q)) => if p < q <= t.len() { mul_rest(t, l, q) } else { Err(ParseErrorView::Stalled) },
        Err(e) => Err(e),
    }
}

/// The rest of a product after `l`, from position `q`.
pub open spec fn mul_rest(t: Seq<TokenView>, l: Expr, q: int) -> Parsed<Expr>
    decreases t.len() - q, 1int,
{
    if is_op(t, q, '*') || is_op(t, q, '/') {
        let c = if is_op(t, q, '*') { '*' } else { '/' };
        match parse_primary(t, q + 1) {
            Ok((r, q2)) => if q + 1 < q2 <= t.len() {
                mul_rest(t, Expr::Binary(Box::new(l), c, Box::new(r)), q2)
            } else {
                Err(ParseErrorView::Stalled)
            },
            Err(e) => Err(e),
        }
    } else {
        Ok((l, q))
    }
}

/// An operand: a number, a field, a call `name(args)`, or an expression in
/// brackets.
pub open spec fn parse_primary(t: Seq<TokenView>, p: int) -> Parsed<Expr>
    decreases t.len() - p, 3int,
{
    if p < 0 || p >= t.len() {
        Err(ParseErrorView::UnexpectedEnd)
    } else {
        match t[p] {
            TokenView::Number(n) => Ok((Expr::Number(n), p + 1)),
            TokenView::Field(f) => Ok((Expr::Field(f), p + 1)),
            TokenView::Function(name) => if !is_op(t, p + 1, '(') {
                Err(ParseErrorView::ExpectedOpenParen)
            } else {
                match parse_args(t, p + 2) {
                    Ok((args, q)) => if is_op(t, q, ')') {
                        Ok((Expr::Call(name, args), q + 1))
                    } else {
                        Err(ParseErrorView::ExpectedCloseAfterArguments)
                    },
                    Err(e) => Err(e),
                }
            },
            TokenView::Operator(c) => if c == '(' {
                match parse_expr(t, p + 1) {
                    Ok((e, q)) => if is_op(t, q, ')') { Ok((e, q + 1)) } else { Err(ParseErrorView::ExpectedClose) },
                    Err(e) => Err(e),
                }
            } else {
                Err(ParseErrorView::UnexpectedToken(t[p]))
            },
            _ => Err(ParseErrorView::UnexpectedToken(t[p])),
        }
    }
}

/// A function's arguments from position `q` up to its `)`: expressions,
/// each followed by an optional comma.
pub open spec fn parse_args(t: Seq<TokenView>, q: int) -> Parsed<Seq<Expr>>
    decreases t.len() - q, 7int,
{
    if 0 <= q < t.len() && !is_op(t, q, ')') {
        match parse_expr(t, q) {
            Ok((a, q2)) => if q < q2 <= t.len() {
                let q3 = if is_op(t, q2, ',') { q2 + 1 } else { q2 };
                match parse_args(t, q3) {
                    Ok((rest, q4)) => Ok((seq![a] + rest, q4)),
                    Err(e) => Err(e),
                }
            } else {
                Err(ParseErrorView::Stalled)
            },
            Err(e) => Err(e),
        }
    } else {
        Ok((Seq::empty(), q))
    }
}

/// Whether a parse from `p` either failed for a reason other than stalling,
/// or succeeded past `p` (strictly, when `strict`) and within the tokens.
pub open spec fn advances<A>(r: Parsed<A>, p: int, strict: bool, n: int) -> bool {
    match r {
        Ok((_, q)) => (if strict { p < q } else { p <= q }) && q <= n,
        Err(e) => e != ParseErrorView::Stalled,
    }
}

proof fn lemma_expr_advances(t: Seq<TokenView>, p: int)
    requires
        0 <= p <= t.len(),
    ensures
        advances(parse_expr(t, p), p, true, t.len() as int),
    decreases t.len() - p, 6int,
{
    lemma_add_advances(t, p);
}

proof fn lemma_add_advances(t: Seq<TokenView>, p: int)
    requires
        0 <= p <= t.len(),
    ensures
        advances(parse_add(t, p), p, true, t.len() as int),
    decreases t.len() - p, 5int,
{
    lemma_mul_advances(t, p);
    if let Ok((l, q)) = parse_mul(t, p) {
        lemma_add_rest_advances(t, l, q);
    }
}

proof fn lemma_add_rest_advances(t: Seq<TokenView>, l: Expr, q: int)
    requires
        0 <= q <= t.len(),
    ensures
        advances(add_rest(t, l, q), q, false, t.len() as int),
    decreases t.len() - q, 1int,
{
    if is_op(t, q, '+') || is_op(t, q, '-') {
        let c = if is_op(t, q, '+') { '+' } else { '-' };
        lemma_mul_advances(t, q + 1);
        if let Ok((r, q2)) = parse_mul(t, q + 1) {
            lemma_add_rest_advances(t, Expr::Binary(Box::new(l), c, Box::new(r)), q2);
        }
    }
}

proof fn lemma_mul_advances(t: Seq<TokenView>, p: int)
    requires
        0 <= p <= t.len(),
    ensures
        advances(parse_mul(t, p), p, true, t.len() as int),
    decreases t.len() - p, 4int,
{
    lemma_primary_advances(t, p);
    if let Ok((l, q)) = parse_primary(t, p) {
        lemma_mul_rest_advances(t, l, q);
    }
}

proof fn lemma_mul_rest_advances(t: Seq<TokenView>, l: Expr, q: int)
    requires
        0 <= q <= t.len(),
    ensures
        advances(mul_rest(t, l, q), q, false, t.len() as int),
    decreases t.len() - q, 1int,
{
    if is_op(t, q, '*') || is_op(t, q, '/') {
        let c = if is_op(t, q, '*') { '*' } else { '/' };
        lemma_primary_advances(t, q + 1);
        if let Ok((r, q2)) = parse_primary(t, q + 1) {
            lemma_mul_rest_advances(t, Expr::Binary(Box::new(l), c, Box::new(r)), q2);
        }
    }
}

proof fn lemma_primary_advances(t: Seq<TokenView>, p: int)
    requires
        0 <= p <= t.len(),
    ensures
        advances(parse_primary(t, p), p, true, t.len() as int),
    decreases t.len() - p, 3int,
{
    if p < t.len() {
        match t[p] {
            TokenView::Function(name) => {
                if is_op(t, p + 1, '(') {
                    lemma_args_advances(t, p + 2);
                }
            },
            TokenView::Operator(c) => {
                if c == '(' {
                    lemma_expr_advances(t, p + 1);
                }
            },
            _ => {},
        }
    }
}

proof fn lemma_args_advances(t: Seq<TokenView>, q: int)
    requires
        0 <= q <= t.len(),
    ensures
        advances(parse_args(t, q), q, false, t.len() as int),
    decreases t.len() - q, 7int,
{
    if 0 <= q < t.len() && !is_op(t, q, ')') {
        lemma_expr_advances(t, q);
        if let Ok((a, q2)) = parse_expr(t, q) {
            let q3 = if is_op(t, q2, ',') { q2 + 1 } else { q2 };
            lemma_args_advances(t, q3);
        }
    }
}

/// Every part that parses consumes at least one token and ends within the
/// tokens, so the parser never stalls: from any position within the
/// tokens, an expression either parses past that position or fails for a
/// reason other than stalling.
pub proof fn law_parse_advances(t: Seq<TokenView>, p: int)
    requires
        0 <= p <= t.len(),
    ensures
        advances(parse_expr(t, p), p, true, t.len() as int),
        advances(parse_primary(t, p), p, true, t.len() as int),
        advances(parse_args(t, p), p, false, t.len() as int),
{
    lemma_expr_advances(t, p);
    lemma_primary_advances(t, p);
    lemma_args_advances(t, p);
}

/// Whether a token is a number or a field.
pub open spec fn is_operand(tok: TokenView) -> bool {
    tok is Number || tok is Field
}

/// The expression a number or field token stands for.
pub open spec fn operand_expr(tok: TokenView) -> Expr {
    match tok {
        TokenView::Number(n) => Expr::Number(n),
        TokenView::Field(f) => Expr::Field(f),
        _ => Expr::Number(Seq::empty()),
    }
}

/// Whether a token is `*` or `/`.
pub open spec fn is_mul_op(tok: TokenView) -> bool {
    tok == TokenView::Operator('*') || tok == TokenView::Operator('/')
}

/// The character of an operator token.
pub open spec fn op_of(tok: TokenView) -> char {
    match tok {
        TokenView::Operator(c) => c,
        _ => ' ',
    }
}

/// Whether the tokens from `p` on begin with `n` numbers or fields joined
/// by `*` or `/`: operands at `p, p + 2, ...`, operators between them.
pub open spec fn product_chain(t: Seq<TokenView>, p: int, n: nat) -> bool
    decreases n,
{
    if n == 0 {
        false
    } else if n == 1 {
        0 <= p < t.len() && is_operand(t[p])
    } else {
        &&& product_chain(t, p, (n - 1) as nat)
        &&& p + 2 * n - 2 < t.len()
        &&& is_mul_op(t[p + 2 * n - 3])
        &&& is_operand(t[p + 2 * n - 2])
    }
}

/// The first `n` operands of a product chain grouped to the left:
/// `((x1 op x2) op x3) ...`.
pub open spec fn left_product(t: Seq<TokenView>, p: int, n: nat) -> Expr
    decreases n,
{
    if n <= 1 {
        operand_expr(t[p])
    } else {
        Expr::Binary(
            Box::new(left_product(t, p, (n - 1) as nat)),
            op_of(t[p + 2 * n - 3]),
            Box::new(operand_expr(t[p + 2 * n - 2])),
        )
    }
}

/// A chain's first `k` operands form a chain too.
proof fn lemma_chain_prefix(t: Seq<TokenView>, p: int, n: nat, k: nat)
    requires
        product_chain(t, p, n),
        1 <= k <= n,
    ensures
        product_chain(t, p, k),
    decreases n,
{
    if k < n {
        lemma_chain_prefix(t, p, (n - 1) as nat, k);
    }
}

/// After the first `k` operands of a chain, the rest of the product folds
/// in every further operand, to the left, and ends after the last one.
proof fn lemma_mul_rest_chain(t: Seq<TokenView>, p: int, n: nat, k: nat)
    requires
        product_chain(t, p, n),
        1 <= k <= n,
        !(p + 2 * n - 1 < t.len() && is_mul_op(t[p + 2 * n - 1])),
    ensures
        mul_rest(t, left_product(t, p, k), p + 2 * k - 1) == Ok::<(Expr, int), ParseErrorView>(
            (left_product(t, p, n), p + 2 * n - 1),
        ),
    decreases n - k,
{
    let q = p + 2 * k - 1;
    if k < n {
        lemma_chain_prefix(t, p, n, k + 1);
        lemma_chain_len(t, p, n);
        let k1 = (k + 1) as nat;
        assert(product_chain(t, p, k1));
        assert(k1 >= 2);
        assert(p + 2 * k1 - 3 == q);
        assert(p + 2 * k1 - 2 == q + 1);
        assert(q + 1 < t.len());
        assert(is_mul_op(t[q]));
        assert(is_operand(t[q + 1]));
        let c = if is_op(t, q, '*') { '*' } else { '/' };
        assert(c == op_of(t[q]));
        assert(parse_primary(t, q + 1) == Ok::<(Expr, int), ParseErrorView>((operand_expr(t[q + 1]), q + 2)));
        assert(left_product(t, p, k + 1) == Expr::Binary(Box::new(left_product(t, p, k)), c, Box::new(operand_expr(t[q + 1]))));
        lemma_mul_rest_chain(t, p, n, k + 1);
    } else {
        assert(!is_op(t, q, '*') && !is_op(t, q, '/'));
    }
}

/// A product of numbers and fields joined by `*` and `/` parses to the
/// product of all its operands grouped to the left, and the parse ends
/// right after the last operand: `x1 op x2 op ... xn` gives
/// `((x1 op x2) op ...) op xn`. When the tokens hold nothing else, the whole
/// expression parses so.
pub proof fn law_product_groups_left(t: Seq<TokenView>, p: int, n: nat)
    requires
        product_chain(t, p, n),
        !(p + 2 * n - 1 < t.len() && is_mul_op(t[p + 2 * n - 1])),
    ensures
        parse_mul(t, p) == Ok::<(Expr, int), ParseErrorView>((left_product(t, p, n), p + 2 * n - 1)),
        p + 2 * n - 1 == t.len() ==> parse_expr(t, p) == Ok::<(Expr, int), ParseErrorView>(
            (left_product(t, p, n), p + 2 * n - 1),
        ),
{
    lemma_chain_prefix(t, p, n, 1);
    assert(parse_primary(t, p) == Ok::<(Expr, int), ParseErrorView>((operand_expr(t[p]), p + 1)));
    lemma_mul_rest_chain(t, p, n, 1);
    lemma_chain_len(t, p, n);
}

/// A chain of `n` operands lies within the tokens.
proof fn lemma_chain_len(t: Seq<TokenView>, p: int, n: nat)
    requires
        product_chain(t, p, n),
    ensures
        0 <= p,
        p + 2 * n - 1 <= t.len(),
    decreases n,
{
    if n > 1 {
        lemma_chain_len(t, p, (n - 1) as nat);
    }
}

/// Whether a token is `+` or `-`.
pub open spec fn is_add_op(tok: TokenView) -> bool {
    tok == TokenView::Operator('+') || tok == TokenView::Operator('-')
}

/// The position of the last token of a sum whose products have `ns`
/// operands each, starting at `p`.
pub open spec fn chain_end(p: int, ns: Seq<nat>) -> int
    decreases ns.len(),
{
    if ns.len() == 0 {
        p - 1
    } else {
        chain_end(p, ns.drop_last()) + 2 * ns.last()
    }
}

/// Whether the tokens from `p` on begin with products of `ns[0]`,
/// `ns[1]`, ... operands joined by `+` or `-`, each product followed by
/// neither `*` nor `/`.
pub open spec fn sum_chain(t: Seq<TokenView>, p: int, ns: Seq<nat>) -> bool
    decreases ns.len(),
{
    if ns.len() == 0 {
        false
    } else {
        let e = chain_end(p, ns.drop_last());
        let n = ns.last();
        &&& (ns.len() == 1 || (sum_chain(t, p, ns.drop_last()) && 0 <= e < t.len() && is_add_op(t[e])))
        &&& product_chain(t, e + 1, n)
        &&& !(e + 2 * n < t.len() && is_mul_op(t[e + 2 * n]))
    }
}

/// The products of a sum chain grouped to the left, each product grouped
/// to the left within: `(p1 op p2) op p3 ...`.
pub open spec fn left_sum(t: Seq<TokenView>, p: int, ns: Seq<nat>) -> Expr
    decreases ns.len(),
{
    if ns.len() <= 1 {
        left_product(t, p, ns[0])
    } else {
        let e = chain_end(p, ns.drop_last());
        Expr::Binary(Box::new(left_sum(t, p, ns.drop_last())), op_of(t[e]), Box::new(left_product(t, e + 1, ns.last())))
    }
}

/// The first `k` products of a sum chain form a sum chain too.
proof fn lemma_sum_prefix(t: Seq<TokenView>, p: int, ns: Seq<nat>, k: int)
    requires
        sum_chain(t, p, ns),
        1 <= k <= ns.len(),
    ensures
        sum_chain(t, p, ns.take(k)),
    decreases ns.len(),
{
    if k == ns.len() {
        assert(ns.take(k) =~= ns);
    } else {
        assert(ns.take(k) =~= ns.drop_last().take(k));
        lemma_sum_prefix(t, p, ns.drop_last(), k);
    }
}

/// After the first `k` products of a sum chain, the rest of the sum folds
/// in every further product, to the left, and ends after the last one.
proof fn lemma_add_rest_chain(t: Seq<TokenView>, p: int, ns: Seq<nat>, k: int)
    requires
        sum_chain(t, p, ns),
        1 <= k <= ns.len(),
        !(0 <= chain_end(p, ns) < t.len() && is_add_op(t[chain_end(p, ns)])),
    ensures
        add_rest(t, left_sum(t, p, ns.take(k)), chain_end(p, ns.take(k))) == Ok::<(Expr, int), ParseErrorView>(
            (left_sum(t, p, ns), chain_end(p, ns)),
        ),
    decreases ns.len() - k,
{
    let q = chain_end(p, ns.take(k));
    if k < ns.len() {
        lemma_sum_prefix(t, p, ns, k + 1);
        let t1 = ns.take(k + 1);
        assert(t1.drop_last() =~= ns.take(k));
        assert(t1.last() == ns[k]);
        assert(t1.len() >= 2);
        let n = ns[k];
        assert(0 <= q < t.len() && is_add_op(t[q]));
        assert(product_chain(t, q + 1, n));
        law_product_groups_left(t, q + 1, n);
        lemma_chain_len(t, q + 1, n);
        assert(n >= 1);
        let c = if is_op(t, q, '+') { '+' } else { '-' };
        assert(c == op_of(t[q]));
        assert(chain_end(p, t1) == q + 2 * n);
        assert(left_sum(t, p, t1) == Expr::Binary(Box::new(left_sum(t, p, ns.take(k))), c, Box::new(left_product(t, q + 1, n))));
        lemma_add_rest_chain(t, p, ns, k + 1);
    } else {
        assert(ns.take(k) =~= ns);
        assert(!is_op(t, q, '+') && !is_op(t, q, '-'));
    }
}

/// A sum of products of numbers and fields parses with `*` and `/` binding
/// tighter than `+` and `-`, both grouped to the left: the products
/// `p1, p2, ...` joined by `+`/`-` give `((p1 op p2) op p3) ...`, each
/// product grouped as [`law_product_groups_left`] says, and the parse ends
/// right after the last operand. When the tokens hold nothing else, the
/// whole expression parses so.
pub proof fn law_sum_of_products_parses(t: Seq<TokenView>, p: int, ns: Seq<nat>)
    requires
        sum_chain(t, p, ns),
        !(0 <= chain_end(p, ns) < t.len() && is_add_op(t[chain_end(p, ns)])),
    ensures
        parse_add(t, p) == Ok::<(Expr, int), ParseErrorView>((left_sum(t, p, ns), chain_end(p, ns))),
        parse_expr(t, p) == Ok::<(Expr, int), ParseErrorView>((left_sum(t, p, ns), chain_end(p, ns))),
{
    lemma_sum_prefix(t, p, ns, 1);
    let t1 = ns.take(1);
    assert(t1.drop_last() =~= Seq::<nat>::empty());
    assert(t1.last() == ns[0]);
    assert(chain_end(p, t1.drop_last()) == p - 1);
    let n = ns[0];
    assert(product_chain(t, p, n));
    law_product_groups_left(t, p, n);
    lemma_chain_len(t, p, n);
    assert(chain_end(p, t1) == p + 2 * n - 1);
    assert(left_sum(t, p, t1) == left_product(t, p, n));
    lemma_add_rest_chain(t, p, ns, 1);
}

/// The models of a list are the models of its items.
proof fn lemma_exprs_of(s: Seq<ExpressionNode>)
    ensures
        exprs_of(s).len() == s.len(),
        forall|i: int| 0 <= i < s.len() ==> #[trigger] exprs_of(s)[i] == expr_of(s[i]),
    decreases s.len(),
{
    if s.len() > 0 {
        lemma_exprs_of(s.drop_last());
    }
}

/// A copy of a token.
fn copy_token(t: &Token) -> (r: Token)
    ensures
        r@ == t@,
{
    match t {
        Token::Number(s) => Token::Number(s.clone()),
        Token::Field(s) => Token::Field(s.clone()),
        Token::Operator(c) => Token::Operator(*c),
        Token::Function(s) => Token::Function(s.clone()),
        Token::LeftParen => Token::LeftParen,
        Token::RightParen => Token::RightParen,
    }
}

/// Whether token `p` is the operator `c`.
fn is_op_at(t: &Vec<Token>, p: usize, c: char) -> (b: bool)
    ensures
        b == is_op(tokens_view(t@), p as int, c),
{
    if p < t.len() {
        match &t[p] {
            Token::Operator(d) => *d == c,
            _ => false,
        }
    } else {
        false
    }
}

/// Parses an expression from position `p`.
fn expression_at(t: &Vec<Token>, p: usize) -> (r: Result<(ExpressionNode, usize), ParseError>)
    requires
        p <= t@.len(),
    ensures
        match r {
            Ok((n, q)) => q <= t@.len() && parse_expr(tokens_view(t@), p as int) == Ok::<(Expr, int), ParseErrorView>((expr_of(n), q as int)),
            Err(e) => parse_expr(tokens_view(t@), p as int) == Err::<(Expr, int), ParseErrorView>(e@),
        },
    decreases t@.len() - p, 6int,
{
    addition_at(t, p)
}

/// Parses a sum from position `p`.
fn addition_at(t: &Vec<Token>, p: usize) -> (r: Result<(ExpressionNode, usize), ParseError>)
    requires
        p <= t@.len(),
    ensures
        match r {
            Ok((n, q)) => q <= t@.len() && parse_add(tokens_view(t@), p as int) == Ok::<(Expr, int), ParseErrorView>((expr_of(n), q as int)),
            Err(e) => parse_add(tokens_view(t@), p as int) == Err::<(Expr, int), ParseErrorView>(e@),
        },
    decreases t@.len() - p, 5int,
{
    match multiplication_at(t, p) {
        Ok((l, q)) => {
            proof {
                lemma_mul_advances(tokens_view(t@), p as int);
            }
            addition_rest(t, l, q)
        },
        Err(e) => Err(e),
    }
}

/// Parses the rest of a sum after `l` from position `q`.
fn addition_rest(t: &Vec<Token>, l: ExpressionNode, q: usize) -> (r: Result<(ExpressionNode, usize), ParseError>)
    requires
        q <= t@.len(),
    ensures
        match r {
            Ok((n, q2)) => q2 <= t@.len() && add_rest(tokens_view(t@), expr_of(l), q as int) == Ok::<(Expr, int), ParseErrorView>((expr_of(n), q2 as int)),
            Err(e) => add_rest(tokens_view(t@), expr_of(l), q as int) == Err::<(Expr, int), ParseErrorView>(e@),
        },
    decreases t@.len() - q, 1int,
{
    let plus = is_op_at(t, q, '+');
    if plus || is_op_at(t, q, '-') {
        let c = if plus { '+' } else { '-' };
        let n = t.len();
        assert(tokens_view(t@).len() == t@.len());
        assert(q < n);
        match multiplication_at(t, q + 1) {
            Ok((right, q2)) => {
                proof {
                    lemma_mul_advances(tokens_view(t@), q + 1);
                }
                let node = ExpressionNode::BinaryOp { left: Box::new(l), operator: c, right: Box::new(right) };
                addition_rest(t, node, q2)
            },
            Err(e) => Err(e),
        }
    } else {
        Ok((l, q))
    }
}

/// Parses a product from position `p`.
fn multiplication_at(t: &Vec<Token>, p: usize) -> (r: Result<(ExpressionNode, usize), ParseError>)
    requires
        p <= t@.len(),
    ensures
        match r {
            Ok((n, q)) => q <= t@.len() && parse_mul(tokens_view(t@), p as int) == Ok::<(Expr, int), ParseErrorView>((expr_of(n), q as int)),
            Err(e) => parse_mul(tokens_view(t@), p as int) == Err::<(Expr, int), ParseErrorView>(e@),
        },
    decreases t@.len() - p, 4int,
{
    match primary_at(t, p) {
        Ok((l, q)) => {
            proof {
                lemma_primary_advances(tokens_view(t@), p as int);
            }
            multiplication_rest(t, l, q)
        },
        Err(e) => Err(e),
    }
}

/// Parses the rest of a product after `l` from position `q`.
fn multiplication_rest(t: &Vec<Token>, l: ExpressionNode, q: usize) -> (r: Result<(ExpressionNode, usize), ParseError>)
    requires
        q <= t@.len(),
    ensures
        match r {
            Ok((n, q2)) => q2 <= t@.len() && mul_rest(tokens_view(t@), expr_of(l), q as int) == Ok::<(Expr, int), ParseErrorView>((expr_of(n), q2 as int)),
            Err(e) => mul_rest(tokens_view(t@), expr_of(l), q as int) == Err::<(Expr, int), ParseErrorView>(e@),
        },
    decreases t@.len() - q, 1int,
{
    let times = is_op_at(t, q, '*');
    if times || is_op_at(t, q, '/') {
        let c = if times { '*' } else { '/' };
        let n = t.len();
        assert(tokens_view(t@).len() == t@.len());
        assert(q < n);
        match primary_at(t, q + 1) {
            Ok((right, q2)) => {
                proof {
                    lemma_primary_advances(tokens_view(t@), q + 1);
                }
                let node = ExpressionNode::BinaryOp { left: Box::new(l), operator: c, right: Box::new(right) };
                multiplication_rest(t, node, q2)
            },
            Err(e) => Err(e),
        }
    } else {
        Ok((l, q))
    }
}

/// Parses an operand from position `p`.
fn primary_at(t: &Vec<Token>, p: usize) -> (r: Result<(ExpressionNode, usize), ParseError>)
    requires
        p <= t@.len(),
    ensures
        match r {
            Ok((n, q)) => q <= t@.len() && parse_primary(tokens_view(t@), p as int) == Ok::<(Expr, int), ParseErrorView>((expr_of(n), q as int)),
            Err(e) => parse_primary(tokens_view(t@), p as int) == Err::<(Expr, int), ParseErrorView>(e@),
        },
    decreases t@.len() - p, 3int,
{
    if p >= t.len() {
        return Err(ParseError::UnexpectedEnd);
    }
    let ghost tv = tokens_view(t@);
    assert(tv[p as int] == t@[p as int]@);
    match &t[p] {
        Token::Number(n) => Ok((ExpressionNode::Number(n.clone()), p + 1)),
        Token::Field(f) => Ok((ExpressionNode::Field(f.clone()), p + 1)),
        Token::Function(name) => {
            if !is_op_at(t, p + 1, '(') {
                return Err(ParseError::ExpectedOpenParen);
            }
            match arguments_at(t, p + 2) {
                Ok((args, q)) => {
                    if is_op_at(t, q, ')') {
                        Ok((ExpressionNode::FunctionCall { name: name.clone(), args }, q + 1))
                    } else {
                        Err(ParseError::ExpectedCloseAfterArguments)
                    }
                },
                Err(e) => Err(e),
            }
        },
        Token::Operator(c) => {
            if *c == '(' {
                match expression_at(t, p + 1) {
                    Ok((e, q)) => {
                        if is_op_at(t, q, ')') {
                            Ok((e, q + 1))
                        } else {
                            Err(ParseError::ExpectedClose)
                        }
                    },
                    Err(e) => Err(e),
                }
            } else {
                Err(ParseError::UnexpectedToken(copy_token(&t[p])))
            }
        },
        _ => Err(ParseError::UnexpectedToken(copy_token(&t[p]))),
    }
}

/// Parses a function's arguments from position `q` up to its `)`.
fn arguments_at(t: &Vec<Token>, q: usize) -> (r: Result<(Vec<ExpressionNode>, usize), ParseError>)
    requires
        q <= t@.len(),
    ensures
        match r {
            Ok((args, q2)) => q2 <= t@.len() && parse_args(tokens_view(t@), q as int) == Ok::<(Seq<Expr>, int), ParseErrorView>((exprs_of(args@), q2 as int)),
            Err(e) => parse_args(tokens_view(t@), q as int) == Err::<(Seq<Expr>, int), ParseErrorView>(e@),
        },
    decreases t@.len() - q, 7int,
{
    if q < t.len() && !is_op_at(t, q, ')') {
        match expression_at(t, q) {
            Ok((a, q2)) => {
                proof {
                    lemma_expr_advances(tokens_view(t@), q as int);
                }
                let q3 = if is_op_at(t, q2, ',') { q2 + 1 } else { q2 };
                match arguments_at(t, q3) {
                    Ok((rest, q4)) => {
                        let ghost ea = expr_of(a);
                        let ghost before = rest@;
                        let mut all = rest;
                        all.insert(0, a);
                        proof {
                            lemma_exprs_of(before);
                            lemma_exprs_of(all@);
                            assert(exprs_of(all@) =~= seq![ea] + exprs_of(before));
                        }
                        Ok((all, q4))
                    },
                    Err(e) => Err(e),
                }
            },
            Err(e) => Err(e),
        }
    } else {
        let v: Vec<ExpressionNode> = Vec::new();
        assert(exprs_of(v@) =~= Seq::<Expr>::empty());
        Ok((v, q))
    }
}

/// Parses the expression that `expression` holds. What follows a complete
/// expression is not looked at.
pub fn compile_expression(expression: &str) -> (r: Result<ExpressionNode, ParseError>)
    ensures
        match r {
            Ok(n) => parse_expr(tokens_of(expression@), 0) matches Ok((e, _)) && e == expr_of(n),
            Err(err) => parse_expr(tokens_of(expression@), 0) == Err::<(Expr, int), ParseErrorView>(err@),
        },
{
    let tokens = tokenize(expression);
    match expression_at(&tokens, 0) {
        Ok((n, _)) => Ok(n),
        Err(e) => Err(e),
    }
}

} // verus!
