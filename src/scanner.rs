use vstd::prelude::*;
use vstd::std_specs::iter::IteratorSpec;

verus! {

/// The categories of tokens.
#[derive(Clone, Copy, Debug, PartialEq, Eq, Structural)]
pub enum TokenType {
    LeftParen,
    RightParen,
    LeftBrace,
    RightBrace,
    Comma,
    Dot,
    Minus,
    Plus,
    Semicolon,
    Slash,
    Star,
    Bang,
    BangEqual,
    Equal,
    EqualEqual,
    Greater,
    GreaterEqual,
    Less,
    LessEqual,
    Identifier,
    String,
    Number,
    And,
    Class,
    Else,
    False,
    Fun,
    For,
    If,
    Nil,
    Or,
    Print,
    Return,
    Super,
    This,
    True,
    Var,
    While,
    Eof,
}

/// A runtime value of the language. A number is held as the bit pattern of
/// an IEEE-754 binary64 value (`f64::to_bits`).
#[derive(Clone, Debug, PartialEq)]
pub enum Literal {
    Number(u64),
    Text(String),
    Nil,
    Boolean(bool),
}

/// The mathematical model of a `Literal`.
pub enum Value {
    Number(u64),
    Text(Seq<char>),
    Nil,
    Boolean(bool),
}

impl View for Literal {
    type V = Value;

    open spec fn view(&self) -> Value {
        match self {
            Literal::Number(n) => Value::Number(*n),
            Literal::Text(s) => Value::Text(s@),
            Literal::Nil => Value::Nil,
            Literal::Boolean(b) => Value::Boolean(*b),
        }
    }
}

impl Literal {
    /// A copy of this literal.
    pub fn duplicate(&self) -> (r: Literal)
        ensures
            r == *self,
    {
        match self {
            Literal::Number(n) => Literal::Number(*n),
            Literal::Text(s) => Literal::Text(s.clone()),
            Literal::Nil => Literal::Nil,
            Literal::Boolean(b) => Literal::Boolean(*b),
        }
    }
}

/// The closure `show` gives texts with one view for each number.
pub open spec fn shows_function<S: Fn(u64) -> String>(show: S) -> bool {
    forall|n: u64, s1: String, s2: String|
        call_ensures(show, (n,), s1) && call_ensures(show, (n,), s2) ==> s1@ == s2@
}

/// The text that `show` gives for the number `n`.
pub open spec fn shown<S: Fn(u64) -> String>(show: S, n: u64) -> Seq<char> {
    (choose|s: String| call_ensures(show, (n,), s))@
}

/// The display text of a value: numbers as `show` writes them, texts as they
/// are, `true`, `false` and `nil`.
pub open spec fn value_text<S: Fn(u64) -> String>(v: Value, show: S) -> Seq<char> {
    match v {
        Value::Number(n) => shown(show, n),
        Value::Text(s) => s,
        Value::Nil => seq!['n', 'i', 'l'],
        Value::Boolean(b) => if b {
            seq!['t', 'r', 'u', 'e']
        } else {
            seq!['f', 'a', 'l', 's', 'e']
        },
    }
}

/// Calls `show` on `n`.
pub fn show_number<S: Fn(u64) -> String>(show: &S, n: u64) -> (r: String)
    requires
        forall|m: u64| call_requires(*show, (m,)),
    ensures
        shows_function(*show) ==> r@ == shown(*show, n),
{
    let r = show(n);
    proof {
        if shows_function(*show) {
            assert(call_ensures(*show, (n,), r));
            let c = choose|s: String| call_ensures(*show, (n,), s);
            assert(call_ensures(*show, (n,), c));
        }
    }
    r
}

impl Literal {
    /// The display text of the literal; `show` writes numbers.
    pub fn to_custom_string<S: Fn(u64) -> String>(&self, show: &S) -> (r: String)
        requires
            forall|n: u64| call_requires(*show, (n,)),
        ensures
            shows_function(*show) ==> r@ == value_text(self@, *show),
    {
        proof {
            reveal_strlit("true");
            reveal_strlit("false");
            reveal_strlit("nil");
        }
        match self {
            Literal::Boolean(b) => if *b {
                String::from_str("true")
            } else {
                String::from_str("false")
            },
            Literal::Nil => String::from_str("nil"),
            Literal::Number(n) => show_number(show, *n),
            Literal::Text(s) => s.clone(),
        }
    }
}

/// A token: its category, the exact text it was scanned from, the value it
/// carries (numbers and strings; `Nil` for the others) and its line.
#[derive(Clone, Debug, PartialEq)]
pub struct Token {
    pub token_type: TokenType,
    pub lexeme: String,
    pub literal: Literal,
    pub line: usize,
}

impl Token {
    pub fn new(token_type: TokenType, lexeme: String, literal: Literal, line: usize) -> (r: Self)
        ensures
            r.token_type == token_type,
            r.lexeme == lexeme,
            r.literal == literal,
            r.line == line,
    {
        Token { token_type, lexeme, literal, line }
    }

    /// A copy of this token.
    pub fn duplicate(&self) -> (r: Token)
        ensures
            r == *self,
    {
        Token {
            token_type: self.token_type,
            lexeme: self.lexeme.clone(),
            literal: self.literal.duplicate(),
            line: self.line,
        }
    }

    /// The exact source text of the token.
    pub fn lexeme(&self) -> (r: &str)
        ensures
            r@ == self.lexeme@,
    {
        self.lexeme.as_str()
    }

    pub fn is_eof(&self) -> (r: bool)
        ensures
            r == (self.token_type == TokenType::Eof),
    {
        self.token_type == TokenType::Eof
    }

    pub fn type_equals_to(&self, token_type: &TokenType) -> (r: bool)
        ensures
            r == (self.token_type == *token_type),
    {
        self.token_type == *token_type
    }

    pub fn get_literal(&self) -> (r: &Literal)
        ensures
            *r == self.literal,
    {
        &self.literal
    }

    pub fn get_token_type(&self) -> (r: &TokenType)
        ensures
            *r == self.token_type,
    {
        &self.token_type
    }
}

pub open spec fn spec_is_alpha(c: char) -> bool {
    ('a' <= c && c <= 'z') || ('A' <= c && c <= 'Z') || c == '_'
}

pub open spec fn spec_is_digit(c: char) -> bool {
    '0' <= c && c <= '9'
}

/// An ASCII letter or an underscore: a character that may begin an identifier.
pub fn is_alpha(c: char) -> (r: bool)
    ensures
        r == spec_is_alpha(c),
{
    ('a' <= c && c <= 'z') || ('A' <= c && c <= 'Z') || c == '_'
}

/// An ASCII decimal digit.
pub fn is_digit(c: char) -> (r: bool)
    ensures
        r == spec_is_digit(c),
{
    '0' <= c && c <= '9'
}

/// A character that may continue an identifier.
pub fn is_alpha_numeric(c: char) -> (r: bool)
    ensures
        r == (spec_is_alpha(c) || spec_is_digit(c)),
{
    is_alpha(c) || is_digit(c)
}

/// The reserved words and their token types.
pub open spec fn keyword_table() -> Seq<(Seq<char>, TokenType)> {
    seq![
        (seq!['a', 'n', 'd'], TokenType::And),
        (seq!['c', 'l', 'a', 's', 's'], TokenType::Class),
        (seq!['e', 'l', 's', 'e'], TokenType::Else),
        (seq!['f', 'a', 'l', 's', 'e'], TokenType::False),
        (seq!['f', 'o', 'r'], TokenType::For),
        (seq!['f', 'u', 'n'], TokenType::Fun),
        (seq!['i', 'f'], TokenType::If),
        (seq!['n', 'i', 'l'], TokenType::Nil),
        (seq!['o', 'r'], TokenType::Or),
        (seq!['p', 'r', 'i', 'n', 't'], TokenType::Print),
        (seq!['r', 'e', 't', 'u', 'r', 'n'], TokenType::Return),
        (seq!['s', 'u', 'p', 'e', 'r'], TokenType::Super),
        (seq!['t', 'h', 'i', 's'], TokenType::This),
        (seq!['t', 'r', 'u', 'e'], TokenType::True),
        (seq!['v', 'a', 'r'], TokenType::Var),
        (seq!['w', 'h', 'i', 'l', 'e'], TokenType::While),
    ]
}

/// The token type of an identifier-shaped word: its keyword's type, or
/// `Identifier` when it is no keyword.
pub open spec fn word_type(w: Seq<char>) -> TokenType
    decreases 0nat,
{
    word_type_from(w, 0)
}

pub open spec fn word_type_from(w: Seq<char>, i: int) -> TokenType
    decreases keyword_table().len() - i,
{
    if i < 0 || i >= keyword_table().len() {
        TokenType::Identifier
    } else if keyword_table()[i].0 == w {
        keyword_table()[i].1
    } else {
        word_type_from(w, i + 1)
    }
}

/// The keyword table, in the order of `keyword_table`.
pub fn get_key_words() -> (r: Vec<(String, TokenType)>)
    ensures
        r@.len() == keyword_table().len(),
        forall|i: int|
            0 <= i < r@.len() ==> (#[trigger] r@[i]).0@ == keyword_table()[i].0 && r@[i].1
                == keyword_table()[i].1,
{
    let mut r: Vec<(String, TokenType)> = Vec::new();
    r.push((String::from_str("and"), TokenType::And));
    r.push((String::from_str("class"), TokenType::Class));
    r.push((String::from_str("else"), TokenType::Else));
    r.push((String::from_str("false"), TokenType::False));
    r.push((String::from_str("for"), TokenType::For));
    r.push((String::from_str("fun"), TokenType::Fun));
    r.push((String::from_str("if"), TokenType::If));
    r.push((String::from_str("nil"), TokenType::Nil));
    r.push((String::from_str("or"), TokenType::Or));
    r.push((String::from_str("print"), TokenType::Print));
    r.push((String::from_str("return"), TokenType::Return));
    r.push((String::from_str("super"), TokenType::Super));
    r.push((String::from_str("this"), TokenType::This));
    r.push((String::from_str("true"), TokenType::True));
    r.push((String::from_str("var"), TokenType::Var));
    r.push((String::from_str("while"), TokenType::While));
    proof {
        reveal_strlit("and");
        reveal_strlit("class");
        reveal_strlit("else");
        reveal_strlit("false");
        reveal_strlit("for");
        reveal_strlit("fun");
        reveal_strlit("if");
        reveal_strlit("nil");
        reveal_strlit("or");
        reveal_strlit("print");
        reveal_strlit("return");
        reveal_strlit("super");
        reveal_strlit("this");
        reveal_strlit("true");
        reveal_strlit("var");
        reveal_strlit("while");
        assert forall|i: int| 0 <= i < r@.len() implies (#[trigger] r@[i]).0@
            == keyword_table()[i].0 && r@[i].1 == keyword_table()[i].1 by {
            assert(r@[i].0@ =~= keyword_table()[i].0);
        }
    }
    r
}

/// Looks a word up in the keyword table.
pub fn keyword_type(keywords: &Vec<(String, TokenType)>, word: &String) -> (r: TokenType)
    requires
        keywords@.len() == keyword_table().len(),
        forall|i: int|
            0 <= i < keywords@.len() ==> (#[trigger] keywords@[i]).0@ == keyword_table()[i].0
                && keywords@[i].1 == keyword_table()[i].1,
    ensures
        r == word_type(word@),
{
    let mut i: usize = 0;
    while i < keywords.len()
        invariant
            0 <= i <= keywords@.len(),
            keywords@.len() == keyword_table().len(),
            forall|j: int|
                0 <= j < keywords@.len() ==> (#[trigger] keywords@[j]).0@ == keyword_table()[j].0
                    && keywords@[j].1 == keyword_table()[j].1,
            word_type(word@) == word_type_from(word@, i as int),
        decreases keywords@.len() - i,
    {
        if keywords[i].0 == *word {
            return keywords[i].1;
        }
        i = i + 1;
    }
    TokenType::Identifier
}

/// Relies on `String::push`: it appends one character.
#[verifier::external_body]
fn push_char(s: &mut String, c: char)
    ensures
        final(s)@ == old(s)@.push(c),
{
    s.push(c)
}

/// The characters of `s`, in order.
pub fn chars_of(s: &str) -> (r: Vec<char>)
    ensures
        r@ == s@,
{
    broadcast use vstd::string::group_string_axioms;
    let mut it = s.chars();
    let mut r: Vec<char> = Vec::new();
    loop
        invariant
            it.obeys_prophetic_iter_laws(),
            r@ + it.remaining() == s@,
        ensures
            r@ == s@,
        decreases s@.len() - r@.len(),
    {
        match it.next() {
            Some(c) => {
                proof {
                    assert(r@.push(c) + it.remaining() =~= s@);
                }
                r.push(c);
            },
            None => {
                assert(r@ =~= s@);
                break;
            },
        }
    }
    r
}

/// The text of `chars[from..to]`.
pub fn text_of(chars: &Vec<char>, from: usize, to: usize) -> (r: String)
    requires
        from <= to <= chars@.len(),
    ensures
        r@ == chars@.subrange(from as int, to as int),
{
    let mut r = String::new();
    let mut i: usize = from;
    while i < to
        invariant
            from <= i <= to <= chars@.len(),
            r@ == chars@.subrange(from as int, i as int),
        decreases to - i,
    {
        push_char(&mut r, chars[i]);
        assert(r@ =~= chars@.subrange(from as int, i + 1));
        i = i + 1;
    }
    r
}

/// A fatal scanning error, with the line where it was found.
#[derive(Clone, Copy, Debug, PartialEq, Eq, Structural)]
pub enum ScanError {
    UnrecognizedCharacter { line: usize },
    UnterminatedString { line: usize },
}

/// The runs of characters that the scanner consumes in one sweep.
#[derive(Clone, Copy, PartialEq, Eq, Structural)]
pub enum Run {
    Digits,
    Word,
    Comment,
    StringBody,
}

pub open spec fn in_run(c: char, k: Run) -> bool {
    match k {
        Run::Digits => spec_is_digit(c),
        Run::Word => spec_is_alpha(c) || spec_is_digit(c),
        Run::Comment => c != '\n',
        Run::StringBody => c != '"',
    }
}

/// The first position at or after `i` that ends a run of kind `k`.
pub open spec fn run_end(src: Seq<char>, i: int, k: Run) -> int
    decreases src.len() - i,
{
    if i >= src.len() {
        src.len() as int
    } else if in_run(src[i], k) {
        run_end(src, i + 1, k)
    } else {
        i
    }
}

pub open spec fn count_newlines(s: Seq<char>) -> nat
    decreases s.len(),
{
    if s.len() == 0 {
        0
    } else {
        count_newlines(s.drop_last()) + if s.last() == '\n' {
            1nat
        } else {
            0nat
        }
    }
}

/// The line of position `i`: one more than the newlines before it.
pub open spec fn line_at(src: Seq<char>, i: int) -> nat {
    1 + count_newlines(src.subrange(0, i))
}

/// Where a number that starts at `start` ends: digits, then a `.` and more
/// digits only where a digit follows the `.`.
pub open spec fn number_end(src: Seq<char>, start: int) -> int {
    let d = run_end(src, start + 1, Run::Digits);
    if d + 1 < src.len() && src[d] == '.' && spec_is_digit(src[d + 1]) {
        run_end(src, d + 1, Run::Digits)
    } else {
        d
    }
}

pub open spec fn single_kind(c: char) -> Option<TokenType> {
    if c == '(' {
        Some(TokenType::LeftParen)
    } else if c == ')' {
        Some(TokenType::RightParen)
    } else if c == '{' {
        Some(TokenType::LeftBrace)
    } else if c == '}' {
        Some(TokenType::RightBrace)
    } else if c == ',' {
        Some(TokenType::Comma)
    } else if c == '.' {
        Some(TokenType::Dot)
    } else if c == '-' {
        Some(TokenType::Minus)
    } else if c == '+' {
        Some(TokenType::Plus)
    } else if c == ';' {
        Some(TokenType::Semicolon)
    } else if c == '*' {
        Some(TokenType::Star)
    } else {
        None
    }
}

/// The operators that an `=` may extend: the type alone, and with the `=`.
pub open spec fn pair_kinds(c: char) -> Option<(TokenType, TokenType)> {
    if c == '!' {
        Some((TokenType::Bang, TokenType::BangEqual))
    } else if c == '=' {
        Some((TokenType::Equal, TokenType::EqualEqual))
    } else if c == '<' {
        Some((TokenType::Less, TokenType::LessEqual))
    } else if c == '>' {
        Some((TokenType::Greater, TokenType::GreaterEqual))
    } else {
        None
    }
}

pub open spec fn is_blank(c: char) -> bool {
    c == ' ' || c == '\r' || c == '\t' || c == '\n'
}

/// What the scanner does with the lexeme that starts at `start`.
pub enum Step {
    /// Whitespace or a comment, up to the position given.
    Skip(int),
    /// A token of the type given, up to the position given.
    Emit(TokenType, int),
    Fail(ScanError),
}

pub open spec fn step(src: Seq<char>, start: int) -> Step {
    let c = src[start];
    let next_is = |x: char| start + 1 < src.len() && src[start + 1] == x;
    if single_kind(c) is Some {
        Step::Emit(single_kind(c)->0, start + 1)
    } else if pair_kinds(c) is Some {
        if next_is('=') {
            Step::Emit((pair_kinds(c)->0).1, start + 2)
        } else {
            Step::Emit((pair_kinds(c)->0).0, start + 1)
        }
    } else if c == '/' {
        if next_is('/') {
            Step::Skip(run_end(src, start + 2, Run::Comment))
        } else {
            Step::Emit(TokenType::Slash, start + 1)
        }
    } else if is_blank(c) {
        Step::Skip(start + 1)
    } else if c == '"' {
        let e = run_end(src, start + 1, Run::StringBody);
        if e >= src.len() {
            Step::Fail(ScanError::UnterminatedString { line: line_at(src, src.len() as int) as usize })
        } else {
            Step::Emit(TokenType::String, e + 1)
        }
    } else if spec_is_digit(c) {
        Step::Emit(TokenType::Number, number_end(src, start))
    } else if spec_is_alpha(c) {
        let e = run_end(src, start + 1, Run::Word);
        Step::Emit(word_type(src.subrange(start, e)), e)
    } else {
        Step::Fail(ScanError::UnrecognizedCharacter { line: line_at(src, start) as usize })
    }
}

/// The lexemes of `src` from `start` on, each as its type and its span, or
/// the first error.
pub open spec fn scan_from(src: Seq<char>, start: int) -> Result<
    Seq<(TokenType, int, int)>,
    ScanError,
>
    decreases src.len() - start,
{
    if start < 0 || start >= src.len() {
        Ok(seq![])
    } else {
        match step(src, start) {
            Step::Skip(end) => if start < end <= src.len() {
                scan_from(src, end)
            } else {
                Ok(seq![])
            },
            Step::Emit(k, end) => if start < end <= src.len() {
                match scan_from(src, end) {
                    Ok(rest) => Ok(seq![(k, start, end)] + rest),
                    Err(e) => Err(e),
                }
            } else {
                Ok(seq![])
            },
            Step::Fail(e) => Err(e),
        }
    }
}

/// `t` is the token scanned from the span `lx` of `src`; a number token
/// carries what `parse` returned for its lexeme.
pub open spec fn token_matches<P: Fn(String) -> u64>(
    src: Seq<char>,
    t: Token,
    lx: (TokenType, int, int),
    parse: P,
) -> bool {
    &&& t.token_type == lx.0
    &&& t.lexeme@ == src.subrange(lx.1, lx.2)
    &&& t.line as int == line_at(src, lx.2)
    &&& match lx.0 {
        TokenType::String => t.literal@ == Value::Text(src.subrange(lx.1 + 1, lx.2 - 1)),
        TokenType::Number => t.literal is Number && call_ensures(
            parse,
            (t.lexeme,),
            t.literal->Number_0,
        ),
        _ => t.literal == Literal::Nil,
    }
}

/// `tokens` are the tokens of the lexemes `lxs` of `src`, then the end token.
pub open spec fn tokens_match<P: Fn(String) -> u64>(
    src: Seq<char>,
    tokens: Seq<Token>,
    lxs: Seq<(TokenType, int, int)>,
    parse: P,
) -> bool {
    &&& tokens.len() == lxs.len() + 1
    &&& forall|i: int| 0 <= i < lxs.len() ==> token_matches(src, #[trigger] tokens[i], lxs[i], parse)
    &&& tokens.last().token_type == TokenType::Eof
    &&& tokens.last().lexeme@.len() == 0
    &&& tokens.last().literal == Literal::Nil
    &&& tokens.last().line as int == line_at(src, src.len() as int)
}

proof fn lemma_step_advances(src: Seq<char>, start: int)
    requires
        0 <= start < src.len(),
    ensures
        match step(src, start) {
            Step::Skip(end) => start < end <= src.len(),
            Step::Emit(_, end) => start < end <= src.len(),
            Step::Fail(_) => true,
        },
{
    lemma_run_end_bounds(src, start + 1, Run::Digits);
    lemma_run_end_bounds(src, start + 1, Run::Word);
    lemma_run_end_bounds(src, start + 1, Run::StringBody);
    if start + 2 <= src.len() {
        lemma_run_end_bounds(src, start + 2, Run::Comment);
    }
    let d = run_end(src, start + 1, Run::Digits);
    if d + 1 < src.len() {
        lemma_run_end_bounds(src, d + 1, Run::Digits);
    }
}

proof fn lemma_word_type_not_literal(w: Seq<char>, i: int)
    ensures
        word_type_from(w, i) != TokenType::String,
        word_type_from(w, i) != TokenType::Number,
    decreases keyword_table().len() - i,
{
    if 0 <= i < keyword_table().len() && keyword_table()[i].0 != w {
        lemma_word_type_not_literal(w, i + 1);
    }
}

proof fn lemma_run_end_bounds(src: Seq<char>, i: int, k: Run)
    requires
        0 <= i <= src.len(),
    ensures
        i <= run_end(src, i, k) <= src.len(),
        forall|j: int| i <= j < run_end(src, i, k) ==> in_run(#[trigger] src[j], k),
        run_end(src, i, k) < src.len() ==> !in_run(src[run_end(src, i, k)], k),
    decreases src.len() - i,
{
    if i < src.len() && in_run(src[i], k) {
        lemma_run_end_bounds(src, i + 1, k);
    }
}

proof fn lemma_line_step(src: Seq<char>, i: int)
    requires
        0 <= i < src.len(),
    ensures
        line_at(src, i + 1) == line_at(src, i) + if src[i] == '\n' {
            1nat
        } else {
            0nat
        },
        line_at(src, i) <= i + 1,
{
    assert(src.subrange(0, i + 1).drop_last() =~= src.subrange(0, i));
    lemma_newlines_bound(src.subrange(0, i));
}

proof fn lemma_newlines_bound(s: Seq<char>)
    ensures
        count_newlines(s) <= s.len(),
    decreases s.len(),
{
    if s.len() > 0 {
        lemma_newlines_bound(s.drop_last());
    }
}

fn in_run_exec(c: char, k: Run) -> (r: bool)
    ensures
        r == in_run(c, k),
{
    match k {
        Run::Digits => is_digit(c),
        Run::Word => is_alpha_numeric(c),
        Run::Comment => c != '\n',
        Run::StringBody => c != '"',
    }
}

fn single_kind_exec(c: char) -> (r: Option<TokenType>)
    ensures
        r == single_kind(c),
{
    match c {
        '(' => Some(TokenType::LeftParen),
        ')' => Some(TokenType::RightParen),
        '{' => Some(TokenType::LeftBrace),
        '}' => Some(TokenType::RightBrace),
        ',' => Some(TokenType::Comma),
        '.' => Some(TokenType::Dot),
        '-' => Some(TokenType::Minus),
        '+' => Some(TokenType::Plus),
        ';' => Some(TokenType::Semicolon),
        '*' => Some(TokenType::Star),
        _ => None,
    }
}

fn pair_kinds_exec(c: char) -> (r: Option<(TokenType, TokenType)>)
    ensures
        r == pair_kinds(c),
{
    match c {
        '!' => Some((TokenType::Bang, TokenType::BangEqual)),
        '=' => Some((TokenType::Equal, TokenType::EqualEqual)),
        '<' => Some((TokenType::Less, TokenType::LessEqual)),
        '>' => Some((TokenType::Greater, TokenType::GreaterEqual)),
        _ => None,
    }
}

/// A single left-to-right pass over the characters of a source text.
pub struct Scanner {
    source: Vec<char>,
    keywords: Vec<(String, TokenType)>,
    tokens: Vec<Token>,
    start: usize,
    current: usize,
    line: usize,
}

impl Scanner {
    /// The characters being scanned.
    pub closed spec fn chars(&self) -> Seq<char> {
        self.source@
    }

    pub closed spec fn wf(&self) -> bool {
        &&& self.source@.len() < usize::MAX
        &&& self.keywords@.len() == keyword_table().len()
        &&& forall|i: int|
            0 <= i < self.keywords@.len() ==> (#[trigger] self.keywords@[i]).0@
                == keyword_table()[i].0 && self.keywords@[i].1 == keyword_table()[i].1
        &&& self.current <= self.source@.len()
        &&& self.line as int == line_at(self.source@, self.current as int)
    }

    /// A scanner over the characters of `s`.
    pub fn new(s: &str) -> (r: Self)
        requires
            s@.len() < usize::MAX,
        ensures
            r.wf(),
            r.chars() == s@,
    {
        let source = chars_of(s);
        proof {
            assert(source@.subrange(0, 0) =~= Seq::<char>::empty());
        }
        Scanner { source, keywords: get_key_words(), tokens: Vec::new(), start: 0, current: 0, line: 1 }
    }

    fn run_end_exec(&self, i: usize, k: Run) -> (r: usize)
        requires
            i <= self.source@.len(),
        ensures
            r as int == run_end(self.source@, i as int, k),
            i <= r <= self.source@.len(),
    {
        proof {
            lemma_run_end_bounds(self.source@, i as int, k);
        }
        let mut j = i;
        while j < self.source.len() && in_run_exec(self.source[j], k)
            invariant
                i <= j <= self.source@.len(),
                run_end(self.source@, i as int, k) == run_end(self.source@, j as int, k),
            decreases self.source@.len() - j,
        {
            j = j + 1;
        }
        j
    }

    /// Moves the scan position forward to `end`, counting the newlines passed.
    fn advance_to(&mut self, end: usize)
        requires
            old(self).wf(),
            old(self).current <= end <= old(self).source@.len(),
        ensures
            final(self).wf(),
            final(self).current == end,
            final(self).source == old(self).source,
            final(self).keywords == old(self).keywords,
            final(self).tokens == old(self).tokens,
            final(self).start == old(self).start,
    {
        while self.current < end
            invariant
                self.wf(),
                self.current <= end <= self.source@.len(),
                self.source == old(self).source,
                self.keywords == old(self).keywords,
                self.tokens == old(self).tokens,
                self.start == old(self).start,
            decreases end - self.current,
        {
            proof {
                lemma_line_step(self.source@, self.current as int);
            }
            if self.source[self.current] == '\n' {
                self.line = self.line + 1;
            }
            self.current = self.current + 1;
        }
    }

    /// Scans up to `end` and adds the token of type `kind` that spans from
    /// the start of the lexeme to there.
    fn emit<P: Fn(String) -> u64>(&mut self, kind: TokenType, end: usize, parse: &P)
        requires
            old(self).wf(),
            old(self).start == old(self).current,
            old(self).current < end <= old(self).source@.len(),
            kind == TokenType::String ==> end >= old(self).start + 2,
            forall|s: String| call_requires(*parse, (s,)),
        ensures
            final(self).wf(),
            final(self).current == end,
            final(self).source == old(self).source,
            final(self).keywords == old(self).keywords,
            final(self).tokens@.len() == old(self).tokens@.len() + 1,
            final(self).tokens@.drop_last() == old(self).tokens@,
            token_matches(
                final(self).source@,
                final(self).tokens@.last(),
                (kind, old(self).start as int, end as int),
                *parse,
            ),
    {
        self.advance_to(end);
        let lexeme = text_of(&self.source, self.start, end);
        let literal = match kind {
            TokenType::String => Literal::Text(text_of(&self.source, self.start + 1, end - 1)),
            TokenType::Number => Literal::Number(parse(lexeme.clone())),
            _ => Literal::Nil,
        };
        let ghost old_tokens = self.tokens@;
        self.tokens.push(Token::new(kind, lexeme, literal, self.line));
        proof {
            assert(self.tokens@.drop_last() =~= old_tokens);
        }
    }

    /// `after` is `before` with the lexeme at its position scanned, as
    /// `step` says, with result `r`.
    closed spec fn stepped<P: Fn(String) -> u64>(
        before: Scanner,
        after: Scanner,
        r: Result<(), ScanError>,
        parse: P,
    ) -> bool {
        &&& after.wf()
        &&& after.source == before.source
        &&& after.keywords == before.keywords
        &&& match step(before.source@, before.current as int) {
            Step::Skip(end) => r is Ok && after.current == end && after.tokens == before.tokens,
            Step::Emit(kind, end) => {
                &&& r is Ok
                &&& after.current == end
                &&& after.tokens@.len() == before.tokens@.len() + 1
                &&& after.tokens@.drop_last() == before.tokens@
                &&& token_matches(
                    after.source@,
                    after.tokens@.last(),
                    (kind, before.current as int, end),
                    parse,
                )
            },
            Step::Fail(e) => r == Err::<(), ScanError>(e),
        }
    }

    /// A string literal, from its opening quote.
    fn string<P: Fn(String) -> u64>(&mut self, parse: &P) -> (r: Result<(), ScanError>)
        requires
            old(self).wf(),
            old(self).start == old(self).current,
            old(self).current < old(self).source@.len(),
            old(self).source@[old(self).current as int] == '"',
            forall|s: String| call_requires(*parse, (s,)),
        ensures
            Self::stepped(*old(self), *final(self), r, *parse),
    {
        let e = self.run_end_exec(self.current + 1, Run::StringBody);
        if e >= self.source.len() {
            self.advance_to(e);
            return Err(ScanError::UnterminatedString { line: self.line });
        }
        self.emit(TokenType::String, e + 1, parse);
        Ok(())
    }

    /// A number literal, from its first digit.
    fn number<P: Fn(String) -> u64>(&mut self, parse: &P) -> (r: Result<(), ScanError>)
        requires
            old(self).wf(),
            old(self).start == old(self).current,
            old(self).current < old(self).source@.len(),
            spec_is_digit(old(self).source@[old(self).current as int]),
            forall|s: String| call_requires(*parse, (s,)),
        ensures
            Self::stepped(*old(self), *final(self), r, *parse),
    {
        let len = self.source.len();
        let d = self.run_end_exec(self.current + 1, Run::Digits);
        let e = if d + 1 < len && self.source[d] == '.' && is_digit(self.source[d + 1]) {
            self.run_end_exec(d + 1, Run::Digits)
        } else {
            d
        };
        self.emit(TokenType::Number, e, parse);
        Ok(())
    }

    /// An identifier or a keyword, from its first letter.
    fn identifier<P: Fn(String) -> u64>(&mut self, parse: &P) -> (r: Result<(), ScanError>)
        requires
            old(self).wf(),
            old(self).start == old(self).current,
            old(self).current < old(self).source@.len(),
            spec_is_alpha(old(self).source@[old(self).current as int]),
            !spec_is_digit(old(self).source@[old(self).current as int]),
            forall|s: String| call_requires(*parse, (s,)),
        ensures
            Self::stepped(*old(self), *final(self), r, *parse),
    {
        let start = self.current;
        let e = self.run_end_exec(start + 1, Run::Word);
        let word = text_of(&self.source, start, e);
        let kind = keyword_type(&self.keywords, &word);
        proof {
            lemma_word_type_not_literal(word@, 0);
        }
        self.emit(kind, e, parse);
        Ok(())
    }

    /// Scans the lexeme that starts at the current position.
    fn scan_token<P: Fn(String) -> u64>(&mut self, parse: &P) -> (r: Result<(), ScanError>)
        requires
            old(self).wf(),
            old(self).start == old(self).current,
            old(self).current < old(self).source@.len(),
            forall|s: String| call_requires(*parse, (s,)),
        ensures
            Self::stepped(*old(self), *final(self), r, *parse),
    {
        let ghost src = self.source@;
        let len = self.source.len();
        let start = self.current;
        let c = self.source[start];
        let next = if start + 1 < len {
            self.source[start + 1]
        } else {
            '\0'
        };
        if let Some(kind) = single_kind_exec(c) {
            self.emit(kind, start + 1, parse);
            return Ok(());
        }
        if let Some(kinds) = pair_kinds_exec(c) {
            if next == '=' {
                self.emit(kinds.1, start + 2, parse);
            } else {
                self.emit(kinds.0, start + 1, parse);
            }
            return Ok(());
        }
        if c == '/' {
            if next == '/' {
                let e = self.run_end_exec(start + 2, Run::Comment);
                self.advance_to(e);
            } else {
                self.emit(TokenType::Slash, start + 1, parse);
            }
            return Ok(());
        }
        if c == ' ' || c == '\r' || c == '\t' || c == '\n' {
            self.advance_to(start + 1);
            return Ok(());
        }
        if c == '"' {
            return self.string(parse);
        }
        if is_digit(c) {
            return self.number(parse);
        }
        if is_alpha(c) {
            return self.identifier(parse);
        }
        Err(ScanError::UnrecognizedCharacter { line: self.line })
    }

    /// Scans the whole source, from its first character, into tokens, the
    /// last of which is the end token; or fails with the first scan error.
    pub fn scan_tokens<P: Fn(String) -> u64>(&mut self, parse: &P) -> (r: Result<
        Vec<Token>,
        ScanError,
    >)
        requires
            old(self).wf(),
            forall|s: String| call_requires(*parse, (s,)),
        ensures
            final(self).wf(),
            final(self).chars() == old(self).chars(),
            match r {
                Ok(tokens) => scan_from(old(self).chars(), 0) is Ok && tokens_match(
                    old(self).chars(),
                    tokens@,
                    scan_from(old(self).chars(), 0)->Ok_0,
                    *parse,
                ),
                Err(e) => scan_from(old(self).chars(), 0) == Err::<
                    Seq<(TokenType, int, int)>,
                    ScanError,
                >(e),
            },
    {
        let ghost src = self.source@;
        self.tokens = Vec::new();
        self.current = 0;
        self.start = 0;
        self.line = 1;
        proof {
            assert(src.subrange(0, 0) =~= Seq::<char>::empty());
        }
        let ghost mut done: Seq<(TokenType, int, int)> = seq![];
        while self.current < self.source.len()
            invariant
                self.wf(),
                self.source@ == src,
                src == old(self).chars(),
                forall|s: String| call_requires(*parse, (s,)),
                self.tokens@.len() == done.len(),
                forall|i: int|
                    0 <= i < done.len() ==> token_matches(
                        src,
                        #[trigger] self.tokens@[i],
                        done[i],
                        *parse,
                    ),
                scan_from(src, 0) == match scan_from(src, self.current as int) {
                    Ok(rest) => Ok(done + rest),
                    Err(e) => Err(e),
                },
            decreases src.len() - self.current,
        {
            self.start = self.current;
            let ghost before = self.current as int;
            let ghost old_tokens = self.tokens@;
            let res = self.scan_token(parse);
            match res {
                Err(e) => {
                    proof {
                        assert(step(src, before) is Fail);
                        assert(scan_from(src, before) == Err::<Seq<(TokenType, int, int)>, ScanError>(e));
                    }
                    return Err(e);
                },
                Ok(()) => {},
            }
            proof {
                lemma_step_advances(src, before);
                match step(src, before) {
                    Step::Skip(end) => {},
                    Step::Emit(kind, end) => {
                        let lx = (kind, before, end);
                        assert forall|i: int| 0 <= i < done.len() + 1 implies token_matches(
                            src,
                            #[trigger] self.tokens@[i],
                            done.push(lx)[i],
                            *parse,
                        ) by {
                            if i < done.len() {
                                assert(self.tokens@[i] == self.tokens@.drop_last()[i]);
                            }
                        }
                        match scan_from(src, end) {
                            Ok(rest) => {
                                assert(done + (seq![lx] + rest) =~= done.push(lx) + rest);
                            },
                            Err(e) => {},
                        }
                        done = done.push(lx);
                    },
                    Step::Fail(e) => {},
                }
            }
        }
        let ghost old_tokens = self.tokens@;
        self.tokens.push(Token::new(TokenType::Eof, String::new(), Literal::Nil, self.line));
        proof {
            assert(done + seq![] =~= done);
            assert forall|i: int| 0 <= i < done.len() implies token_matches(
                src,
                #[trigger] self.tokens@[i],
                done[i],
                *parse,
            ) by {
                assert(self.tokens@[i] == old_tokens[i]);
            }
        }
        let mut tokens = Vec::new();
        std::mem::swap(&mut tokens, &mut self.tokens);
        Ok(tokens)
    }
}

/// The word `w` alone scans to exactly one token, of type `k`.
pub open spec fn single_token(w: Seq<char>, k: TokenType) -> bool {
    scan_from(w, 0) == Ok::<Seq<(TokenType, int, int)>, ScanError>(seq![(k, 0int, w.len() as int)])
}

/// The words `ws`, one after another, the whitespace character `seps[i]`
/// between `ws[i]` and `ws[i + 1]`.
pub open spec fn separated(ws: Seq<Seq<char>>, seps: Seq<char>) -> Seq<char>
    decreases ws.len(),
{
    if ws.len() == 0 {
        seq![]
    } else if ws.len() == 1 || seps.len() == 0 {
        ws[0]
    } else {
        ws[0] + seq![seps[0]] + separated(ws.drop_first(), seps.drop_first())
    }
}

/// The spans of the words of `separated(ws, seps)`, with their types, the
/// first word starting at `at`.
pub open spec fn separated_spans(ws: Seq<Seq<char>>, kinds: Seq<TokenType>, at: int) -> Seq<
    (TokenType, int, int),
>
    decreases ws.len(),
{
    if ws.len() == 0 || kinds.len() == 0 {
        seq![]
    } else {
        seq![(kinds[0], at, at + ws[0].len())] + separated_spans(
            ws.drop_first(),
            kinds.drop_first(),
            at + ws[0].len() + 1,
        )
    }
}

/// The spans that `scan_from(src, s)` gives start at `s` or later.
proof fn lemma_spans_start_after(src: Seq<char>, s: int)
    requires
        0 <= s,
        scan_from(src, s) is Ok,
    ensures
        forall|i: int|
            0 <= i < scan_from(src, s)->Ok_0.len() ==> s <= (#[trigger] scan_from(
                src,
                s,
            )->Ok_0[i]).1,
    decreases src.len() - s,
{
    if s < src.len() {
        match step(src, s) {
            Step::Skip(end) => {
                if s < end <= src.len() {
                    lemma_spans_start_after(src, end);
                }
            },
            Step::Emit(k, end) => {
                if s < end <= src.len() {
                    lemma_spans_start_after(src, end);
                    let rest = scan_from(src, end)->Ok_0;
                    assert forall|i: int|
                        0 <= i < scan_from(src, s)->Ok_0.len() implies s <= (#[trigger] scan_from(
                        src,
                        s,
                    )->Ok_0[i]).1 by {
                        if i > 0 {
                            assert(scan_from(src, s)->Ok_0[i] == rest[i - 1]);
                        }
                    }
                }
            },
            Step::Fail(_) => {},
        }
    }
}

/// A run inside a copy of `w` at `at` in `src` ends where it ends in `w`,
/// when it ends inside `w` or the character after the copy stops it.
proof fn lemma_run_end_local(w: Seq<char>, src: Seq<char>, at: int, i: int, k: Run)
    requires
        0 <= i <= w.len(),
        0 <= at,
        at + w.len() <= src.len(),
        src.subrange(at, at + w.len()) == w,
        run_end(w, i, k) < w.len() || at + w.len() == src.len() || !in_run(
            src[at + w.len()],
            k,
        ),
    ensures
        run_end(src, at + i, k) == at + run_end(w, i, k),
    decreases w.len() - i,
{
    if i < w.len() {
        assert(src[at + i] == w[i]);
        if in_run(w[i], k) {
            lemma_run_end_local(w, src, at, i + 1, k);
        }
    }
}

/// A word that scans alone to one token is scanned the same way inside a
/// longer text where a whitespace character follows it.
proof fn lemma_step_local(w: Seq<char>, k: TokenType, src: Seq<char>, at: int)
    requires
        single_token(w, k),
        0 <= at,
        at + w.len() <= src.len(),
        src.subrange(at, at + w.len()) == w,
        at + w.len() == src.len() || is_blank(src[at + w.len()]),
    ensures
        w.len() > 0,
        step(src, at) == Step::Emit(k, at + w.len()),
{
    let n = w.len() as int;
    if n == 0 {
        assert(scan_from(w, 0)->Ok_0.len() == 0);
    }
    match step(w, 0) {
        Step::Skip(end) => {
            lemma_step_advances(w, 0);
            lemma_spans_start_after(w, end);
            assert(scan_from(w, end)->Ok_0[0].1 == 0);
        },
        Step::Emit(k2, end) => {
            lemma_step_advances(w, 0);
            assert(scan_from(w, 0)->Ok_0[0] == (k2, 0int, end));
        },
        Step::Fail(_) => {},
    }
    assert(step(w, 0) == Step::Emit(k, n));
    assert(src[at] == w[0]);
    let c = w[0];
    if n > 1 {
        assert(src[at + 1] == w[1]);
    }
    if n > 0 && at + n < src.len() {
        assert(is_blank(src[at + n]));
    }
    lemma_run_end_bounds(w, 1, Run::Word);
    lemma_run_end_bounds(w, 1, Run::Digits);
    lemma_run_end_bounds(w, 1, Run::StringBody);
    lemma_run_end_local(w, src, at, 1, Run::Word);
    lemma_run_end_local(w, src, at, 1, Run::Digits);
    if run_end(w, 1, Run::StringBody) < n {
        lemma_run_end_local(w, src, at, 1, Run::StringBody);
    }
    let d = run_end(w, 1, Run::Digits);
    if spec_is_digit(c) && d + 1 < n && w[d] == '.' && spec_is_digit(w[d + 1]) {
        assert(src[at + d] == w[d]);
        assert(src[at + d + 1] == w[d + 1]);
        lemma_run_end_local(w, src, at, d + 1, Run::Digits);
    } else if spec_is_digit(c) && d < n {
        assert(src[at + d] == w[d]);
        if d + 1 < n {
            assert(src[at + d + 1] == w[d + 1]);
        }
    }
    if spec_is_alpha(c) {
        assert(src.subrange(at, at + n) == w.subrange(0, n));
    }
}

/// Scanning words that each scan alone to one token, separated by one
/// whitespace character each, gives those tokens in order: each with its
/// type and, as its lexeme, exactly the word.
pub proof fn lemma_scan_separated(ws: Seq<Seq<char>>, kinds: Seq<TokenType>, seps: Seq<char>)
    requires
        ws.len() == kinds.len(),
        seps.len() + 1 == ws.len() || ws.len() == seps.len() == 0,
        forall|i: int| 0 <= i < ws.len() ==> single_token(#[trigger] ws[i], kinds[i]),
        forall|i: int| 0 <= i < seps.len() ==> is_blank(#[trigger] seps[i]),
    ensures
        scan_from(separated(ws, seps), 0) == Ok::<Seq<(TokenType, int, int)>, ScanError>(
            separated_spans(ws, kinds, 0),
        ),
        separated_spans(ws, kinds, 0).len() == ws.len(),
        forall|i: int|
            0 <= i < ws.len() ==> (#[trigger] separated_spans(ws, kinds, 0)[i]).0 == kinds[i]
                && separated(ws, seps).subrange(
                separated_spans(ws, kinds, 0)[i].1,
                separated_spans(ws, kinds, 0)[i].2,
            ) == ws[i],
{
    let src = separated(ws, seps);
    assert(src.subrange(0, src.len() as int) =~= src);
    lemma_scan_separated_from(src, 0, ws, kinds, seps);
}

proof fn lemma_scan_separated_from(
    src: Seq<char>,
    at: int,
    ws: Seq<Seq<char>>,
    kinds: Seq<TokenType>,
    seps: Seq<char>,
)
    requires
        0 <= at <= src.len(),
        src.subrange(at, src.len() as int) == separated(ws, seps),
        ws.len() == kinds.len(),
        seps.len() + 1 == ws.len() || ws.len() == seps.len() == 0,
        forall|i: int| 0 <= i < ws.len() ==> single_token(#[trigger] ws[i], kinds[i]),
        forall|i: int| 0 <= i < seps.len() ==> is_blank(#[trigger] seps[i]),
    ensures
        scan_from(src, at) == Ok::<Seq<(TokenType, int, int)>, ScanError>(
            separated_spans(ws, kinds, at),
        ),
        separated_spans(ws, kinds, at).len() == ws.len(),
        forall|i: int|
            0 <= i < ws.len() ==> (#[trigger] separated_spans(ws, kinds, at)[i]).0 == kinds[i]
                && src.subrange(
                separated_spans(ws, kinds, at)[i].1,
                separated_spans(ws, kinds, at)[i].2,
            ) == ws[i],
    decreases ws.len(),
{
    if ws.len() == 0 {
        assert(src.subrange(at, src.len() as int).len() == 0);
    } else if ws.len() == 1 {
        let w = ws[0];
        let n = w.len() as int;
        assert(src.subrange(at, src.len() as int) == w);
        assert(src.subrange(at, at + n) =~= w);
        assert(single_token(ws[0], kinds[0]));
        lemma_step_local(w, kinds[0], src, at);
        let spans = separated_spans(ws, kinds, at);
        assert(separated_spans(ws.drop_first(), kinds.drop_first(), at + n + 1) =~= seq![]);
        assert(spans =~= seq![(kinds[0], at, at + n)]);
        assert(scan_from(src, at + n) == Ok::<Seq<(TokenType, int, int)>, ScanError>(seq![]));
        assert(seq![(kinds[0], at, at + n)] + seq![] =~= spans);
    } else {
        let w = ws[0];
        let n = w.len() as int;
        let tail = separated(ws.drop_first(), seps.drop_first());
        assert(separated(ws, seps) == w + seq![seps[0]] + tail);
        assert(src.subrange(at, at + n) =~= w) by {
            assert forall|j: int| 0 <= j < n implies src.subrange(at, at + n)[j] == w[j] by {
                assert(src[at + j] == src.subrange(at, src.len() as int)[j]);
            }
        }
        assert(src[at + n] == seps[0]) by {
            assert(src[at + n] == src.subrange(at, src.len() as int)[n]);
        }
        assert(single_token(ws[0], kinds[0]));
        assert(is_blank(seps[0]));
        lemma_step_local(w, kinds[0], src, at);
        assert(step(src, at + n) == Step::Skip(at + n + 1));
        assert(src.subrange(at + n + 1, src.len() as int) =~= tail) by {
            assert forall|j: int| 0 <= j < tail.len() implies src.subrange(
                at + n + 1,
                src.len() as int,
            )[j] == tail[j] by {
                assert(src[at + n + 1 + j] == src.subrange(at, src.len() as int)[n + 1 + j]);
            }
        }
        assert forall|i: int| 0 <= i < ws.drop_first().len() implies single_token(
            #[trigger] ws.drop_first()[i],
            kinds.drop_first()[i],
        ) by {
            assert(single_token(ws[i + 1], kinds[i + 1]));
        }
        assert forall|i: int| 0 <= i < seps.drop_first().len() implies is_blank(
            #[trigger] seps.drop_first()[i],
        ) by {
            assert(is_blank(seps[i + 1]));
        }
        lemma_scan_separated_from(src, at + n + 1, ws.drop_first(), kinds.drop_first(), seps.drop_first());
        let spans = separated_spans(ws, kinds, at);
        let rest = separated_spans(ws.drop_first(), kinds.drop_first(), at + n + 1);
        assert(spans == seq![(kinds[0], at, at + n)] + rest);
        assert(scan_from(src, at + n) == scan_from(src, at + n + 1));
        assert(scan_from(src, at) == Ok::<Seq<(TokenType, int, int)>, ScanError>(
            seq![(kinds[0], at, at + n)] + rest,
        ));
        assert forall|i: int| 0 <= i < ws.len() implies (#[trigger] spans[i]).0 == kinds[i]
            && src.subrange(spans[i].1, spans[i].2) == ws[i] by {
            if i > 0 {
                assert(spans[i] == rest[i - 1]);
                assert(ws.drop_first()[i - 1] == ws[i]);
            }
        }
    }
}

} // verus!
