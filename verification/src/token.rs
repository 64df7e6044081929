//! Tokens and the lexical scanner.
//!
//! Source text is scanned in one pass into a sequence of tokens. Reserved
//! words and operators are recognised by longest-prefix matching over two
//! character tries; numeric literals follow a digit/dot/exponent/complex
//! grammar. A number token's recorded `length` is one more than its lexeme
//! (the scan counts the character that ended it); the scanner then resumes
//! one past the lexeme, so tokens in a program are delimited by whitespace.

use vstd::prelude::*;

use crate::value::RuntimeError;
use crate::value::Value;

verus! {

/// Reserved words of the language. Only `assert` has compiler support; the
/// rest are recognised by the scanner as extension points.
#[derive(Debug, Clone, Copy, PartialEq, Eq, Hash, Structural)]
pub enum Keyword {
    Assert,
    If,
    In,
    Not,
    Else,
    Elif,
    While,
    For,
    Class,
}

/// Operator and punctuation lexemes.
#[derive(Debug, Clone, Copy, PartialEq, Eq, Hash, Structural)]
pub enum Operator {
    LeftParen,
    RightParen,
    Pound,
    Plus,
    Minus,
    Star,
    StarStar,
    Slash,
    SlashSlash,
    Equal,
    EqualEqual,
    NotEqual,
    Less,
    LessEqual,
    Greater,
    GreaterEqual,
}

/// The numeric kinds a literal can scan as.
#[derive(Debug, Clone, Copy, PartialEq, Eq, Hash, Structural)]
pub enum Number {
    Integer,
    Float,
    Complex,
}

/// The kind of a token.
#[derive(Debug, Clone, Copy, PartialEq, Eq, Hash, Structural)]
pub enum TokenType {
    Keyword(Keyword),
    Operator(Operator),
    Number(Number),
    Identifier,
    Eof,
}

/// The characters of a keyword's lexeme.
pub open spec fn keyword_chars(k: Keyword) -> Seq<char> {
    match k {
        Keyword::Assert => seq!['a', 's', 's', 'e', 'r', 't'],
        Keyword::If => seq!['i', 'f'],
        Keyword::In => seq!['i', 'n'],
        Keyword::Not => seq!['n', 'o', 't'],
        Keyword::Else => seq!['e', 'l', 's', 'e'],
        Keyword::Elif => seq!['e', 'l', 'i', 'f'],
        Keyword::While => seq!['w', 'h', 'i', 'l', 'e'],
        Keyword::For => seq!['f', 'o', 'r'],
        Keyword::Class => seq!['c', 'l', 'a', 's', 's'],
    }
}

/// The characters of an operator's lexeme.
pub open spec fn operator_chars(o: Operator) -> Seq<char> {
    match o {
        Operator::LeftParen => seq!['('],
        Operator::RightParen => seq![')'],
        Operator::Pound => seq!['#'],
        Operator::Plus => seq!['+'],
        Operator::Minus => seq!['-'],
        Operator::Star => seq!['*'],
        Operator::StarStar => seq!['*', '*'],
        Operator::Slash => seq!['/'],
        Operator::SlashSlash => seq!['/', '/'],
        Operator::Equal => seq!['='],
        Operator::EqualEqual => seq!['=', '='],
        Operator::NotEqual => seq!['!', '='],
        Operator::Less => seq!['<'],
        Operator::LessEqual => seq!['<', '='],
        Operator::Greater => seq!['>'],
        Operator::GreaterEqual => seq!['>', '='],
    }
}

impl Keyword {
    /// The keyword's lexeme.
    pub fn lexeme(self) -> (r: &'static str)
        ensures
            r@ == keyword_chars(self),
    {
        proof {
            reveal_strlit("assert");
            reveal_strlit("if");
            reveal_strlit("in");
            reveal_strlit("not");
            reveal_strlit("else");
            reveal_strlit("elif");
            reveal_strlit("while");
            reveal_strlit("for");
            reveal_strlit("class");
        }
        match self {
            Keyword::Assert => "assert",
            Keyword::If => "if",
            Keyword::In => "in",
            Keyword::Not => "not",
            Keyword::Else => "else",
            Keyword::Elif => "elif",
            Keyword::While => "while",
            Keyword::For => "for",
            Keyword::Class => "class",
        }
    }
}

impl Operator {
    /// The operator's lexeme.
    pub fn lexeme(self) -> (r: &'static str)
        ensures
            r@ == operator_chars(self),
    {
        proof {
            reveal_strlit("(");
            reveal_strlit(")");
            reveal_strlit("#");
            reveal_strlit("+");
            reveal_strlit("-");
            reveal_strlit("*");
            reveal_strlit("**");
            reveal_strlit("/");
            reveal_strlit("//");
            reveal_strlit("=");
            reveal_strlit("==");
            reveal_strlit("!=");
            reveal_strlit("<");
            reveal_strlit("<=");
            reveal_strlit(">");
            reveal_strlit(">=");
        }
        match self {
            Operator::LeftParen => "(",
            Operator::RightParen => ")",
            Operator::Pound => "#",
            Operator::Plus => "+",
            Operator::Minus => "-",
            Operator::Star => "*",
            Operator::StarStar => "**",
            Operator::Slash => "/",
            Operator::SlashSlash => "//",
            Operator::Equal => "=",
            Operator::EqualEqual => "==",
            Operator::NotEqual => "!=",
            Operator::Less => "<",
            Operator::LessEqual => "<=",
            Operator::Greater => ">",
            Operator::GreaterEqual => ">=",
        }
    }
}

/// Whether `c` is an ASCII decimal digit.
pub open spec fn is_digit_char(c: char) -> bool {
    '0' <= c && c <= '9'
}

/// Whether `c` is an ASCII letter.
pub open spec fn is_alpha_char(c: char) -> bool {
    ('a' <= c && c <= 'z') || ('A' <= c && c <= 'Z')
}

/// Whether `c` is an underscore.
pub open spec fn is_underscore_char(c: char) -> bool {
    c == '_'
}

/// Whether `c` may continue an identifier or keyword.
pub open spec fn is_name_char(c: char) -> bool {
    is_digit_char(c) || is_alpha_char(c) || is_underscore_char(c)
}

/// Whether `c` is an underscore.
#[inline]
pub fn is_underscore(c: char) -> (r: bool)
    ensures
        r == is_underscore_char(c),
{
    c == '_'
}

/// Whether `c` is an ASCII decimal digit.
#[inline]
pub fn is_digit(c: char) -> (r: bool)
    ensures
        r == is_digit_char(c),
{
    c >= '0' && c <= '9'
}

/// Whether `c` is an ASCII letter.
#[inline]
pub fn is_alpha(c: char) -> (r: bool)
    ensures
        r == is_alpha_char(c),
{
    (c >= 'a' && c <= 'z') || (c >= 'A' && c <= 'Z')
}

/// The end of the run of digits and underscores starting at `i`.
pub open spec fn du_end(s: Seq<char>, i: int) -> int
    decreases s.len() - i,
    when 0 <= i <= s.len()
{
    if i < s.len() && (is_digit_char(s[i]) || is_underscore_char(s[i])) {
        du_end(s, i + 1)
    } else {
        i
    }
}

/// The end of the run of name characters starting at `i`.
pub open spec fn name_end(s: Seq<char>, i: int) -> int
    decreases s.len() - i,
    when 0 <= i <= s.len()
{
    if i < s.len() && is_name_char(s[i]) {
        name_end(s, i + 1)
    } else {
        i
    }
}

/// The end of a number lexeme's integer part, scanning from `i`.
pub open spec fn num_int_end(s: Seq<char>, i: int) -> int {
    du_end(s, i)
}

/// Whether a decimal point follows the integer part.
pub open spec fn num_has_dot(s: Seq<char>, i: int) -> bool {
    let e = num_int_end(s, i);
    e < s.len() && s[e] == '.'
}

/// The end of the fractional part (equal to the integer part's end when
/// there is no decimal point).
pub open spec fn num_frac_end(s: Seq<char>, i: int) -> int {
    let e = num_int_end(s, i);
    if num_has_dot(s, i) {
        du_end(s, e + 1)
    } else {
        e
    }
}

/// The end of the exponent part (an `e` or `E`, an optional sign, and a
/// possibly empty digit run), or of the fractional part when there is none.
pub open spec fn num_exp_end(s: Seq<char>, i: int) -> int {
    let e = num_frac_end(s, i);
    if e < s.len() && (s[e] == 'e' || s[e] == 'E') {
        let f = if e + 1 < s.len() && (s[e + 1] == '+' || s[e + 1] == '-') {
            e + 2
        } else {
            e + 1
        };
        du_end(s, f)
    } else {
        e
    }
}

/// Whether a complex suffix (`j` or `J`) ends the lexeme.
pub open spec fn num_has_j(s: Seq<char>, i: int) -> bool {
    let e = num_exp_end(s, i);
    e < s.len() && (s[e] == 'j' || s[e] == 'J')
}

/// The end of the number lexeme scanned from `i`.
pub open spec fn num_lex_end(s: Seq<char>, i: int) -> int {
    if num_has_j(s, i) {
        num_exp_end(s, i) + 1
    } else {
        num_exp_end(s, i)
    }
}

/// The numeric kind of the lexeme scanned from `i`: the complex suffix takes
/// priority over the decimal point.
pub open spec fn num_kind(s: Seq<char>, i: int) -> Number {
    if num_has_j(s, i) {
        Number::Complex
    } else if num_has_dot(s, i) {
        Number::Float
    } else {
        Number::Integer
    }
}

/// The recorded length of a number token: one more than its lexeme, since
/// the scan counts the character that ended it.
pub open spec fn num_token_len(s: Seq<char>, i: int) -> int {
    num_lex_end(s, i) - i + 1
}

/// A digit/underscore run stays within the sequence.
pub proof fn lemma_du_end_bounds(s: Seq<char>, i: int)
    requires
        0 <= i <= s.len(),
    ensures
        i <= du_end(s, i) <= s.len(),
    decreases s.len() - i,
{
    if i < s.len() && (is_digit_char(s[i]) || is_underscore_char(s[i])) {
        lemma_du_end_bounds(s, i + 1);
    }
}

/// A name-character run stays within the sequence.
pub proof fn lemma_name_end_bounds(s: Seq<char>, i: int)
    requires
        0 <= i <= s.len(),
    ensures
        i <= name_end(s, i) <= s.len(),
    decreases s.len() - i,
{
    if i < s.len() && is_name_char(s[i]) {
        lemma_name_end_bounds(s, i + 1);
    }
}

/// The stages of a number scan are ordered and stay within the sequence.
pub proof fn lemma_num_bounds(s: Seq<char>, i: int)
    requires
        0 <= i <= s.len(),
    ensures
        i <= num_int_end(s, i) <= num_frac_end(s, i) <= num_exp_end(s, i) <= num_lex_end(s, i)
            <= s.len(),
        1 <= num_token_len(s, i),
{
    lemma_du_end_bounds(s, i);
    if num_has_dot(s, i) {
        lemma_du_end_bounds(s, num_int_end(s, i) + 1);
    }
    let e = num_frac_end(s, i);
    if e < s.len() && (s[e] == 'e' || s[e] == 'E') {
        let f = if e + 1 < s.len() && (s[e + 1] == '+' || s[e + 1] == '-') {
            e + 2
        } else {
            e + 1
        };
        lemma_du_end_bounds(s, f);
    }
}

/// The keyword walk: from start `i0`, having matched up to `i`, the greedy
/// end of the walk — it advances while the next character is a name
/// character and the string read so far remains a prefix of some keyword.
pub open spec fn kw_walk_end(s: Seq<char>, i0: int, i: int) -> int
    decreases s.len() - i,
    when 0 <= i0 <= i <= s.len()
{
    if i < s.len() && is_name_char(s[i]) && crate::trie::kw_prefix(s.subrange(i0, i + 1)) {
        kw_walk_end(s, i0, i + 1)
    } else {
        i
    }
}

/// The reserved-word match at `i`: the walked string, when nonempty and
/// exactly a keyword, with its length.
pub open spec fn kw_match(s: Seq<char>, i: int) -> Option<(TokenType, int)> {
    let e = kw_walk_end(s, i, i);
    match crate::trie::kw_lookup(s.subrange(i, e)) {
        Some(tt) => if e > i {
            Some((tt, e - i))
        } else {
            None
        },
        None => None,
    }
}

/// The operator walk: as the keyword walk, but over any characters.
pub open spec fn op_walk_end(s: Seq<char>, i0: int, i: int) -> int
    decreases s.len() - i,
    when 0 <= i0 <= i <= s.len()
{
    if i < s.len() && crate::trie::op_prefix(s.subrange(i0, i + 1)) {
        op_walk_end(s, i0, i + 1)
    } else {
        i
    }
}

/// The operator match at `i`.
pub open spec fn op_match(s: Seq<char>, i: int) -> Option<(TokenType, int)> {
    let e = op_walk_end(s, i, i);
    match crate::trie::op_lookup(s.subrange(i, e)) {
        Some(tt) => if e > i {
            Some((tt, e - i))
        } else {
            None
        },
        None => None,
    }
}

/// The keyword walk stays within the sequence.
pub proof fn lemma_kw_walk_bounds(s: Seq<char>, i0: int, i: int)
    requires
        0 <= i0 <= i <= s.len(),
    ensures
        i <= kw_walk_end(s, i0, i) <= s.len(),
    decreases s.len() - i,
{
    if i < s.len() && is_name_char(s[i]) && crate::trie::kw_prefix(s.subrange(i0, i + 1)) {
        lemma_kw_walk_bounds(s, i0, i + 1);
    }
}

/// The operator walk stays within the sequence.
pub proof fn lemma_op_walk_bounds(s: Seq<char>, i0: int, i: int)
    requires
        0 <= i0 <= i <= s.len(),
    ensures
        i <= op_walk_end(s, i0, i) <= s.len(),
    decreases s.len() - i,
{
    if i < s.len() && crate::trie::op_prefix(s.subrange(i0, i + 1)) {
        lemma_op_walk_bounds(s, i0, i + 1);
    }
}

/// Relies on `str::chars`: the characters of a string, in order, which are
/// exactly the string's view.
#[verifier::external_body]
pub fn chars_of(s: &str) -> (r: Vec<char>)
    ensures
        r@ == s@,
{
    s.chars().collect()
}

/// One scanned token: its kind and where it lies in the source.
#[derive(Debug, Clone, Copy, PartialEq, Eq, Structural)]
pub struct Token {
    pub tokentype: TokenType,
    pub start: usize,
    pub length: usize,
    pub line: usize,
}

/// `i` clamped from above to `n` (the scanner's position may land one past
/// the end of a number lexeme at the end of the source).
pub open spec fn clamp_idx(i: int, n: int) -> int {
    if i <= n {
        i
    } else {
        n
    }
}

/// The mathematical image of a token, with unbounded positions.
pub ghost struct TokenModel {
    pub tokentype: TokenType,
    pub start: int,
    pub length: int,
    pub line: int,
}

/// The model of a scanned token.
pub open spec fn token_model(t: Token) -> TokenModel {
    TokenModel {
        tokentype: t.tokentype,
        start: t.start as int,
        length: t.length as int,
        line: t.line as int,
    }
}

/// The models of a sequence of scanned tokens.
pub open spec fn tokens_model(ts: Seq<Token>) -> Seq<TokenModel> {
    ts.map_values(|t: Token| token_model(t))
}

/// A fatal lexical error: the position and line of a character that no rule
/// recognises.
#[derive(Debug, Clone, Copy, PartialEq, Eq, Structural)]
pub struct LexicalError {
    pub index: usize,
    pub line: usize,
}

/// The mathematical image of a lexical error.
pub ghost struct LexErrorModel {
    pub index: int,
    pub line: int,
}

/// The tokens scanned from `s` starting at position `i` on line `line`:
/// whitespace is skipped (newlines counting lines), a digit starts a number
/// lexeme, a letter or underscore starts a reserved word or identifier, and
/// anything else must match an operator — otherwise scanning fails.
pub open spec fn spec_tokenize_from(s: Seq<char>, i: int, line: int) -> Result<
    Seq<TokenModel>,
    LexErrorModel,
>
    decreases s.len() - i,
    when 0 <= i <= s.len()
    via spec_tokenize_from_decreases
{
    if i >= s.len() {
        Ok(Seq::empty())
    } else {
        let c = s[i];
        if c == ' ' || c == '\t' {
            spec_tokenize_from(s, i + 1, line)
        } else if c == '\n' {
            spec_tokenize_from(s, i + 1, line + 1)
        } else if is_digit_char(c) {
            let t = TokenModel {
                tokentype: TokenType::Number(num_kind(s, i)),
                start: i,
                length: num_token_len(s, i),
                line,
            };
            let nxt = i + num_token_len(s, i);
            if nxt > s.len() {
                Ok(seq![t])
            } else {
                match spec_tokenize_from(s, nxt, line) {
                    Ok(rest) => Ok(seq![t] + rest),
                    Err(e) => Err(e),
                }
            }
        } else if is_alpha_char(c) || is_underscore_char(c) {
            match kw_match(s, i) {
                Some((tt, l)) => {
                    let t = TokenModel { tokentype: tt, start: i, length: l, line };
                    match spec_tokenize_from(s, i + l, line) {
                        Ok(rest) => Ok(seq![t] + rest),
                        Err(e) => Err(e),
                    }
                },
                None => {
                    let l = name_end(s, i) - i;
                    let t = TokenModel { tokentype: TokenType::Identifier, start: i, length: l, line };
                    match spec_tokenize_from(s, i + l, line) {
                        Ok(rest) => Ok(seq![t] + rest),
                        Err(e) => Err(e),
                    }
                },
            }
        } else {
            match op_match(s, i) {
                Some((tt, l)) => {
                    let t = TokenModel { tokentype: tt, start: i, length: l, line };
                    match spec_tokenize_from(s, i + l, line) {
                        Ok(rest) => Ok(seq![t] + rest),
                        Err(e) => Err(e),
                    }
                },
                None => Err(LexErrorModel { index: i, line }),
            }
        }
    }
}

#[via_fn]
proof fn spec_tokenize_from_decreases(s: Seq<char>, i: int, line: int) {
    if 0 <= i < s.len() {
        let c = s[i];
        if is_digit_char(c) {
            lemma_num_bounds(s, i);
        } else if is_alpha_char(c) || is_underscore_char(c) {
            lemma_kw_walk_bounds(s, i, i);
            lemma_name_end_bounds(s, i + 1);
            assert(name_end(s, i) == name_end(s, i + 1));
        } else {
            lemma_op_walk_bounds(s, i, i);
        }
    }
}

/// The end of the digit/underscore run of `chars` starting at `from`.
fn du_run_end(chars: &Vec<char>, from: usize) -> (e: usize)
    requires
        from <= chars@.len(),
    ensures
        from <= e <= chars@.len(),
        e as int == du_end(chars@, from as int),
{
    let mut k = from;
    while k < chars.len() && (is_digit(chars[k]) || is_underscore(chars[k]))
        invariant
            from <= k <= chars@.len(),
            du_end(chars@, from as int) == du_end(chars@, k as int),
        decreases chars@.len() - k,
    {
        k = k + 1;
    }
    k
}

/// The end of the name-character run of `chars` starting at `from`.
fn name_run_end(chars: &Vec<char>, from: usize) -> (e: usize)
    requires
        from <= chars@.len(),
    ensures
        from <= e <= chars@.len(),
        e as int == name_end(chars@, from as int),
{
    let mut k = from;
    while k < chars.len() && (is_digit(chars[k]) || is_alpha(chars[k]) || is_underscore(chars[k]))
        invariant
            from <= k <= chars@.len(),
            name_end(chars@, from as int) == name_end(chars@, k as int),
        decreases chars@.len() - k,
    {
        k = k + 1;
    }
    k
}

/// The lexical scanner: one pass over the source characters, producing
/// tokens, with the keyword and operator tries built once at construction.
#[derive(Debug)]
pub struct Tokenizer<'source> {
    pub source: &'source str,
    chars: Vec<char>,
    current_index: usize,
    line: usize,
    keywords: crate::trie::KeywordTree,
    operators: crate::trie::KeywordTree,
}

impl<'source> Tokenizer<'source> {
    /// The scanned characters: the source text's view.
    pub closed spec fn spec_chars(self) -> Seq<char> {
        self.chars@
    }

    /// The scanner's position.
    pub closed spec fn spec_index(self) -> int {
        self.current_index as int
    }

    /// The current source line (newlines seen so far).
    pub closed spec fn spec_line(self) -> int {
        self.line as int
    }

    /// Well-formed: the tries are correctly populated and the character
    /// buffer matches the source text.
    pub closed spec fn wf(self) -> bool {
        &&& crate::trie::kw_tree_wf(self.keywords)
        &&& crate::trie::op_tree_wf(self.operators)
        &&& self.chars@ == self.source@
    }

    /// A scanner over `source`, at its start, with freshly built tries.
    pub fn new(source: &str) -> (r: Tokenizer)
        ensures
            r.wf(),
            r.spec_chars() == source@,
            r.spec_index() == 0,
            r.spec_line() == 0,
    {
        let chars = chars_of(source);
        let (keywords, operators) = crate::trie::KeywordTree::populate();
        Tokenizer { source, chars, current_index: 0, line: 0, keywords, operators }
    }

    /// Scans the number lexeme at the current position: a digit/underscore
    /// run, an optional fraction, an optional exponent, and an optional
    /// complex suffix. The recorded length is one more than the lexeme.
    fn parse_number(&self) -> (t: Token)
        requires
            self.current_index <= self.spec_chars().len(),
            self.spec_chars().len() < usize::MAX,
    ensures
            t.tokentype == TokenType::Number(num_kind(self.spec_chars(), self.spec_index())),
            t.start == self.spec_index(),
            t.length == num_token_len(self.spec_chars(), self.spec_index()),
            t.line == self.spec_line(),
    {
        let i = self.current_index;
        let e1 = du_run_end(&self.chars, i);
        let (found_dot, e2): (bool, usize) = if e1 < self.chars.len() && self.chars[e1] == '.' {
            (true, du_run_end(&self.chars, e1 + 1))
        } else {
            (false, e1)
        };
        let e3: usize = if e2 < self.chars.len() && (self.chars[e2] == 'e' || self.chars[e2]
            == 'E') {
            let f: usize = if e2 + 1 < self.chars.len() && (self.chars[e2 + 1] == '+'
                || self.chars[e2 + 1] == '-') {
                e2 + 2
            } else {
                e2 + 1
            };
            du_run_end(&self.chars, f)
        } else {
            e2
        };
        let (found_j, e4): (bool, usize) = if e3 < self.chars.len() && (self.chars[e3] == 'j'
            || self.chars[e3] == 'J') {
            (true, e3 + 1)
        } else {
            (false, e3)
        };
        let tokentype = if found_j {
            TokenType::Number(Number::Complex)
        } else if found_dot {
            TokenType::Number(Number::Float)
        } else {
            TokenType::Number(Number::Integer)
        };
        Token { tokentype, start: i, length: e4 - i + 1, line: self.line }
    }

    /// Longest-prefix match of a reserved word at the current position: the
    /// walk follows the keyword trie while the next character is a name
    /// character, and accepts the node it stops on if that is terminal.
    fn parse_keywords(&self) -> (r: Option<Token>)
        requires
            self.wf(),
            self.current_index <= self.spec_chars().len(),
        ensures
            match r {
                Some(t) => kw_match(self.spec_chars(), self.spec_index()) == Some(
                    (t.tokentype, t.length as int),
                ) && t.start == self.spec_index() && t.line == self.spec_line(),
                None => kw_match(self.spec_chars(), self.spec_index()) is None,
            },
    {
        let ghost sv = self.chars@;
        let i0 = self.current_index;
        let n = self.chars.len();
        let mut node: &crate::trie::KeywordTree = &self.keywords;
        let mut len: usize = 0;
        loop
            invariant
                self.wf(),
                sv == self.chars@,
                sv.len() == n,
                i0 == self.current_index,
                i0 + len <= sv.len(),
                crate::trie::node_at(self.keywords, sv.subrange(i0 as int, i0 + len)) == Some(
                    *node,
                ),
                kw_walk_end(sv, i0 as int, i0 as int) == kw_walk_end(sv, i0 as int, i0 + len),
            ensures
                i0 + len == kw_walk_end(sv, i0 as int, i0 as int),
                crate::trie::node_at(self.keywords, sv.subrange(i0 as int, i0 + len)) == Some(
                    *node,
                ),
            decreases sv.len() - (i0 + len),
        {
            let cur = i0 + len;
            if cur >= self.chars.len() {
                break;
            }
            let c = self.chars[cur];
            if !(is_digit(c) || is_alpha(c) || is_underscore(c)) {
                break;
            }
            let ghost path = sv.subrange(i0 as int, cur as int);
            proof {
                crate::trie::lemma_node_at_snoc(self.keywords, path, c);
                assert(path.push(c) =~= sv.subrange(i0 as int, cur + 1));
            }
            match crate::trie::child_get(node, c) {
                None => {
                    proof {
                        assert(!crate::trie::trie_has(self.keywords, sv.subrange(
                            i0 as int,
                            cur + 1,
                        )));
                        assert(!crate::trie::kw_prefix(sv.subrange(i0 as int, cur + 1)));
                    }
                    break;
                },
                Some(next) => {
                    proof {
                        assert(crate::trie::trie_has(self.keywords, sv.subrange(
                            i0 as int,
                            cur + 1,
                        )));
                        assert(crate::trie::kw_prefix(sv.subrange(i0 as int, cur + 1)));
                    }
                    node = next;
                    len = len + 1;
                },
            }
        }
        let ghost walked = sv.subrange(i0 as int, i0 + len);
        proof {
            assert(crate::trie::trie_tok(self.keywords, walked) == crate::trie::kw_lookup(walked));
        }
        if len == 0 {
            return None;
        }
        match node.token {
            None => None,
            Some(tt) => Some(Token { tokentype: tt, start: i0, length: len, line: self.line }),
        }
    }

    /// Longest-prefix match of an operator at the current position: as the
    /// keyword match, but over any characters.
    fn parse_operators(&self) -> (r: Option<Token>)
        requires
            self.wf(),
            self.current_index <= self.spec_chars().len(),
        ensures
            match r {
                Some(t) => op_match(self.spec_chars(), self.spec_index()) == Some(
                    (t.tokentype, t.length as int),
                ) && t.start == self.spec_index() && t.line == self.spec_line(),
                None => op_match(self.spec_chars(), self.spec_index()) is None,
            },
    {
        let ghost sv = self.chars@;
        let i0 = self.current_index;
        let n = self.chars.len();
        let mut node: &crate::trie::KeywordTree = &self.operators;
        let mut len: usize = 0;
        loop
            invariant
                self.wf(),
                sv == self.chars@,
                sv.len() == n,
                i0 == self.current_index,
                i0 + len <= sv.len(),
                crate::trie::node_at(self.operators, sv.subrange(i0 as int, i0 + len)) == Some(
                    *node,
                ),
                op_walk_end(sv, i0 as int, i0 as int) == op_walk_end(sv, i0 as int, i0 + len),
            ensures
                i0 + len == op_walk_end(sv, i0 as int, i0 as int),
                crate::trie::node_at(self.operators, sv.subrange(i0 as int, i0 + len)) == Some(
                    *node,
                ),
            decreases sv.len() - (i0 + len),
        {
            let cur = i0 + len;
            if cur >= self.chars.len() {
                break;
            }
            let c = self.chars[cur];
            let ghost path = sv.subrange(i0 as int, cur as int);
            proof {
                crate::trie::lemma_node_at_snoc(self.operators, path, c);
                assert(path.push(c) =~= sv.subrange(i0 as int, cur + 1));
            }
            match crate::trie::child_get(node, c) {
                None => {
                    proof {
                        assert(!crate::trie::trie_has(self.operators, sv.subrange(
                            i0 as int,
                            cur + 1,
                        )));
                        assert(!crate::trie::op_prefix(sv.subrange(i0 as int, cur + 1)));
                    }
                    break;
                },
                Some(next) => {
                    proof {
                        assert(crate::trie::trie_has(self.operators, sv.subrange(
                            i0 as int,
                            cur + 1,
                        )));
                        assert(crate::trie::op_prefix(sv.subrange(i0 as int, cur + 1)));
                    }
                    node = next;
                    len = len + 1;
                },
            }
        }
        let ghost walked = sv.subrange(i0 as int, i0 + len);
        proof {
            assert(crate::trie::trie_tok(self.operators, walked) == crate::trie::op_lookup(
                walked,
            ));
        }
        if len == 0 {
            return None;
        }
        match node.token {
            None => None,
            Some(tt) => Some(Token { tokentype: tt, start: i0, length: len, line: self.line }),
        }
    }

    /// Scans the identifier at the current position: the full run of name
    /// characters.
    fn parse_identifier(&self) -> (t: Token)
        requires
            self.current_index <= self.spec_chars().len(),
        ensures
            t.tokentype == TokenType::Identifier,
            t.start == self.spec_index(),
            t.length == name_end(self.spec_chars(), self.spec_index()) - self.spec_index(),
            t.line == self.spec_line(),
    {
        let i = self.current_index;
        let e = name_run_end(&self.chars, i);
        Token { tokentype: TokenType::Identifier, start: i, length: e - i, line: self.line }
    }

    /// Scans the whole source into tokens, or fails on the first character
    /// that neither whitespace, number, name, nor operator rules accept.
    pub fn tokenize(&mut self) -> (r: Result<Vec<Token>, LexicalError>)
        requires
            old(self).wf(),
            old(self).spec_index() <= old(self).spec_chars().len(),
            old(self).spec_chars().len() < usize::MAX,
            old(self).spec_line() + old(self).spec_chars().len() < usize::MAX,
        ensures
            match spec_tokenize_from(
                old(self).spec_chars(),
                old(self).spec_index(),
                old(self).spec_line(),
            ) {
                Ok(ms) => r matches Ok(ts) && tokens_model(ts@) == ms,
                Err(m) => r matches Err(e) && e.index == m.index && e.line == m.line,
            },
    {
        let ghost sv = self.chars@;
        let ghost i0 = self.current_index as int;
        let ghost l0 = self.line as int;
        let ghost full = spec_tokenize_from(sv, i0, l0);
        let mut tokens: Vec<Token> = Vec::new();
        while self.current_index < self.chars.len()
            invariant
                self.wf(),
                sv == self.chars@,
                sv == old(self).spec_chars(),
                i0 == old(self).spec_index(),
                l0 == old(self).spec_line(),
                sv.len() < usize::MAX,
                full == spec_tokenize_from(sv, i0, l0),
                ({
                    let cur = clamp_idx(self.current_index as int, sv.len() as int);
                    self.line as int + (sv.len() - cur) < usize::MAX
                        && match spec_tokenize_from(sv, cur, self.line as int) {
                        Ok(rest) => full == Ok::<Seq<TokenModel>, LexErrorModel>(
                            tokens_model(tokens@) + rest,
                        ),
                        Err(e) => full == Err::<Seq<TokenModel>, LexErrorModel>(e),
                    }
                }),
            decreases sv.len() - clamp_idx(self.current_index as int, sv.len() as int),
        {
            let ghost pre_tokens = tokens@;
            let ghost cur = self.current_index as int;
            let ghost curline = self.line as int;
            let c = self.chars[self.current_index];
            if c == ' ' || c == '\t' {
                self.current_index = self.current_index + 1;
            } else if c == '\n' {
                self.line = self.line + 1;
                self.current_index = self.current_index + 1;
            } else if is_digit(c) {
                let t = self.parse_number();
                proof {
                    lemma_num_bounds(sv, cur);
                }
                tokens.push(t);
                self.current_index = self.current_index + t.length;
                proof {
                    lemma_map_push(pre_tokens, t);
                    let tm = TokenModel {
                        tokentype: TokenType::Number(num_kind(sv, cur)),
                        start: cur,
                        length: num_token_len(sv, cur),
                        line: curline,
                    };
                    assert(token_model(t) == tm);
                    let nxt = cur + num_token_len(sv, cur);
                    if nxt > sv.len() {
                        assert(spec_tokenize_from(sv, cur, curline) == Ok::<
                            Seq<TokenModel>,
                            LexErrorModel,
                        >(seq![tm]));
                        assert(tokens_model(pre_tokens) + seq![tm] =~= tokens_model(tokens@)
                            + Seq::<TokenModel>::empty());
                    } else {
                        lemma_cons_assoc(pre_tokens, tm, tokens@, sv, nxt, curline);
                    }
                }
            } else if is_alpha(c) || is_underscore(c) {
                match self.parse_keywords() {
                    Some(t) => {
                        proof {
                            lemma_kw_walk_bounds(sv, cur, cur);
                        }
                        tokens.push(t);
                        self.current_index = self.current_index + t.length;
                        proof {
                            lemma_map_push(pre_tokens, t);
                            let tm = TokenModel {
                                tokentype: t.tokentype,
                                start: cur,
                                length: t.length as int,
                                line: curline,
                            };
                            lemma_cons_assoc(pre_tokens, tm, tokens@, sv, cur + t.length, curline);
                        }
                    },
                    None => {
                        let t = self.parse_identifier();
                        proof {
                            lemma_name_end_bounds(sv, cur + 1);
                            assert(name_end(sv, cur) == name_end(sv, cur + 1));
                        }
                        tokens.push(t);
                        self.current_index = self.current_index + t.length;
                        proof {
                            lemma_map_push(pre_tokens, t);
                            let tm = TokenModel {
                                tokentype: TokenType::Identifier,
                                start: cur,
                                length: t.length as int,
                                line: curline,
                            };
                            lemma_cons_assoc(pre_tokens, tm, tokens@, sv, cur + t.length, curline);
                        }
                    },
                }
            } else {
                match self.parse_operators() {
                    Some(t) => {
                        proof {
                            lemma_op_walk_bounds(sv, cur, cur);
                        }
                        tokens.push(t);
                        self.current_index = self.current_index + t.length;
                        proof {
                            lemma_map_push(pre_tokens, t);
                            let tm = TokenModel {
                                tokentype: t.tokentype,
                                start: cur,
                                length: t.length as int,
                                line: curline,
                            };
                            lemma_cons_assoc(pre_tokens, tm, tokens@, sv, cur + t.length, curline);
                        }
                    },
                    None => {
                        proof {
                            assert(clamp_idx(cur, sv.len() as int) == cur);
                            assert(op_match(sv, cur) is None);
                            assert(spec_tokenize_from(sv, cur, curline) == Err::<
                                Seq<TokenModel>,
                                LexErrorModel,
                            >(LexErrorModel { index: cur, line: curline }));
                            assert(full == Err::<Seq<TokenModel>, LexErrorModel>(
                                LexErrorModel { index: cur, line: curline },
                            ));
                            assert(self.current_index as int == cur && self.line as int
                                == curline);
                            assert(spec_tokenize_from(
                                old(self).spec_chars(),
                                old(self).spec_index(),
                                old(self).spec_line(),
                            ) == Err::<Seq<TokenModel>, LexErrorModel>(
                                LexErrorModel { index: cur, line: curline },
                            ));
                        }
                        return Err(LexicalError { index: self.current_index, line: self.line });
                    },
                }
            }
        }
        proof {
            assert(tokens_model(tokens@) + Seq::<TokenModel>::empty() =~= tokens_model(tokens@));
        }
        Ok(tokens)
    }
}

/// Mapping a pushed sequence: the image of `s + [t]` is the image of `s`
/// followed by the image of `t`.
proof fn lemma_map_push(s: Seq<Token>, t: Token)
    ensures
        tokens_model(s.push(t)) =~= tokens_model(s).push(token_model(t)),
{
}

/// Regrouping one token against the remaining scan: if the scan at `nxt`
/// continues the scan that produced `done + [tm]`, appending associates.
proof fn lemma_cons_assoc(
    pre: Seq<Token>,
    tm: TokenModel,
    now: Seq<Token>,
    s: Seq<char>,
    nxt: int,
    line: int,
)
    requires
        tokens_model(now) =~= tokens_model(pre).push(tm),
        0 <= nxt <= s.len(),
    ensures
        match spec_tokenize_from(s, nxt, line) {
            Ok(rest) => tokens_model(pre) + (seq![tm] + rest) =~= tokens_model(now) + rest,
            Err(e) => true,
        },
{
    match spec_tokenize_from(s, nxt, line) {
        Ok(rest) => {
            assert(tokens_model(pre) + (seq![tm] + rest) =~= tokens_model(now) + rest);
        },
        Err(_) => {},
    }
}


/// A digit/underscore run reads only the window it lies in: inside the
/// subrange `[a, b)` of `s`, the run from offset `k` ends at the same place.
proof fn lemma_du_end_sub(s: Seq<char>, a: int, b: int, k: int)
    requires
        0 <= a,
        0 <= k,
        a + k <= b <= s.len(),
        du_end(s, a + k) <= b,
    ensures
        du_end(s.subrange(a, b), k) == du_end(s, a + k) - a,
    decreases b - (a + k),
{
    let sub = s.subrange(a, b);
    lemma_du_end_bounds(s, a + k);
    if a + k < s.len() && (is_digit_char(s[a + k]) || is_underscore_char(s[a + k])) {
        lemma_du_end_bounds(s, a + k + 1);
        assert(du_end(s, a + k) == du_end(s, a + k + 1));
        assert(k < sub.len());
        assert(sub[k] == s[a + k]);
        lemma_du_end_sub(s, a, b, k + 1);
    } else {
        if k < sub.len() {
            assert(sub[k] == s[a + k]);
        }
    }
}

/// Tokenizer round-trip, lexeme level: re-scanning the recorded span of a
/// number token (its lexeme and the character that ended it, clipped to the
/// source) in isolation finds the same numeric kind and the same length.
pub proof fn lemma_number_rescan(s: Seq<char>, i: int)
    requires
        0 <= i <= s.len(),
    ensures
        ({
            let b = clamp_idx(num_lex_end(s, i) + 1, s.len() as int);
            let t = s.subrange(i, b);
            num_kind(t, 0) == num_kind(s, i) && num_token_len(t, 0) == num_token_len(s, i)
        }),
{
    lemma_num_bounds(s, i);
    let b = clamp_idx(num_lex_end(s, i) + 1, s.len() as int);
    let t = s.subrange(i, b);
    let e1 = num_int_end(s, i);
    let e2 = num_frac_end(s, i);
    let e3 = num_exp_end(s, i);
    let lexend = num_lex_end(s, i);

    lemma_du_end_sub(s, i, b, 0);
    assert(num_int_end(t, 0) == e1 - i);
    if num_has_dot(s, i) {
        assert(t[e1 - i] == s[e1]);
        assert(num_has_dot(t, 0));
        lemma_du_end_sub(s, i, b, e1 + 1 - i);
        assert(num_frac_end(t, 0) == e2 - i);
    } else {
        if e1 < s.len() && e1 < b {
            assert(t[e1 - i] == s[e1]);
        }
        assert(!num_has_dot(t, 0));
        assert(num_frac_end(t, 0) == e2 - i);
    }
    if e2 < s.len() && (s[e2] == 'e' || s[e2] == 'E') {
        assert(t[e2 - i] == s[e2]);
        let f = if e2 + 1 < s.len() && (s[e2 + 1] == '+' || s[e2 + 1] == '-') {
            e2 + 2
        } else {
            e2 + 1
        };
        lemma_du_end_bounds(s, f);
        if e2 + 1 < s.len() && (s[e2 + 1] == '+' || s[e2 + 1] == '-') {
            assert(e2 + 1 < b);
            assert(t[e2 + 1 - i] == s[e2 + 1]);
        } else {
            if e2 + 1 < b {
                assert(t[e2 + 1 - i] == s[e2 + 1]);
            }
        }
        lemma_du_end_sub(s, i, b, f - i);
        assert(num_exp_end(t, 0) == e3 - i);
    } else {
        if e2 < s.len() && e2 < b {
            assert(t[e2 - i] == s[e2]);
        }
        assert(num_exp_end(t, 0) == e3 - i);
    }
    if num_has_j(s, i) {
        assert(t[e3 - i] == s[e3]);
        assert(num_has_j(t, 0));
    } else {
        if e3 < s.len() && e3 < b {
            assert(t[e3 - i] == s[e3]);
        }
        assert(!num_has_j(t, 0));
    }
    assert(num_lex_end(t, 0) == lexend - i);
}

/// Tokenizer round-trip: a number token's recorded span, re-scanned in
/// isolation, tokenizes to exactly one token of the same numeric kind (and
/// the same recorded length). Number tokens arise exactly at digit
/// positions, so this covers every numeric lexeme the scanner produces.
pub proof fn lemma_tokenizer_round_trip(s: Seq<char>, i: int, line2: int)
    requires
        0 <= i < s.len(),
        is_digit_char(s[i]),
    ensures
        ({
            let b = clamp_idx(num_lex_end(s, i) + 1, s.len() as int);
            let t = s.subrange(i, b);
            spec_tokenize_from(t, 0, line2) == Ok::<Seq<TokenModel>, LexErrorModel>(
                seq![
                    TokenModel {
                        tokentype: TokenType::Number(num_kind(s, i)),
                        start: 0,
                        length: num_token_len(s, i),
                        line: line2,
                    },
                ],
            )
        }),
{
    lemma_num_bounds(s, i);
    lemma_number_rescan(s, i);
    let b = clamp_idx(num_lex_end(s, i) + 1, s.len() as int);
    let t = s.subrange(i, b);
    assert(t[0] == s[i]);
    lemma_num_bounds(t, 0);
    let tm = TokenModel {
        tokentype: TokenType::Number(num_kind(t, 0)),
        start: 0,
        length: num_token_len(t, 0),
        line: line2,
    };
    let nxt = num_token_len(t, 0);
    assert(nxt >= t.len());
    if nxt > t.len() {
        assert(spec_tokenize_from(t, 0, line2) == Ok::<Seq<TokenModel>, LexErrorModel>(seq![tm]));
    } else {
        assert(spec_tokenize_from(t, nxt, line2) == Ok::<Seq<TokenModel>, LexErrorModel>(
            Seq::empty(),
        ));
        assert(seq![tm] + Seq::<TokenModel>::empty() =~= seq![tm]);
    }
}

/// Every number token the scanner yields records a number scan: it starts
/// at a digit of the source, and its kind and recorded length are the number
/// grammar's at that start.
pub proof fn lemma_number_tokens_scanned(s: Seq<char>, i: int, line: int, k: int)
    requires
        0 <= i <= s.len(),
        spec_tokenize_from(s, i, line) matches Ok(_),
        0 <= k < (spec_tokenize_from(s, i, line)->Ok_0).len(),
        (spec_tokenize_from(s, i, line)->Ok_0)[k].tokentype matches TokenType::Number(_),
    ensures
        ({
            let t = (spec_tokenize_from(s, i, line)->Ok_0)[k];
            &&& 0 <= t.start < s.len()
            &&& is_digit_char(s[t.start])
            &&& t.tokentype == TokenType::Number(num_kind(s, t.start))
            &&& t.length == num_token_len(s, t.start)
        }),
    decreases s.len() - i,
{
    if i < s.len() {
        let c = s[i];
        if c == ' ' || c == '\t' {
            lemma_number_tokens_scanned(s, i + 1, line, k);
        } else if c == '\n' {
            lemma_number_tokens_scanned(s, i + 1, line + 1, k);
        } else if is_digit_char(c) {
            lemma_num_bounds(s, i);
            let nxt = i + num_token_len(s, i);
            if nxt > s.len() {
            } else {
                if k > 0 {
                    lemma_number_tokens_scanned(s, nxt, line, k - 1);
                }
            }
        } else if is_alpha_char(c) || is_underscore_char(c) {
            match kw_match(s, i) {
                Some((tt, l)) => {
                    lemma_kw_walk_bounds(s, i, i);
                    if k > 0 {
                        lemma_number_tokens_scanned(s, i + l, line, k - 1);
                    }
                },
                None => {
                    lemma_name_end_bounds(s, i + 1);
                    assert(name_end(s, i) == name_end(s, i + 1));
                    if k > 0 {
                        lemma_number_tokens_scanned(s, i + (name_end(s, i) - i), line, k - 1);
                    }
                },
            }
        } else {
            match op_match(s, i) {
                Some((tt, l)) => {
                    lemma_op_walk_bounds(s, i, i);
                    if k > 0 {
                        lemma_number_tokens_scanned(s, i + l, line, k - 1);
                    }
                },
                None => {},
            }
        }
    }
}

/// Tokenizer round-trip over the scanner's own output: any numeric token it
/// yields, re-scanned over its recorded span in isolation (clipped to the
/// source), gives exactly one token of the same numeric kind and the same
/// recorded length.
pub proof fn lemma_output_token_rescan(s: Seq<char>, k: int, line2: int)
    requires
        spec_tokenize_from(s, 0, 0) matches Ok(_),
        0 <= k < (spec_tokenize_from(s, 0, 0)->Ok_0).len(),
        (spec_tokenize_from(s, 0, 0)->Ok_0)[k].tokentype matches TokenType::Number(_),
    ensures
        ({
            let t = (spec_tokenize_from(s, 0, 0)->Ok_0)[k];
            let sub = s.subrange(t.start, clamp_idx(t.start + t.length, s.len() as int));
            spec_tokenize_from(sub, 0, line2) == Ok::<Seq<TokenModel>, LexErrorModel>(
                seq![
                    TokenModel {
                        tokentype: t.tokentype,
                        start: 0,
                        length: t.length,
                        line: line2,
                    },
                ],
            )
        }),
{
    lemma_number_tokens_scanned(s, 0, 0, k);
    let t = (spec_tokenize_from(s, 0, 0)->Ok_0)[k];
    lemma_num_bounds(s, t.start);
    assert(t.start + t.length == num_lex_end(s, t.start) + 1);
    lemma_tokenizer_round_trip(s, t.start, line2);
}

impl Operator {
    /// Whether the operator is one of the binary arithmetic or comparison
    /// operators that `doit` applies.
    pub open spec fn is_binary_op(self) -> bool {
        match self {
            Operator::Plus | Operator::Minus | Operator::Star | Operator::StarStar
                | Operator::Slash | Operator::SlashSlash | Operator::EqualEqual
                | Operator::NotEqual | Operator::Less | Operator::LessEqual | Operator::Greater
                | Operator::GreaterEqual => true,
            _ => false,
        }
    }

    /// Applies the binary operator to two numeric values. Exponentiation is
    /// computed by the supplied float and complex power routines (the one
    /// operation the library cannot perform itself); `a > b` and `a >= b`
    /// are the mirrored `<` and `<=`.
    pub fn doit<FP: Fn(u64, u64) -> u64, CP: Fn(u64, u64, u64, u64) -> (u64, u64)>(
        &self,
        a: Value,
        b: Value,
        fpow: &FP,
        cpow: &CP,
    ) -> (r: Result<Value, RuntimeError>)
        requires
            self.is_binary_op(),
            forall|x: u64, y: u64| fpow.requires((x, y)),
            forall|x: u64, y: u64, z: u64, w: u64| cpow.requires((x, y, z, w)),
        ensures
            match self {
                Operator::Plus => r == crate::value::spec_add(a, b),
                Operator::Minus => r == crate::value::spec_sub(a, b),
                Operator::Star => r == crate::value::spec_mul(a, b),
                Operator::StarStar => crate::value::spec_pow_exact(a, b, *fpow, *cpow, r)
                    && crate::value::spec_pow_result(a, b, r),
                Operator::Slash => r == crate::value::spec_div(a, b),
                Operator::SlashSlash => r == crate::value::spec_int_division(a, b),
                Operator::EqualEqual => r == crate::value::spec_value_eq(a, b),
                Operator::NotEqual => r == crate::value::spec_value_neq(a, b),
                Operator::Less => r == crate::value::spec_value_lt(a, b),
                Operator::LessEqual => r == crate::value::spec_value_le(a, b),
                Operator::Greater => r == crate::value::spec_value_lt(b, a),
                Operator::GreaterEqual => r == crate::value::spec_value_le(b, a),
                _ => true,
            },
    {
        match self {
            Operator::Plus => a.add(b),
            Operator::Minus => a.sub(b),
            Operator::Star => a.mul(b),
            Operator::StarStar => a.pow(b, fpow, cpow),
            Operator::Slash => a.div(b),
            Operator::SlashSlash => a.int_division(b),
            Operator::EqualEqual => a.value_eq(b),
            Operator::NotEqual => a.value_neq(b),
            Operator::Less => a.value_lt(b),
            Operator::LessEqual => a.value_le(b),
            Operator::Greater => b.value_lt(a),
            Operator::GreaterEqual => b.value_le(a),
            _ => Err(RuntimeError::OperandsNotNumbers),
        }
    }
}

} // verus!
