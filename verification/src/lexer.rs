//! Tokens and the lexer that cuts a source text into them.

use vstd::prelude::*;
use crate::text::{
    alphabetic, chars_of, is_float_literal, is_glyph, is_number_text,
    is_single_char_token, split_whitespace, texts, whitespace_chunks,
};

verus! {

/// The operator symbols. The first eight are built in; the last five mean
/// nothing until an overload declares them.
#[derive(Debug, Clone, Copy, PartialEq, Eq, Hash, Structural)]
pub enum Ops {
    Plus,
    Minus,
    Mult,
    Div,
    Assign,
    Neq,
    Lt,
    Gt,
    Modulo,
    Amp,
    Pipe,
    Caret,
    Colon,
}

impl Ops {
    /// The character that writes this operator.
    pub open spec fn symbol(self) -> char {
        match self {
            Ops::Plus => '+',
            Ops::Minus => '-',
            Ops::Mult => '*',
            Ops::Div => '/',
            Ops::Assign => '=',
            Ops::Neq => '!',
            Ops::Lt => '<',
            Ops::Gt => '>',
            Ops::Modulo => '%',
            Ops::Amp => '&',
            Ops::Pipe => '|',
            Ops::Caret => '^',
            Ops::Colon => ':',
        }
    }

    /// This operator as source text.
    pub fn as_str(&self) -> (r: &'static str)
        ensures
            r@ == seq![self.symbol()],
    {
        proof {
            reveal_strlit("+");
            reveal_strlit("-");
            reveal_strlit("*");
            reveal_strlit("/");
            reveal_strlit("=");
            reveal_strlit("!");
            reveal_strlit("<");
            reveal_strlit(">");
            reveal_strlit("%");
            reveal_strlit("&");
            reveal_strlit("|");
            reveal_strlit("^");
            reveal_strlit(":");
        }
        let r = match self {
            Ops::Plus => "+",
            Ops::Minus => "-",
            Ops::Mult => "*",
            Ops::Div => "/",
            Ops::Assign => "=",
            Ops::Neq => "!",
            Ops::Lt => "<",
            Ops::Gt => ">",
            Ops::Modulo => "%",
            Ops::Amp => "&",
            Ops::Pipe => "|",
            Ops::Caret => "^",
            Ops::Colon => ":",
        };
        r
    }
}

/// A token. Names, literals and unknown pieces are slices of the source.
#[derive(Debug, Clone, Copy, PartialEq)]
pub enum Token<'src> {
    FuncDef,
    Extern,
    If,
    Then,
    Else,
    For,
    In,
    Var,
    UnaryOverload,
    BinaryOverload,
    Identifier(&'src str),
    Number(&'src str),
    Operator(Ops),
    OpenParen,
    ClosedParen,
    Comma,
    Semicolon,
    Unknown(&'src str),
}

/// What a token is, with the text it holds as a sequence of characters.
pub ghost enum TokenView {
    FuncDef,
    Extern,
    If,
    Then,
    Else,
    For,
    In,
    Var,
    UnaryOverload,
    BinaryOverload,
    Identifier(Seq<char>),
    Number(Seq<char>),
    Operator(Ops),
    OpenParen,
    ClosedParen,
    Comma,
    Semicolon,
    Unknown(Seq<char>),
}

impl<'src> View for Token<'src> {
    type V = TokenView;

    open spec fn view(&self) -> TokenView {
        match *self {
            Token::FuncDef => TokenView::FuncDef,
            Token::Extern => TokenView::Extern,
            Token::If => TokenView::If,
            Token::Then => TokenView::Then,
            Token::Else => TokenView::Else,
            Token::For => TokenView::For,
            Token::In => TokenView::In,
            Token::Var => TokenView::Var,
            Token::UnaryOverload => TokenView::UnaryOverload,
            Token::BinaryOverload => TokenView::BinaryOverload,
            Token::Identifier(s) => TokenView::Identifier(s@),
            Token::Number(s) => TokenView::Number(s@),
            Token::Operator(op) => TokenView::Operator(op),
            Token::OpenParen => TokenView::OpenParen,
            Token::ClosedParen => TokenView::ClosedParen,
            Token::Comma => TokenView::Comma,
            Token::Semicolon => TokenView::Semicolon,
            Token::Unknown(s) => TokenView::Unknown(s@),
        }
    }
}

/// The token that a glyph stands for.
pub open spec fn glyph_token(c: char) -> TokenView {
    if c == '(' {
        TokenView::OpenParen
    } else if c == ')' {
        TokenView::ClosedParen
    } else if c == ',' {
        TokenView::Comma
    } else if c == ';' {
        TokenView::Semicolon
    } else if c == '+' {
        TokenView::Operator(Ops::Plus)
    } else if c == '-' {
        TokenView::Operator(Ops::Minus)
    } else if c == '*' {
        TokenView::Operator(Ops::Mult)
    } else if c == '/' {
        TokenView::Operator(Ops::Div)
    } else if c == '=' {
        TokenView::Operator(Ops::Assign)
    } else if c == '!' {
        TokenView::Operator(Ops::Neq)
    } else if c == '<' {
        TokenView::Operator(Ops::Lt)
    } else if c == '>' {
        TokenView::Operator(Ops::Gt)
    } else if c == '%' {
        TokenView::Operator(Ops::Modulo)
    } else if c == '&' {
        TokenView::Operator(Ops::Amp)
    } else if c == '|' {
        TokenView::Operator(Ops::Pipe)
    } else if c == '^' {
        TokenView::Operator(Ops::Caret)
    } else {
        TokenView::Operator(Ops::Colon)
    }
}

/// The token that a piece of text is, given whether its first character is
/// alphabetic: a reserved word, a glyph, a numeric literal, a name, or
/// unknown, tried in this order.
pub open spec fn token_with(text: Seq<char>, alphabetic: bool) -> TokenView {
    if text == "def"@ {
        TokenView::FuncDef
    } else if text == "extern"@ {
        TokenView::Extern
    } else if text == "if"@ {
        TokenView::If
    } else if text == "then"@ {
        TokenView::Then
    } else if text == "else"@ {
        TokenView::Else
    } else if text == "for"@ {
        TokenView::For
    } else if text == "in"@ {
        TokenView::In
    } else if text == "var"@ {
        TokenView::Var
    } else if text == "unary"@ {
        TokenView::UnaryOverload
    } else if text == "binary"@ {
        TokenView::BinaryOverload
    } else if text.len() == 1 && is_glyph(text[0]) {
        glyph_token(text[0])
    } else if is_float_literal(text) {
        TokenView::Number(text)
    } else if alphabetic {
        TokenView::Identifier(text)
    } else {
        TokenView::Unknown(text)
    }
}

/// The token that a piece of text is.
pub open spec fn token_of(text: Seq<char>) -> TokenView {
    token_with(text, text.len() > 0 && alphabetic(text[0]))
}

fn glyph(c: char) -> (t: Token<'static>)
    requires
        is_glyph(c),
    ensures
        t@ == glyph_token(c),
{
    if c == '(' {
        Token::OpenParen
    } else if c == ')' {
        Token::ClosedParen
    } else if c == ',' {
        Token::Comma
    } else if c == ';' {
        Token::Semicolon
    } else if c == '+' {
        Token::Operator(Ops::Plus)
    } else if c == '-' {
        Token::Operator(Ops::Minus)
    } else if c == '*' {
        Token::Operator(Ops::Mult)
    } else if c == '/' {
        Token::Operator(Ops::Div)
    } else if c == '=' {
        Token::Operator(Ops::Assign)
    } else if c == '!' {
        Token::Operator(Ops::Neq)
    } else if c == '<' {
        Token::Operator(Ops::Lt)
    } else if c == '>' {
        Token::Operator(Ops::Gt)
    } else if c == '%' {
        Token::Operator(Ops::Modulo)
    } else if c == '&' {
        Token::Operator(Ops::Amp)
    } else if c == '|' {
        Token::Operator(Ops::Pipe)
    } else if c == '^' {
        Token::Operator(Ops::Caret)
    } else {
        Token::Operator(Ops::Colon)
    }
}

/// Whether `s` spells the reserved word `word`.
fn is_word(s: &Vec<char>, word: &str) -> (r: bool)
    ensures
        r == (s@ == word@),
{
    let w = chars_of(word);
    if s.len() != w.len() {
        return false;
    }
    let mut i: usize = 0;
    while i < s.len()
        invariant
            s.len() == w.len(),
            w@ == word@,
            i <= s.len(),
            forall|j: int| 0 <= j < i ==> s@[j] == w@[j],
        decreases s.len() - i,
    {
        if s[i] != w[i] {
            return false;
        }
        i += 1;
    }
    assert(s@ =~= word@);
    true
}

/// The token for `text`, where `alphabetic` says whether its first
/// character is alphabetic.
pub fn token_for<'src>(text: &'src str, alphabetic: bool) -> (t: Token<'src>)
    ensures
        t@ == token_with(text@, alphabetic),
{
    let s = chars_of(text);
    if is_word(&s, "def") {
        Token::FuncDef
    } else if is_word(&s, "extern") {
        Token::Extern
    } else if is_word(&s, "if") {
        Token::If
    } else if is_word(&s, "then") {
        Token::Then
    } else if is_word(&s, "else") {
        Token::Else
    } else if is_word(&s, "for") {
        Token::For
    } else if is_word(&s, "in") {
        Token::In
    } else if is_word(&s, "var") {
        Token::Var
    } else if is_word(&s, "unary") {
        Token::UnaryOverload
    } else if is_word(&s, "binary") {
        Token::BinaryOverload
    } else if s.len() == 1 && is_single_char_token(s[0]) {
        glyph(s[0])
    } else if is_number_text(text) {
        Token::Number(text)
    } else if alphabetic {
        Token::Identifier(text)
    } else {
        Token::Unknown(text)
    }
}

/// The token for a piece of source text.
pub fn tokenize<'src>(text: &'src str) -> (t: Token<'src>)
    ensures
        t@ == token_of(text@),
{
    let n = text.unicode_len();
    let alphabetic = n > 0 && text.get_char(0).is_alphabetic();
    token_for(text, alphabetic)
}

/// How long the first piece of a chunk is: one character if the chunk
/// starts with a glyph, else all that stands before the first glyph.
pub open spec fn piece_len(chunk: Seq<char>) -> int
    decreases chunk.len(),
{
    if chunk.len() == 0 {
        0
    } else if is_glyph(chunk[0]) {
        1
    } else if chunk.len() > 1 && !is_glyph(chunk[1]) {
        1 + piece_len(chunk.skip(1))
    } else {
        1
    }
}

/// The first piece of a chunk is not empty and lies within the chunk; it
/// is a glyph, or holds no glyph and ends at one or at the end of the chunk.
pub proof fn lemma_piece_len(chunk: Seq<char>)
    requires
        chunk.len() > 0,
    ensures
        1 <= piece_len(chunk) <= chunk.len(),
        is_glyph(chunk[0]) ==> piece_len(chunk) == 1,
        !is_glyph(chunk[0]) ==> forall|j: int| 0 <= j < piece_len(chunk) ==> !is_glyph(#[trigger] chunk[j]),
        piece_len(chunk) < chunk.len() && !is_glyph(chunk[0]) ==> is_glyph(chunk[piece_len(chunk)]),
    decreases chunk.len(),
{
    if !is_glyph(chunk[0]) && chunk.len() > 1 && !is_glyph(chunk[1]) {
        let rest = chunk.skip(1);
        lemma_piece_len(rest);
        assert forall|j: int| 0 <= j < piece_len(chunk) implies !is_glyph(#[trigger] chunk[j]) by {
            if j > 0 {
                assert(chunk[j] == rest[j - 1]);
            }
        }
    }
}

/// The tokens of one chunk, a text without white space: its first piece,
/// then the tokens of what is left.
pub open spec fn tokens_of_chunk(chunk: Seq<char>) -> Seq<TokenView>
    decreases chunk.len(),
{
    if chunk.len() == 0 {
        Seq::empty()
    } else {
        proof {
            lemma_piece_len(chunk);
        }
        seq![token_of(chunk.take(piece_len(chunk)))] + tokens_of_chunk(
            chunk.skip(piece_len(chunk)),
        )
    }
}

/// The tokens of a list of chunks, chunk after chunk.
pub open spec fn tokens_of_chunks(chunks: Seq<Seq<char>>) -> Seq<TokenView>
    decreases chunks.len(),
{
    if chunks.len() == 0 {
        Seq::empty()
    } else {
        tokens_of_chunk(chunks[0]) + tokens_of_chunks(chunks.skip(1))
    }
}

/// The tokens of a source text.
pub open spec fn tokens_of(source: Seq<char>) -> Seq<TokenView> {
    tokens_of_chunks(whitespace_chunks(source))
}

/// The views of a list of tokens.
pub open spec fn token_views(tokens: Seq<Token>) -> Seq<TokenView> {
    Seq::new(tokens.len(), |i: int| tokens[i]@)
}

/// The view of a token that may be absent.
pub open spec fn token_view_opt(t: Option<Token>) -> Option<TokenView> {
    match t {
        Some(t) => Some(t@),
        None => None,
    }
}

/// The first of a sequence of tokens, if there is one.
pub open spec fn first_of(tokens: Seq<TokenView>) -> Option<TokenView> {
    if tokens.len() > 0 {
        Some(tokens[0])
    } else {
        None
    }
}

/// Measures the first piece of a chunk.
fn cut(chunk: &Vec<char>) -> (k: usize)
    requires
        chunk.len() > 0,
    ensures
        k == piece_len(chunk@),
        1 <= k <= chunk.len(),
{
    proof {
        lemma_piece_len(chunk@);
    }
    if is_single_char_token(chunk[0]) {
        return 1;
    }
    let mut k: usize = 1;
    assert(chunk@.skip(0) =~= chunk@);
    while k < chunk.len() && !is_single_char_token(chunk[k])
        invariant
            1 <= k <= chunk.len(),
            !is_glyph(chunk@[0]),
            piece_len(chunk@) == (k - 1) + piece_len(chunk@.skip(k - 1)),
            !is_glyph(chunk@[k - 1]),
        decreases chunk.len() - k,
    {
        proof {
            let rest = chunk@.skip(k - 1);
            assert(rest.skip(1) =~= chunk@.skip(k as int));
        }
        k += 1;
    }
    k
}

/// A lazy sequence of tokens over the chunks of a source text, with
/// pushback: `peek` shows the next token and leaves it in place.
#[derive(Debug)]
pub struct Tokens<'src> {
    chunks: Vec<&'src str>,
    next_chunk: usize,
    leftover: Option<&'src str>,
    pending: Vec<Token<'src>>,
}

impl<'src> Tokens<'src> {
    spec fn leftover_text(self) -> Seq<char> {
        match self.leftover {
            Some(s) => s@,
            None => Seq::empty(),
        }
    }

    /// The tokens not yet cut from the chunks.
    spec fn uncut(self) -> Seq<TokenView> {
        tokens_of_chunk(self.leftover_text()) + tokens_of_chunks(self.chunks_left())
    }

    /// The chunks that have not been touched.
    spec fn chunks_left(self) -> Seq<Seq<char>> {
        if self.next_chunk <= self.chunks.len() {
            texts(self.chunks@).skip(self.next_chunk as int)
        } else {
            Seq::empty()
        }
    }

    /// The tokens still to come, the next one first.
    pub closed spec fn remaining(self) -> Seq<TokenView> {
        token_views(self.pending@).reverse() + self.uncut()
    }

    /// The tokens of a list of chunks, none of which holds white space.
    pub fn new(chunks: Vec<&'src str>) -> (r: Self)
        ensures
            r.remaining() == tokens_of_chunks(texts(chunks@)),
    {
        let r = Tokens { chunks, next_chunk: 0, leftover: None, pending: Vec::new() };
        proof {
            assert(r.chunks_left() =~= texts(chunks@));
        }
        r
    }

    /// A sequence that yields exactly the given tokens.
    pub fn from_tokens(tokens: Vec<Token<'src>>) -> (r: Self)
        ensures
            r.remaining() == token_views(tokens@),
    {
        let mut pending: Vec<Token<'src>> = Vec::new();
        let mut i: usize = tokens.len();
        while i > 0
            invariant
                i <= tokens.len(),
                pending.len() == tokens.len() - i,
                forall|j: int| 0 <= j < pending.len() ==> pending@[j] == tokens@[tokens.len() - 1 - j],
            decreases i,
        {
            i -= 1;
            pending.push(tokens[i]);
        }
        let r = Tokens { chunks: Vec::new(), next_chunk: 0, leftover: None, pending };
        r
    }

    /// Cuts the next token from the chunks.
    fn cut_next(&mut self) -> (t: Option<Token<'src>>)
        requires
            old(self).pending@.len() == 0,
        ensures
            final(self).pending@.len() == 0,
            token_view_opt(t) == first_of(old(self).uncut()),
            t is Some ==> final(self).uncut() == old(self).uncut().skip(1),
            t is None ==> final(self).uncut() == old(self).uncut(),
    {
        loop
            invariant
                self.pending@.len() == 0,
                self.uncut() == old(self).uncut(),
                self.chunks == old(self).chunks,
            decreases
                self.chunks.len() - self.next_chunk,
                (if self.leftover is Some { 1int } else { 0int }),
        {
            let current: &'src str = match self.leftover {
                Some(s) => {
                    self.leftover = None;
                    s
                },
                None => {
                    if self.next_chunk >= self.chunks.len() {
                        return None;
                    }
                    let s = self.chunks[self.next_chunk];
                    proof {
                        let all = self.chunks_left();
                        assert(all.skip(1) =~= texts(self.chunks@).skip(self.next_chunk + 1));
                    }
                    self.next_chunk = self.next_chunk + 1;
                    s
                },
            };
            assert(tokens_of_chunk(current@) + tokens_of_chunks(self.chunks_left()) == old(
                self,
            ).uncut());
            let chars = chars_of(current);
            let n = chars.len();
            if n > 0 {
                let k = cut(&chars);
                let piece = current.substring_char(0, k);
                if k < n {
                    let rest = current.substring_char(k, n);
                    self.leftover = Some(rest);
                }
                let t = tokenize(piece);
                proof {
                    let head = tokens_of_chunk(current@);
                    assert(head == seq![token_of(current@.take(k as int))] + tokens_of_chunk(
                        current@.skip(k as int),
                    ));
                }
                return Some(t);
            }
        }
    }

    /// The next token, which leaves the sequence.
    pub fn next(&mut self) -> (t: Option<Token<'src>>)
        ensures
            token_view_opt(t) == first_of(old(self).remaining()),
            t is Some ==> final(self).remaining() == old(self).remaining().skip(1),
            t is None ==> final(self).remaining() == old(self).remaining(),
    {
        if self.pending.len() > 0 {
            let t = self.pending.pop().unwrap();
            Some(t)
        } else {
            let t = self.cut_next();
            t
        }
    }

    /// The next token, which stays in the sequence.
    pub fn peek(&mut self) -> (t: Option<Token<'src>>)
        ensures
            token_view_opt(t) == first_of(old(self).remaining()),
            final(self).remaining() == old(self).remaining(),
    {
        if self.pending.len() > 0 {
            let t = self.pending[self.pending.len() - 1];
            Some(t)
        } else {
            let t = self.cut_next();
            match t {
                Some(tok) => {
                    self.pending.push(tok);
                },
                None => {},
            }
            t
        }
    }

    /// All the tokens still to come; the sequence is left empty.
    pub fn collect(&mut self) -> (r: Vec<Token<'src>>)
        ensures
            token_views(r@) == old(self).remaining(),
            final(self).remaining().len() == 0,
    {
        let mut r: Vec<Token<'src>> = Vec::new();
        loop
            invariant
                token_views(r@) + self.remaining() == old(self).remaining(),
            decreases self.remaining().len(),
        {
            match self.next() {
                Some(t) => {
                    r.push(t);
                },
                None => {
                    return r;
                },
            }
        }
    }
}

/// Texts that can be cut into tokens.
pub trait Lex {
    /// The characters of the text.
    spec fn text(&self) -> Seq<char>;

    /// The tokens of the text.
    fn lex<'src>(&'src self) -> (r: Tokens<'src>)
        ensures
            r.remaining() == tokens_of(self.text()),
    ;
}

impl Lex for str {
    open spec fn text(&self) -> Seq<char> {
        self@
    }

    fn lex<'src>(&'src self) -> (r: Tokens<'src>) {
        Tokens::new(split_whitespace(self))
    }
}

} // verus!
