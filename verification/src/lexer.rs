//! Lexical scanning: source text to a token sequence.
//!
//! `spec_scan` is the mathematical scanner over a `Seq<char>`; `Lexer` is
//! the executable one, proved to return exactly what `spec_scan` says.
//! Identifiers follow `[A-Za-z_][A-Za-z0-9_]*`; a maximal run of digits
//! and decimal points that holds more than one point is a lexical error,
//! and any character outside the grammar is one too.

use crate::numeric::dot_count;
use crate::numeric::is_digit_char;
use crate::numeric::is_number_char;
use crate::numeric::literal_bits_of;
use crate::numeric::literal_to_bits;
use crate::numeric::render_of;
use crate::numeric::render_bits;
use crate::numeric::valid_number_lexeme;
use vstd::prelude::*;
use vstd::string::StrSliceExecFns;
use vstd::string::StringExecFns;

verus! {

/// A numeric literal's value: the bit pattern of an IEEE-754 binary64
/// number.  Keeping the bits themselves makes token equality and hashing
/// bit-pattern equality, so a NaN-valued literal is a well-behaved key.
#[derive(Debug, Clone, Copy, PartialEq, Eq, Hash, Structural)]
pub struct Number(pub u64);

/// The smallest lexical unit of the language.
#[derive(Debug, Clone, PartialEq, Eq, Hash)]
pub enum Token {
    Plus,
    Minus,
    Star,
    Slash,
    Equals,
    Semicolon,
    Identifier(String),
    Number(Number),
    Let,
    Print,
    Eof,
}

/// The mathematical value of a `Token`: identifier text as a `Seq<char>`.
pub enum TokenView {
    Plus,
    Minus,
    Star,
    Slash,
    Equals,
    Semicolon,
    Identifier(Seq<char>),
    Number(u64),
    Let,
    Print,
    Eof,
}

impl View for Token {
    type V = TokenView;

    open spec fn view(&self) -> TokenView {
        match self {
            Token::Plus => TokenView::Plus,
            Token::Minus => TokenView::Minus,
            Token::Star => TokenView::Star,
            Token::Slash => TokenView::Slash,
            Token::Equals => TokenView::Equals,
            Token::Semicolon => TokenView::Semicolon,
            Token::Identifier(s) => TokenView::Identifier(s@),
            Token::Number(n) => TokenView::Number(n.0),
            Token::Let => TokenView::Let,
            Token::Print => TokenView::Print,
            Token::Eof => TokenView::Eof,
        }
    }
}

impl Token {
    /// An explicit copy; the impl that `Clone` derives carries no
    /// specification.
    pub fn dup(&self) -> (t: Token)
        ensures
            t@ == self@,
    {
        match self {
            Token::Plus => Token::Plus,
            Token::Minus => Token::Minus,
            Token::Star => Token::Star,
            Token::Slash => Token::Slash,
            Token::Equals => Token::Equals,
            Token::Semicolon => Token::Semicolon,
            Token::Identifier(s) => Token::Identifier(s.clone()),
            Token::Number(n) => Token::Number(Number(n.0)),
            Token::Let => Token::Let,
            Token::Print => Token::Print,
            Token::Eof => Token::Eof,
        }
    }
}

/// The views of a token sequence.
pub open spec fn token_views(tokens: Seq<Token>) -> Seq<TokenView> {
    tokens.map_values(|t: Token| t@)
}

/// A fatal scanning failure.
#[derive(Debug, Clone, PartialEq, Eq)]
pub enum LexError {
    /// A character outside the grammar, at a zero-based character offset.
    UnexpectedChar { ch: char, pos: usize },
    /// A run of digits and decimal points that is not a numeric literal.
    InvalidNumber { lexeme: String, pos: usize },
}

/// The mathematical value of a `LexError`.
pub enum LexErrorView {
    UnexpectedChar { ch: char, pos: nat },
    InvalidNumber { lexeme: Seq<char>, pos: nat },
}

impl View for LexError {
    type V = LexErrorView;

    open spec fn view(&self) -> LexErrorView {
        match self {
            LexError::UnexpectedChar { ch, pos } => LexErrorView::UnexpectedChar {
                ch: *ch,
                pos: *pos as nat,
            },
            LexError::InvalidNumber { lexeme, pos } => LexErrorView::InvalidNumber {
                lexeme: lexeme@,
                pos: *pos as nat,
            },
        }
    }
}

/// A character that may start an identifier: a letter or an underscore.
pub open spec fn is_ident_start_char(c: char) -> bool {
    ('a' <= c && c <= 'z') || ('A' <= c && c <= 'Z') || c == '_'
}

/// A character that may continue an identifier.
pub open spec fn is_ident_char(c: char) -> bool {
    is_ident_start_char(c) || is_digit_char(c)
}

/// Whitespace: the Unicode White_Space code points.  It separates
/// tokens and yields none.
pub open spec fn is_space_char(c: char) -> bool {
    ||| c == ' '
    ||| ('\u{0009}' <= c && c <= '\u{000D}')
    ||| c == '\u{0085}'
    ||| c == '\u{00A0}'
    ||| c == '\u{1680}'
    ||| ('\u{2000}' <= c && c <= '\u{200A}')
    ||| c == '\u{2028}'
    ||| c == '\u{2029}'
    ||| c == '\u{202F}'
    ||| c == '\u{205F}'
    ||| c == '\u{3000}'
}

/// Runtime test matching `is_ident_start_char`.
pub fn is_ident_start_char_exec(c: char) -> (r: bool)
    ensures
        r == is_ident_start_char(c),
{
    ('a' <= c && c <= 'z') || ('A' <= c && c <= 'Z') || c == '_'
}

/// Runtime test matching `is_ident_char`.
pub fn is_ident_char_exec(c: char) -> (r: bool)
    ensures
        r == is_ident_char(c),
{
    is_ident_start_char_exec(c) || ('0' <= c && c <= '9')
}

/// Runtime test matching `is_space_char`.
pub fn is_space_char_exec(c: char) -> (r: bool)
    ensures
        r == is_space_char(c),
{
    c == ' ' || ('\u{0009}' <= c && c <= '\u{000D}') || c == '\u{0085}' || c == '\u{00A0}'
        || c == '\u{1680}' || ('\u{2000}' <= c && c <= '\u{200A}') || c == '\u{2028}'
        || c == '\u{2029}' || c == '\u{202F}' || c == '\u{205F}' || c == '\u{3000}'
}

/// Runtime test matching `is_number_char`.
pub fn is_number_char_exec(c: char) -> (r: bool)
    ensures
        r == is_number_char(c),
{
    ('0' <= c && c <= '9') || c == '.'
}

/// Where the maximal run of identifier characters that begins at `pos`
/// ends.
pub open spec fn ident_end(s: Seq<char>, pos: int) -> int
    decreases s.len() - pos,
    when 0 <= pos <= s.len()
{
    if pos < s.len() && is_ident_char(s[pos]) {
        ident_end(s, pos + 1)
    } else {
        pos
    }
}

/// Where the maximal run of number characters that begins at `pos` ends.
pub open spec fn number_end(s: Seq<char>, pos: int) -> int
    decreases s.len() - pos,
    when 0 <= pos <= s.len()
{
    if pos < s.len() && is_number_char(s[pos]) {
        number_end(s, pos + 1)
    } else {
        pos
    }
}

/// The run that `ident_end` bounds lies inside the text, consists of
/// identifier characters, and is maximal.
pub proof fn lemma_ident_end(s: Seq<char>, pos: int)
    requires
        0 <= pos <= s.len(),
    ensures
        pos <= ident_end(s, pos) <= s.len(),
        forall|i: int| pos <= i < ident_end(s, pos) ==> is_ident_char(#[trigger] s[i]),
        ident_end(s, pos) == s.len() || !is_ident_char(s[ident_end(s, pos)]),
    decreases s.len() - pos,
{
    if pos < s.len() && is_ident_char(s[pos]) {
        lemma_ident_end(s, pos + 1);
    }
}

/// The run that `number_end` bounds lies inside the text, consists of
/// number characters, and is maximal.
pub proof fn lemma_number_end(s: Seq<char>, pos: int)
    requires
        0 <= pos <= s.len(),
    ensures
        pos <= number_end(s, pos) <= s.len(),
        forall|i: int| pos <= i < number_end(s, pos) ==> is_number_char(#[trigger] s[i]),
        number_end(s, pos) == s.len() || !is_number_char(s[number_end(s, pos)]),
    decreases s.len() - pos,
{
    if pos < s.len() && is_number_char(s[pos]) {
        lemma_number_end(s, pos + 1);
    }
}

/// Identifier text is mapped to a keyword token where it matches one
/// exactly, and is carried verbatim otherwise.
pub open spec fn keyword_or_identifier(text: Seq<char>) -> TokenView {
    if text == "let"@ {
        TokenView::Let
    } else if text == "print"@ {
        TokenView::Print
    } else {
        TokenView::Identifier(text)
    }
}

/// Prepends one token to the outcome of scanning the rest.
pub open spec fn with_token(
    t: TokenView,
    rest: Result<Seq<TokenView>, LexErrorView>,
) -> Result<Seq<TokenView>, LexErrorView> {
    match rest {
        Ok(ts) => Ok(seq![t] + ts),
        Err(e) => Err(e),
    }
}

/// Prepends already-scanned tokens to the outcome of scanning the rest.
pub open spec fn with_tokens(
    prefix: Seq<TokenView>,
    rest: Result<Seq<TokenView>, LexErrorView>,
) -> Result<Seq<TokenView>, LexErrorView> {
    match rest {
        Ok(ts) => Ok(prefix + ts),
        Err(e) => Err(e),
    }
}

/// The scanner, mathematically: the tokens of `s` from position `pos` on,
/// ending in exactly one end-of-input token, or the first lexical error.
pub open spec fn spec_scan_from(s: Seq<char>, pos: int) -> Result<Seq<TokenView>, LexErrorView>
    decreases s.len() - pos,
    when 0 <= pos <= s.len()
    via spec_scan_from_decreases
{
    if pos >= s.len() {
        Ok(seq![TokenView::Eof])
    } else {
        let c = s[pos];
        if is_space_char(c) {
            spec_scan_from(s, pos + 1)
        } else if c == '+' {
            with_token(TokenView::Plus, spec_scan_from(s, pos + 1))
        } else if c == '-' {
            with_token(TokenView::Minus, spec_scan_from(s, pos + 1))
        } else if c == '*' {
            with_token(TokenView::Star, spec_scan_from(s, pos + 1))
        } else if c == '/' {
            with_token(TokenView::Slash, spec_scan_from(s, pos + 1))
        } else if c == '=' {
            with_token(TokenView::Equals, spec_scan_from(s, pos + 1))
        } else if c == ';' {
            with_token(TokenView::Semicolon, spec_scan_from(s, pos + 1))
        } else if is_ident_start_char(c) {
            let end = ident_end(s, pos);
            with_token(keyword_or_identifier(s.subrange(pos, end)), spec_scan_from(s, end))
        } else if is_digit_char(c) {
            let end = number_end(s, pos);
            let lexeme = s.subrange(pos, end);
            if dot_count(lexeme) <= 1 {
                with_token(TokenView::Number(literal_bits_of(lexeme)), spec_scan_from(s, end))
            } else {
                Err(LexErrorView::InvalidNumber { lexeme, pos: pos as nat })
            }
        } else {
            Err(LexErrorView::UnexpectedChar { ch: c, pos: pos as nat })
        }
    }
}

#[via_fn]
proof fn spec_scan_from_decreases(s: Seq<char>, pos: int) {
    if pos < s.len() {
        let c = s[pos];
        if is_ident_start_char(c) {
            lemma_ident_end(s, pos + 1);
            assert(ident_end(s, pos) == ident_end(s, pos + 1));
        } else if is_digit_char(c) {
            lemma_number_end(s, pos + 1);
            assert(number_end(s, pos) == number_end(s, pos + 1));
        }
    }
}

/// The scanner, mathematically, over a whole source text.
pub open spec fn spec_scan(s: Seq<char>) -> Result<Seq<TokenView>, LexErrorView> {
    spec_scan_from(s, 0)
}

/// Folding one token into the scanned prefix.
proof fn lemma_with_tokens_step(
    prefix: Seq<TokenView>,
    t: TokenView,
    rest: Result<Seq<TokenView>, LexErrorView>,
)
    ensures
        with_tokens(prefix, with_token(t, rest)) == with_tokens(prefix.push(t), rest),
{
    match rest {
        Ok(ts) => {
            assert(prefix + (seq![t] + ts) =~= prefix.push(t) + ts);
        },
        Err(_) => {},
    }
}

/// The views of a token sequence extended by one token.
proof fn lemma_token_views_push(tokens: Seq<Token>, t: Token)
    ensures
        token_views(tokens.push(t)) == token_views(tokens).push(t@),
{
    assert(token_views(tokens.push(t)) =~= token_views(tokens).push(t@));
}

/// The scanner: it owns the source text and a cursor into it.
pub struct Lexer {
    input: String,
    position: usize,
    chars: Vec<char>,
}

impl View for Lexer {
    type V = Seq<char>;

    closed spec fn view(&self) -> Seq<char> {
        self.input@
    }
}

impl Lexer {
    /// The cursor, as a character offset into the source text.
    pub closed spec fn pos(self) -> int {
        self.position as int
    }

    /// The cached character vector mirrors the text and the cursor lies
    /// inside it.
    pub closed spec fn wf(self) -> bool {
        self.chars@ == self.input@ && 0 <= self.position <= self.input@.len()
    }

    /// A scanner over `input`, with the cursor at the start.
    pub fn new(input: String) -> (lexer: Lexer)
        ensures
            lexer.wf(),
            lexer@ == input@,
            lexer.pos() == 0,
    {
        let len = input.as_str().unicode_len();
        let mut chars: Vec<char> = Vec::new();
        let mut i: usize = 0;
        while i < len
            invariant
                i <= len,
                len == input@.len(),
                chars@ == input@.take(i as int),
            decreases len - i,
        {
            let c = input.as_str().get_char(i);
            proof {
                assert(input@.take(i + 1) =~= input@.take(i as int).push(input@[i as int]));
            }
            chars.push(c);
            i += 1;
        }
        proof {
            assert(input@.take(len as int) =~= input@);
        }
        Lexer { input, position: 0, chars }
    }

    /// Reads the maximal identifier run at the cursor and moves the cursor
    /// past it.
    pub fn read_identifier(&mut self) -> (text: String)
        requires
            old(self).wf(),
        ensures
            final(self).wf(),
            final(self)@ == old(self)@,
            final(self).pos() == ident_end(old(self)@, old(self).pos()),
            text@ == old(self)@.subrange(old(self).pos(), final(self).pos()),
    {
        let ghost s = self.input@;
        let start = self.position;
        while self.position < self.chars.len() && is_ident_char_exec(self.chars[self.position])
            invariant
                self.wf(),
                self@ == s,
                self.input == old(self).input,
                self.chars == old(self).chars,
                start <= self.position,
                ident_end(s, start as int) == ident_end(s, self.position as int),
            decreases self.chars@.len() - self.position,
        {
            proof {
                assert(ident_end(s, self.position as int) == ident_end(s, self.position + 1));
            }
            self.position = self.position + 1;
        }
        proof {
            assert(ident_end(s, self.position as int) == self.position as int);
        }
        let text = self.input.as_str().substring_char(start, self.position).to_owned();
        text
    }

    /// Reads the maximal number run at the cursor: its value where the run
    /// is a numeric literal, the lexical error where it is not.
    fn read_number(&mut self) -> (r: Result<Number, LexError>)
        requires
            old(self).wf(),
            old(self).pos() < old(self)@.len(),
            is_digit_char(old(self)@[old(self).pos()]),
        ensures
            final(self).wf(),
            final(self)@ == old(self)@,
            final(self).pos() == number_end(old(self)@, old(self).pos()),
            ({
                let lexeme = old(self)@.subrange(old(self).pos(), final(self).pos());
                match r {
                    Ok(n) => dot_count(lexeme) <= 1 && n == Number(literal_bits_of(lexeme)),
                    Err(e) => dot_count(lexeme) > 1 && e@ == LexErrorView::InvalidNumber {
                        lexeme,
                        pos: old(self).pos() as nat,
                    },
                }
            }),
    {
        let ghost s = self.input@;
        let start = self.position;
        let mut dots: usize = 0;
        while self.position < self.chars.len() && is_number_char_exec(self.chars[self.position])
            invariant
                self.wf(),
                self@ == s,
                self.input == old(self).input,
                self.chars == old(self).chars,
                start <= self.position,
                dots <= self.position - start,
                number_end(s, start as int) == number_end(s, self.position as int),
                dots == dot_count(s.subrange(start as int, self.position as int)),
            decreases self.chars@.len() - self.position,
        {
            proof {
                assert(number_end(s, self.position as int) == number_end(s, self.position + 1));
                let prefix = s.subrange(start as int, self.position as int);
                let extended = s.subrange(start as int, self.position + 1);
                assert(extended.drop_last() =~= prefix);
                assert(extended.last() == s[self.position as int]);
            }
            if self.chars[self.position] == '.' {
                dots = dots + 1;
            }
            self.position = self.position + 1;
        }
        proof {
            assert(number_end(s, self.position as int) == self.position as int);
        }
        let ghost lexeme = s.subrange(start as int, self.position as int);
        let lexeme_str = self.input.as_str().substring_char(start, self.position);
        if dots <= 1 {
            proof {
                lemma_number_end(s, start as int);
                assert(number_end(s, start as int) > start) by {
                    assert(number_end(s, start as int) == number_end(s, start + 1));
                    lemma_number_end(s, start + 1);
                }
                assert(lexeme[0] == s[start as int]);
                assert(valid_number_lexeme(lexeme_str@));
            }
            let bits = literal_to_bits(lexeme_str);
            Ok(Number(bits))
        } else {
            Err(LexError::InvalidNumber { lexeme: lexeme_str.to_owned(), pos: start })
        }
    }

    /// Scans the whole remaining text: the token sequence that
    /// `spec_scan_from` gives from the cursor on, ended by one
    /// end-of-input token, or the first lexical error.
    pub fn tokenize(&mut self) -> (r: Result<Vec<Token>, LexError>)
        requires
            old(self).wf(),
        ensures
            final(self).wf(),
            final(self)@ == old(self)@,
            match r {
                Ok(tokens) => spec_scan_from(old(self)@, old(self).pos()) == Ok::<
                    Seq<TokenView>,
                    LexErrorView,
                >(token_views(tokens@)),
                Err(e) => spec_scan_from(old(self)@, old(self).pos()) == Err::<
                    Seq<TokenView>,
                    LexErrorView,
                >(e@),
            },
    {
        let ghost s = self.input@;
        let ghost start_pos = self.position as int;
        let mut tokens: Vec<Token> = Vec::new();
        while self.position < self.chars.len()
            invariant
                self.wf(),
                self@ == s,
                old(self)@ == s,
                0 <= start_pos <= s.len(),
                start_pos == old(self).pos(),
                spec_scan_from(s, start_pos) == with_tokens(
                    token_views(tokens@),
                    spec_scan_from(s, self.position as int),
                ),
            decreases self.chars@.len() - self.position,
        {
            let ghost pos0 = self.position as int;
            let c = self.chars[self.position];
            if is_space_char_exec(c) {
                self.position = self.position + 1;
            } else if c == '+' {
                proof {
                    lemma_with_tokens_step(
                        token_views(tokens@),
                        TokenView::Plus,
                        spec_scan_from(s, pos0 + 1),
                    );
                    lemma_token_views_push(tokens@, Token::Plus);
                }
                tokens.push(Token::Plus);
                self.position = self.position + 1;
            } else if c == '-' {
                proof {
                    lemma_with_tokens_step(
                        token_views(tokens@),
                        TokenView::Minus,
                        spec_scan_from(s, pos0 + 1),
                    );
                    lemma_token_views_push(tokens@, Token::Minus);
                }
                tokens.push(Token::Minus);
                self.position = self.position + 1;
            } else if c == '*' {
                proof {
                    lemma_with_tokens_step(
                        token_views(tokens@),
                        TokenView::Star,
                        spec_scan_from(s, pos0 + 1),
                    );
                    lemma_token_views_push(tokens@, Token::Star);
                }
                tokens.push(Token::Star);
                self.position = self.position + 1;
            } else if c == '/' {
                proof {
                    lemma_with_tokens_step(
                        token_views(tokens@),
                        TokenView::Slash,
                        spec_scan_from(s, pos0 + 1),
                    );
                    lemma_token_views_push(tokens@, Token::Slash);
                }
                tokens.push(Token::Slash);
                self.position = self.position + 1;
            } else if c == '=' {
                proof {
                    lemma_with_tokens_step(
                        token_views(tokens@),
                        TokenView::Equals,
                        spec_scan_from(s, pos0 + 1),
                    );
                    lemma_token_views_push(tokens@, Token::Equals);
                }
                tokens.push(Token::Equals);
                self.position = self.position + 1;
            } else if c == ';' {
                proof {
                    lemma_with_tokens_step(
                        token_views(tokens@),
                        TokenView::Semicolon,
                        spec_scan_from(s, pos0 + 1),
                    );
                    lemma_token_views_push(tokens@, Token::Semicolon);
                }
                tokens.push(Token::Semicolon);
                self.position = self.position + 1;
            } else if is_ident_start_char_exec(c) {
                proof {
                    lemma_ident_end(s, pos0);
                    assert(ident_end(s, pos0) == ident_end(s, pos0 + 1));
                    lemma_ident_end(s, pos0 + 1);
                }
                let text = self.read_identifier();
                let ghost tok_view = keyword_or_identifier(s.subrange(pos0, ident_end(s, pos0)));
                let kw_let = String::from_str("let");
                let kw_print = String::from_str("print");
                let token: Token = if text == kw_let {
                    Token::Let
                } else if text == kw_print {
                    Token::Print
                } else {
                    Token::Identifier(text)
                };
                proof {
                    assert(token@ == tok_view);
                    lemma_with_tokens_step(
                        token_views(tokens@),
                        tok_view,
                        spec_scan_from(s, ident_end(s, pos0)),
                    );
                    lemma_token_views_push(tokens@, token);
                }
                tokens.push(token);
            } else if c == '.' {
                // Only a digit starts a number run; a bare decimal point
                // is outside the grammar.
                proof {
                    assert(spec_scan_from(s, pos0) == Err::<Seq<TokenView>, LexErrorView>(
                        LexErrorView::UnexpectedChar { ch: c, pos: pos0 as nat },
                    ));
                }
                return Err(LexError::UnexpectedChar { ch: c, pos: self.position });
            } else if is_number_char_exec(c) {
                proof {
                    lemma_number_end(s, pos0);
                    assert(number_end(s, pos0) == number_end(s, pos0 + 1));
                    lemma_number_end(s, pos0 + 1);
                }
                let ghost end = number_end(s, pos0);
                let ghost lexeme = s.subrange(pos0, end);
                match self.read_number() {
                    Ok(n) => {
                        proof {
                            lemma_with_tokens_step(
                                token_views(tokens@),
                                TokenView::Number(literal_bits_of(lexeme)),
                                spec_scan_from(s, end),
                            );
                            lemma_token_views_push(tokens@, Token::Number(n));
                        }
                        tokens.push(Token::Number(n));
                    },
                    Err(e) => {
                        return Err(e);
                    },
                }
            } else {
                proof {
                    assert(spec_scan_from(s, pos0) == Err::<Seq<TokenView>, LexErrorView>(
                        LexErrorView::UnexpectedChar { ch: c, pos: pos0 as nat },
                    ));
                }
                return Err(LexError::UnexpectedChar { ch: c, pos: self.position });
            }
        }
        proof {
            assert(spec_scan_from(s, self.position as int) == Ok::<Seq<TokenView>, LexErrorView>(
                seq![TokenView::Eof],
            ));
            lemma_token_views_push(tokens@, Token::Eof);
            assert(token_views(tokens@) + seq![TokenView::Eof] =~= token_views(
                tokens@.push(Token::Eof),
            ));
        }
        tokens.push(Token::Eof);
        Ok(tokens)
    }
}

} // verus!

verus! {

/// The source text of one token: operators and keywords as themselves,
/// identifier text verbatim, a number as its rendered value, nothing
/// for end-of-input.
pub open spec fn spec_render_token(t: TokenView) -> Seq<char> {
    match t {
        TokenView::Plus => "+"@,
        TokenView::Minus => "-"@,
        TokenView::Star => "*"@,
        TokenView::Slash => "/"@,
        TokenView::Equals => "="@,
        TokenView::Semicolon => ";"@,
        TokenView::Identifier(s) => s,
        TokenView::Number(b) => render_of(b),
        TokenView::Let => "let"@,
        TokenView::Print => "print"@,
        TokenView::Eof => Seq::empty(),
    }
}

/// The source text of a token sequence: each token followed by one
/// space.
pub open spec fn spec_render_tokens(ts: Seq<TokenView>) -> Seq<char>
    decreases ts.len(),
{
    if ts.len() == 0 {
        Seq::empty()
    } else {
        spec_render_token(ts[0]) + seq![' '] + spec_render_tokens(ts.drop_first())
    }
}

/// Rendering one more token appends its text and a space.
pub proof fn lemma_render_tokens_push(ts: Seq<TokenView>, t: TokenView)
    ensures
        spec_render_tokens(ts.push(t)) == spec_render_tokens(ts) + spec_render_token(t)
            + seq![' '],
    decreases ts.len(),
{
    if ts.len() == 0 {
        assert(ts.push(t).drop_first() =~= Seq::<TokenView>::empty());
        assert(ts.push(t)[0] == t);
        assert(spec_render_tokens(ts.push(t).drop_first()) == Seq::<char>::empty());
        assert(spec_render_tokens(ts.push(t)) =~= spec_render_token(t) + seq![' ']);
        assert(spec_render_tokens(ts) + spec_render_token(t) + seq![' '] =~= spec_render_token(t)
            + seq![' ']);
    } else {
        assert(ts.push(t).drop_first() =~= ts.drop_first().push(t));
        assert(ts.push(t)[0] == ts[0]);
        lemma_render_tokens_push(ts.drop_first(), t);
        assert(spec_render_tokens(ts.push(t)) =~= spec_render_tokens(ts) + spec_render_token(t)
            + seq![' ']);
    }
}

/// Renders a token sequence back to source text, one space after each
/// token.
pub fn render_tokens(tokens: &Vec<Token>) -> (r: String)
    ensures
        r@ == spec_render_tokens(token_views(tokens@)),
{
    let mut out = String::new();
    let mut i: usize = 0;
    proof {
        assert(token_views(tokens@.take(0)) =~= Seq::<TokenView>::empty());
    }
    while i < tokens.len()
        invariant
            i <= tokens@.len(),
            out@ == spec_render_tokens(token_views(tokens@.take(i as int))),
        decreases tokens@.len() - i,
    {
        proof {
            reveal_strlit(" ");
            assert(token_views(tokens@.take(i + 1)) =~= token_views(tokens@.take(i as int)).push(
                tokens@[i as int]@,
            ));
            lemma_render_tokens_push(token_views(tokens@.take(i as int)), tokens@[i as int]@);
        }
        match &tokens[i] {
            Token::Plus => out.append("+"),
            Token::Minus => out.append("-"),
            Token::Star => out.append("*"),
            Token::Slash => out.append("/"),
            Token::Equals => out.append("="),
            Token::Semicolon => out.append(";"),
            Token::Identifier(s) => out.append(s.as_str()),
            Token::Number(n) => {
                let text = render_bits(n.0);
                out.append(text.as_str());
            },
            Token::Let => out.append("let"),
            Token::Print => out.append("print"),
            Token::Eof => {},
        }
        out.append(" ");
        proof {
            assert(out@ =~= spec_render_tokens(token_views(tokens@.take(i + 1))));
        }
        i = i + 1;
    }
    proof {
        assert(tokens@.take(tokens@.len() as int) =~= tokens@);
    }
    out
}

} // verus!

verus! {

/// Identifier text as the scanner itself would produce it: non-empty,
/// an identifier run, and not a keyword.
pub open spec fn wf_ident_text(s: Seq<char>) -> bool {
    &&& s.len() > 0
    &&& is_ident_start_char(s[0])
    &&& (forall|i: int| 0 <= i < s.len() ==> is_ident_char(#[trigger] s[i]))
    &&& s != "let"@
    &&& s != "print"@
}

/// A token whose rendered text the scanner maps back to the very same
/// token: operators, the terminator, `=`, keywords, and well-formed
/// identifiers.  A number's rendering comes from the outside renderer,
/// and end-of-input renders to nothing, so neither is stable.
pub open spec fn stable_token(t: TokenView) -> bool {
    match t {
        TokenView::Identifier(s) => wf_ident_text(s),
        TokenView::Number(_) => false,
        TokenView::Eof => false,
        _ => true,
    }
}

/// An identifier run that ends exactly at `end` has `end` as its
/// maximal extent.
pub proof fn lemma_ident_end_is(s: Seq<char>, pos: int, end: int)
    requires
        0 <= pos <= end <= s.len(),
        forall|i: int| pos <= i < end ==> is_ident_char(#[trigger] s[i]),
        end == s.len() || !is_ident_char(s[end]),
    ensures
        ident_end(s, pos) == end,
    decreases end - pos,
{
    if pos < end {
        lemma_ident_end_is(s, pos + 1, end);
    }
}

/// Scanning a text whose tail from `pos` on is the rendering of stable
/// tokens yields exactly those tokens and the end-of-input token.
proof fn lemma_scan_rendered(s: Seq<char>, pos: int, ts: Seq<TokenView>)
    requires
        0 <= pos <= s.len(),
        s.subrange(pos, s.len() as int) == spec_render_tokens(ts),
        forall|i: int| 0 <= i < ts.len() ==> stable_token(#[trigger] ts[i]),
    ensures
        spec_scan_from(s, pos) == Ok::<Seq<TokenView>, LexErrorView>(ts.push(TokenView::Eof)),
    decreases ts.len(),
{
    reveal_strlit("+");
    reveal_strlit("-");
    reveal_strlit("*");
    reveal_strlit("/");
    reveal_strlit("=");
    reveal_strlit(";");
    reveal_strlit("let");
    reveal_strlit("print");
    if ts.len() == 0 {
        assert(s.subrange(pos, s.len() as int).len() == 0);
        assert(pos == s.len());
        assert(ts.push(TokenView::Eof) =~= seq![TokenView::Eof]);
    } else {
        let t = ts[0];
        let rest = ts.drop_first();
        let text = spec_render_token(t);
        let k = text.len() as int;
        let whole = spec_render_tokens(ts);
        assert(whole == text + seq![' '] + spec_render_tokens(rest));
        assert forall|i: int| pos <= i < pos + k implies #[trigger] s[i] == text[i - pos] by {
            assert(s.subrange(pos, s.len() as int)[i - pos] == s[i]);
            assert(whole[i - pos] == text[i - pos]);
        }
        assert(s[pos + k] == ' ') by {
            assert(s.subrange(pos, s.len() as int)[k] == s[pos + k]);
            assert(whole[k] == ' ');
        }
        let mid = pos + k + 1;
        assert(mid <= s.len());
        assert(s.subrange(mid, s.len() as int) =~= spec_render_tokens(rest)) by {
            assert forall|j: int| 0 <= j < s.len() - mid implies s.subrange(mid, s.len() as int)[j]
                == spec_render_tokens(rest)[j] by {
                assert(s.subrange(pos, s.len() as int)[k + 1 + j] == s[mid + j]);
                assert(whole[k + 1 + j] == spec_render_tokens(rest)[j]);
            }
        }
        assert forall|i: int| 0 <= i < rest.len() implies stable_token(#[trigger] rest[i]) by {
            assert(rest[i] == ts[i + 1]);
        }
        lemma_scan_rendered(s, mid, rest);
        assert(stable_token(t));
        let end = pos + k;
        match t {
            TokenView::Identifier(txt) => {
                assert forall|i: int| pos <= i < end implies is_ident_char(#[trigger] s[i]) by {
                    assert(s[i] == txt[i - pos]);
                }
                lemma_ident_end_is(s, pos, end);
                assert(s.subrange(pos, end) =~= txt);
                assert(keyword_or_identifier(txt) == t);
            },
            TokenView::Let => {
                assert(k == 3);
                assert(s[pos] == 'l' && s[pos + 1] == 'e' && s[pos + 2] == 't');
                assert forall|i: int| pos <= i < end implies is_ident_char(#[trigger] s[i]) by {
                    assert(s[i] == text[i - pos]);
                }
                lemma_ident_end_is(s, pos, end);
                assert(s.subrange(pos, end) =~= "let"@);
            },
            TokenView::Print => {
                assert(k == 5);
                assert forall|i: int| pos <= i < end implies is_ident_char(#[trigger] s[i]) by {
                    assert(s[i] == text[i - pos]);
                }
                lemma_ident_end_is(s, pos, end);
                assert(s.subrange(pos, end) =~= "print"@);
            },
            _ => {
                assert(k == 1);
            },
        }
        assert(spec_scan_from(s, end) == spec_scan_from(s, mid));
        assert(spec_scan_from(s, pos) == with_token(t, spec_scan_from(s, mid)));
        assert(seq![t] + rest.push(TokenView::Eof) =~= ts.push(TokenView::Eof));
    }
}

/// Scanning is idempotent on already-tokenized text: re-scanning the
/// rendered source of a sequence of stable tokens yields the same
/// tokens, ended by exactly one end-of-input token.  A number token's
/// rendering comes from the outside renderer, so its round trip is
/// checked by test rather than proof.
pub proof fn lemma_scan_render_tokens(ts: Seq<TokenView>)
    requires
        forall|i: int| 0 <= i < ts.len() ==> stable_token(#[trigger] ts[i]),
    ensures
        spec_scan(spec_render_tokens(ts)) == Ok::<Seq<TokenView>, LexErrorView>(
            ts.push(TokenView::Eof),
        ),
{
    let s = spec_render_tokens(ts);
    assert(s.subrange(0, s.len() as int) =~= s);
    lemma_scan_rendered(s, 0, ts);
}

} // verus!

verus! {

/// True when every identifier token of the sequence carries well-formed
/// identifier text.
pub open spec fn identifier_tokens_wf(toks: Seq<TokenView>) -> bool {
    forall|i: int| 0 <= i < toks.len() ==> wf_token(#[trigger] toks[i])
}

/// An identifier token carries well-formed identifier text; any other
/// token is unconstrained.
pub open spec fn wf_token(t: TokenView) -> bool {
    match t {
        TokenView::Identifier(s) => wf_ident_text(s),
        _ => true,
    }
}

/// The scanner only produces identifier tokens whose text is a
/// well-formed non-keyword identifier: keyword text becomes a keyword
/// token, and an identifier run starts with a letter or underscore.
pub proof fn lemma_scan_identifiers_wf(s: Seq<char>, pos: int)
    requires
        0 <= pos <= s.len(),
    ensures
        match spec_scan_from(s, pos) {
            Ok(toks) => identifier_tokens_wf(toks),
            Err(_) => true,
        },
    decreases s.len() - pos,
{
    if pos < s.len() {
        let c = s[pos];
        if is_space_char(c) {
            lemma_scan_identifiers_wf(s, pos + 1);
        } else if c == '+' || c == '-' || c == '*' || c == '/' || c == '=' || c == ';' {
            lemma_scan_identifiers_wf(s, pos + 1);
            lemma_cons_wf(tok_of_char(c), spec_scan_from(s, pos + 1));
        } else if is_ident_start_char(c) {
            let end = ident_end(s, pos);
            lemma_ident_end(s, pos);
            assert(end > pos) by {
                assert(ident_end(s, pos) == ident_end(s, pos + 1));
                lemma_ident_end(s, pos + 1);
            }
            let text = s.subrange(pos, end);
            assert(text[0] == s[pos]);
            assert forall|i: int| 0 <= i < text.len() implies is_ident_char(
                #[trigger] text[i],
            ) by {
                assert(text[i] == s[pos + i]);
            }
            lemma_scan_identifiers_wf(s, end);
            lemma_cons_wf(keyword_or_identifier(text), spec_scan_from(s, end));
        } else if is_digit_char(c) {
            let end = number_end(s, pos);
            lemma_number_end(s, pos);
            assert(end > pos) by {
                assert(number_end(s, pos) == number_end(s, pos + 1));
                lemma_number_end(s, pos + 1);
            }
            lemma_scan_identifiers_wf(s, end);
            let lexeme = s.subrange(pos, end);
            if dot_count(lexeme) <= 1 {
                lemma_cons_wf(
                    TokenView::Number(literal_bits_of(lexeme)),
                    spec_scan_from(s, end),
                );
            }
        }
    }
}

/// The token at the front of a sound scan keeps the sequence sound.
proof fn lemma_cons_wf(t: TokenView, rest: Result<Seq<TokenView>, LexErrorView>)
    requires
        wf_token(t),
        match rest {
            Ok(toks) => identifier_tokens_wf(toks),
            Err(_) => true,
        },
    ensures
        match with_token(t, rest) {
            Ok(toks) => identifier_tokens_wf(toks),
            Err(_) => true,
        },
{
    match rest {
        Ok(toks) => {
            assert forall|i: int| 0 <= i < (seq![t] + toks).len() implies wf_token(
                #[trigger] (seq![t] + toks)[i],
            ) by {
                if i > 0 {
                    assert((seq![t] + toks)[i] == toks[i - 1]);
                }
            }
        },
        Err(_) => {},
    }
}

/// The token that one single-character symbol scans to.
pub open spec fn tok_of_char(c: char) -> TokenView {
    if c == '+' {
        TokenView::Plus
    } else if c == '-' {
        TokenView::Minus
    } else if c == '*' {
        TokenView::Star
    } else if c == '/' {
        TokenView::Slash
    } else if c == '=' {
        TokenView::Equals
    } else {
        TokenView::Semicolon
    }
}

} // verus!
