//! The lexer: a pull-based scanner that turns source text into tokens one
//! at a time. Scanning is total: unrecognized characters become `ILLEGAL`
//! tokens, and reading past the end of the input keeps yielding the
//! end-of-file token.

use vstd::prelude::*;
use vstd::string::StrSliceExecFns;
use crate::token::{keyword_type, Token, TokenModel, TokenType};

verus! {

broadcast use vstd::string::group_string_axioms;

/// Whitespace skipped between tokens: space, tab, newline, carriage return.
pub open spec fn is_ws_char(c: char) -> bool {
    c == ' ' || c == '\t' || c == '\n' || c == '\r'
}

/// Characters that may form an identifier: ASCII letters and underscore.
pub open spec fn is_letter_char(c: char) -> bool {
    ('a' as u32 <= c as u32 && c as u32 <= 'z' as u32) || ('A' as u32 <= c as u32 && c as u32
        <= 'Z' as u32) || c == '_'
}

/// Characters that may form an integer literal: ASCII digits.
pub open spec fn is_digit_char(c: char) -> bool {
    '0' as u32 <= c as u32 && c as u32 <= '9' as u32
}

/// The first position at or after `p` that does not hold whitespace.
pub open spec fn ws_end(input: Seq<char>, p: int) -> int
    decreases input.len() - p,
{
    if 0 <= p && p < input.len() && is_ws_char(input[p]) {
        ws_end(input, p + 1)
    } else {
        p
    }
}

/// The end of the maximal run of identifier characters starting at `p`.
pub open spec fn ident_end(input: Seq<char>, p: int) -> int
    decreases input.len() - p,
{
    if 0 <= p && p < input.len() && is_letter_char(input[p]) {
        ident_end(input, p + 1)
    } else {
        p
    }
}

/// The end of the maximal run of digits starting at `p`.
pub open spec fn digits_end(input: Seq<char>, p: int) -> int
    decreases input.len() - p,
{
    if 0 <= p && p < input.len() && is_digit_char(input[p]) {
        digits_end(input, p + 1)
    } else {
        p
    }
}

/// One scanned token: its category, its literal text, and the position
/// right after it, from which the next scan starts.
pub ghost struct ScanTok {
    pub typ: TokenType,
    pub literal: Seq<char>,
    pub end: int,
}

/// The token whose text starts exactly at position `p` (no whitespace
/// skipped). The end-of-file token is reported at and past the end of the
/// input, with a single space as its conventional literal.
pub open spec fn scan_at(input: Seq<char>, p: int) -> ScanTok {
    if !(0 <= p && p < input.len()) {
        ScanTok { typ: TokenType::EOF, literal: seq![' '], end: p }
    } else {
        let c = input[p];
        if c == '=' {
            if p + 1 < input.len() && input[p + 1] == '=' {
                ScanTok { typ: TokenType::EQ, literal: seq!['=', '='], end: p + 2 }
            } else {
                ScanTok { typ: TokenType::ASSIGN, literal: seq!['='], end: p + 1 }
            }
        } else if c == '!' {
            if p + 1 < input.len() && input[p + 1] == '=' {
                ScanTok { typ: TokenType::NEQ, literal: seq!['!', '='], end: p + 2 }
            } else {
                ScanTok { typ: TokenType::BANG, literal: seq!['!'], end: p + 1 }
            }
        } else if c == ';' {
            ScanTok { typ: TokenType::SEMICOLON, literal: seq![c], end: p + 1 }
        } else if c == '(' {
            ScanTok { typ: TokenType::LPAREN, literal: seq![c], end: p + 1 }
        } else if c == ')' {
            ScanTok { typ: TokenType::RPAREN, literal: seq![c], end: p + 1 }
        } else if c == ',' {
            ScanTok { typ: TokenType::COMMA, literal: seq![c], end: p + 1 }
        } else if c == '+' {
            ScanTok { typ: TokenType::PLUS, literal: seq![c], end: p + 1 }
        } else if c == '-' {
            ScanTok { typ: TokenType::MINUS, literal: seq![c], end: p + 1 }
        } else if c == '/' {
            ScanTok { typ: TokenType::SLASH, literal: seq![c], end: p + 1 }
        } else if c == '*' {
            ScanTok { typ: TokenType::ASTERISK, literal: seq![c], end: p + 1 }
        } else if c == '<' {
            ScanTok { typ: TokenType::LT, literal: seq![c], end: p + 1 }
        } else if c == '>' {
            ScanTok { typ: TokenType::GT, literal: seq![c], end: p + 1 }
        } else if c == '{' {
            ScanTok { typ: TokenType::LBRACE, literal: seq![c], end: p + 1 }
        } else if c == '}' {
            ScanTok { typ: TokenType::RBRACE, literal: seq![c], end: p + 1 }
        } else if c == '\0' {
            ScanTok { typ: TokenType::EOF, literal: seq![' '], end: p + 1 }
        } else if is_letter_char(c) {
            let e = ident_end(input, p);
            let word = input.subrange(p, e);
            ScanTok { typ: keyword_type(word), literal: word, end: e }
        } else if is_digit_char(c) {
            let e = digits_end(input, p);
            ScanTok { typ: TokenType::INT, literal: input.subrange(p, e), end: e }
        } else {
            ScanTok { typ: TokenType::ILLEGAL, literal: seq![c], end: p + 1 }
        }
    }
}

/// The next token when scanning starts at position `p`: skip whitespace,
/// then scan one token.
pub open spec fn scan_token(input: Seq<char>, p: int) -> ScanTok {
    scan_at(input, ws_end(input, p))
}

/// Skipping whitespace stays within the input and lands no earlier than
/// where it started.
pub proof fn lemma_ws_end_bounds(input: Seq<char>, p: int)
    requires
        0 <= p <= input.len(),
    ensures
        p <= ws_end(input, p) <= input.len(),
    decreases input.len() - p,
{
    if p < input.len() && is_ws_char(input[p]) {
        lemma_ws_end_bounds(input, p + 1);
    }
}

/// An identifier run starting on a letter ends past that letter and within
/// the input.
pub proof fn lemma_ident_end_bounds(input: Seq<char>, p: int)
    requires
        0 <= p <= input.len(),
    ensures
        p <= ident_end(input, p) <= input.len(),
    decreases input.len() - p,
{
    if p < input.len() && is_letter_char(input[p]) {
        lemma_ident_end_bounds(input, p + 1);
    }
}

/// A digit run starting on a digit ends past that digit and within the
/// input.
pub proof fn lemma_digits_end_bounds(input: Seq<char>, p: int)
    requires
        0 <= p <= input.len(),
    ensures
        p <= digits_end(input, p) <= input.len(),
    decreases input.len() - p,
{
    if p < input.len() && is_digit_char(input[p]) {
        lemma_digits_end_bounds(input, p + 1);
    }
}

/// Scanning one token makes progress: from inside the input it consumes at
/// least one character and stops at or before the end; at the end it stays
/// put and reports end-of-file.
pub proof fn lemma_scan_token_bounds(input: Seq<char>, p: int)
    requires
        0 <= p <= input.len(),
    ensures
        p < input.len() ==> p + 1 <= scan_token(input, p).end <= input.len(),
        p == input.len() ==> scan_token(input, p).end == p && scan_token(input, p).typ
            == TokenType::EOF,
{
    lemma_ws_end_bounds(input, p);
    let q = ws_end(input, p);
    if q < input.len() {
        lemma_ident_end_bounds(input, q + 1);
        lemma_digits_end_bounds(input, q + 1);
    }
}

/// The lexer: the source text, a cursor (current offset and lookahead
/// offset, counted in characters), and the character under the cursor,
/// where the NUL character stands for the end of the input.
pub struct Lexer {
    input: String,
    length: usize,
    position: usize,
    read_position: usize,
    pub ch: char,
}

impl Lexer {
    /// The source text being scanned.
    pub closed spec fn src(self) -> Seq<char> {
        self.input@
    }

    /// The position the next scan starts from.
    pub closed spec fn pos(self) -> int {
        self.position as int
    }

    /// The cursor is inside the text (or just past it), the lookahead
    /// offset is one ahead, and the current character matches the cursor,
    /// with the NUL sentinel at the end.
    pub closed spec fn wf(self) -> bool {
        &&& self.length == self.input@.len()
        &&& self.position <= self.length
        &&& (self.position < self.length ==> self.read_position == self.position + 1 && self.ch
            == self.input@[self.position as int])
        &&& (self.position == self.length ==> self.read_position == self.length && self.ch == '\0')
    }

    /// A well-formed lexer's scan position lies within its text.
    pub proof fn lemma_pos_in_range(self)
        requires
            self.wf(),
        ensures
            0 <= self.pos() <= self.src().len(),
    {
    }

    /// A lexer at the start of the given source text.
    pub fn new(input: &str) -> (l: Lexer)
        ensures
            l.wf(),
            l.src() == input@,
            l.pos() == 0,
    {
        let length = input.unicode_len();
        let ch = if length == 0 {
            '\0'
        } else {
            input.get_char(0)
        };
        let read_position: usize = if length == 0 {
            0
        } else {
            1
        };
        Lexer { input: input.to_owned(), length, position: 0, read_position, ch }
    }

    /// Advance the cursor by one character; at the end of the input the
    /// cursor stays there and the current character becomes the NUL
    /// sentinel.
    pub fn read_char(&mut self)
        requires
            old(self).wf(),
        ensures
            final(self).wf(),
            final(self).src() == old(self).src(),
            final(self).pos() == if old(self).pos() < old(self).src().len() {
                old(self).pos() + 1
            } else {
                old(self).pos()
            },
    {
        if self.read_position >= self.length {
            self.ch = '\0';
            self.position = self.length;
            self.read_position = self.length;
        } else {
            self.ch = self.input.as_str().get_char(self.read_position);
            self.position = self.read_position;
            self.read_position = self.read_position + 1;
        }
    }

    /// The character one past the cursor, or the NUL sentinel past the end
    /// of the input. Looking ahead never faults.
    fn peek_char(&self) -> (c: char)
        requires
            self.wf(),
        ensures
            c == if self.pos() + 1 < self.src().len() {
                self.src()[self.pos() + 1]
            } else {
                '\0'
            },
    {
        if self.read_position >= self.length {
            '\0'
        } else {
            self.input.as_str().get_char(self.read_position)
        }
    }

    /// Skip the maximal run of whitespace under the cursor.
    pub fn skip_whitespace(&mut self)
        requires
            old(self).wf(),
        ensures
            final(self).wf(),
            final(self).src() == old(self).src(),
            final(self).pos() == ws_end(old(self).src(), old(self).pos()),
    {
        while self.ch == ' ' || self.ch == '\t' || self.ch == '\n' || self.ch == '\r'
            invariant
                self.wf(),
                self.src() == old(self).src(),
                ws_end(self.src(), self.pos()) == ws_end(old(self).src(), old(self).pos()),
            decreases self.src().len() - self.pos(),
        {
            proof {
                assert(self.position < self.length);
            }
            self.read_char();
        }
    }

    /// Consume the maximal run of identifier characters and return it.
    fn read_identifier(&mut self) -> (r: String)
        requires
            old(self).wf(),
            old(self).pos() < old(self).src().len(),
            is_letter_char(old(self).src()[old(self).pos()]),
        ensures
            final(self).wf(),
            final(self).src() == old(self).src(),
            final(self).pos() == ident_end(old(self).src(), old(self).pos()),
            r@ == old(self).src().subrange(old(self).pos(), final(self).pos()),
    {
        let position = self.position;
        while is_letter(self.ch)
            invariant
                self.wf(),
                self.src() == old(self).src(),
                position <= self.position,
                ident_end(self.src(), self.pos()) == ident_end(old(self).src(), old(self).pos()),
            decreases self.src().len() - self.pos(),
        {
            proof {
                assert(self.position < self.length);
            }
            self.read_char();
        }
        proof {
            lemma_ident_end_bounds(old(self).src(), old(self).pos());
        }
        self.input.as_str().substring_char(position, self.position).to_owned()
    }

    /// Consume the maximal run of digits and return it.
    fn read_number(&mut self) -> (r: String)
        requires
            old(self).wf(),
            old(self).pos() < old(self).src().len(),
            is_digit_char(old(self).src()[old(self).pos()]),
        ensures
            final(self).wf(),
            final(self).src() == old(self).src(),
            final(self).pos() == digits_end(old(self).src(), old(self).pos()),
            r@ == old(self).src().subrange(old(self).pos(), final(self).pos()),
    {
        let position = self.position;
        while is_digit(self.ch)
            invariant
                self.wf(),
                self.src() == old(self).src(),
                position <= self.position,
                digits_end(self.src(), self.pos()) == digits_end(old(self).src(), old(self).pos()),
            decreases self.src().len() - self.pos(),
        {
            proof {
                assert(self.position < self.length);
            }
            self.read_char();
        }
        proof {
            lemma_digits_end_bounds(old(self).src(), old(self).pos());
        }
        self.input.as_str().substring_char(position, self.position).to_owned()
    }

    /// Scan and return exactly one token, advancing the cursor past it.
    /// Never fails: unrecognized characters yield `ILLEGAL`, and the end of
    /// the input yields `EOF`, repeatably.
    pub fn next_token(&mut self) -> (r: Token)
        requires
            old(self).wf(),
        ensures
            final(self).wf(),
            final(self).src() == old(self).src(),
            ({
                let st = scan_token(old(self).src(), old(self).pos());
                r@ == (TokenModel { typ: st.typ, literal: st.literal }) && final(self).pos()
                    == st.end
            }),
    {
        self.skip_whitespace();

        match self.ch {
            '=' => {
                if self.peek_char() == '=' {
                    self.read_char();
                    let token = Token {
                        typ: TokenType::EQ,
                        literal: String::from_str("=="),
                    };
                    proof {
                        reveal_strlit("==");
                        assert("=="@.len() == 2);
                        assert("=="@[0] == '=' && "=="@[1] == '=');
                        assert("=="@ =~= seq!['=', '=']);
                    }
                    self.read_char();
                    token
                } else {
                    let token = Token::new(TokenType::ASSIGN, self.ch);
                    self.read_char();
                    token
                }
            },
            '!' => {
                if self.peek_char() == '=' {
                    self.read_char();
                    let token = Token {
                        typ: TokenType::NEQ,
                        literal: String::from_str("!="),
                    };
                    proof {
                        reveal_strlit("!=");
                        assert("!="@.len() == 2);
                        assert("!="@[0] == '!' && "!="@[1] == '=');
                        assert("!="@ =~= seq!['!', '=']);
                    }
                    self.read_char();
                    token
                } else {
                    let token = Token::new(TokenType::BANG, self.ch);
                    self.read_char();
                    token
                }
            },
            ';' => {
                let token = Token::new(TokenType::SEMICOLON, self.ch);
                self.read_char();
                token
            },
            '(' => {
                let token = Token::new(TokenType::LPAREN, self.ch);
                self.read_char();
                token
            },
            ')' => {
                let token = Token::new(TokenType::RPAREN, self.ch);
                self.read_char();
                token
            },
            ',' => {
                let token = Token::new(TokenType::COMMA, self.ch);
                self.read_char();
                token
            },
            '+' => {
                let token = Token::new(TokenType::PLUS, self.ch);
                self.read_char();
                token
            },
            '-' => {
                let token = Token::new(TokenType::MINUS, self.ch);
                self.read_char();
                token
            },
            '/' => {
                let token = Token::new(TokenType::SLASH, self.ch);
                self.read_char();
                token
            },
            '*' => {
                let token = Token::new(TokenType::ASTERISK, self.ch);
                self.read_char();
                token
            },
            '<' => {
                let token = Token::new(TokenType::LT, self.ch);
                self.read_char();
                token
            },
            '>' => {
                let token = Token::new(TokenType::GT, self.ch);
                self.read_char();
                token
            },
            '{' => {
                let token = Token::new(TokenType::LBRACE, self.ch);
                self.read_char();
                token
            },
            '}' => {
                let token = Token::new(TokenType::RBRACE, self.ch);
                self.read_char();
                token
            },
            '\0' => {
                let token = Token::new(TokenType::EOF, ' ');
                self.read_char();
                token
            },
            _ => {
                if is_letter(self.ch) {
                    let literal = self.read_identifier();
                    let typ = TokenType::serialize(&literal);
                    Token { typ, literal }
                } else if is_digit(self.ch) {
                    let literal = self.read_number();
                    Token { typ: TokenType::INT, literal }
                } else {
                    let token = Token::new(TokenType::ILLEGAL, self.ch);
                    self.read_char();
                    token
                }
            },
        }
    }
}

/// Whether a character may appear in an identifier: an ASCII letter or the
/// underscore.
pub fn is_letter(ch: char) -> (r: bool)
    ensures
        r == is_letter_char(ch),
{
    let u = ch as u32;
    ('a' as u32) <= u && u <= ('z' as u32) || ('A' as u32) <= u && u <= ('Z' as u32) || ch == '_'
}

/// Whether a character is an ASCII digit.
pub fn is_digit(ch: char) -> (r: bool)
    ensures
        r == is_digit_char(ch),
{
    let u = ch as u32;
    ('0' as u32) <= u && u <= ('9' as u32)
}

/// The category of each single-character token that needs no look-ahead.
pub open spec fn single_char_type(c: char) -> TokenType {
    if c == ';' {
        TokenType::SEMICOLON
    } else if c == '(' {
        TokenType::LPAREN
    } else if c == ')' {
        TokenType::RPAREN
    } else if c == ',' {
        TokenType::COMMA
    } else if c == '+' {
        TokenType::PLUS
    } else if c == '-' {
        TokenType::MINUS
    } else if c == '/' {
        TokenType::SLASH
    } else if c == '*' {
        TokenType::ASTERISK
    } else if c == '<' {
        TokenType::LT
    } else if c == '>' {
        TokenType::GT
    } else if c == '{' {
        TokenType::LBRACE
    } else if c == '}' {
        TokenType::RBRACE
    } else {
        TokenType::ILLEGAL
    }
}

/// Tokenizing one unambiguous single-character operator or delimiter gives
/// exactly one token of the matching category whose literal is that very
/// character, and consumes exactly that character.
pub proof fn lemma_single_char_token(c: char)
    requires
        c == ';' || c == '(' || c == ')' || c == ',' || c == '+' || c == '-' || c == '/' || c
            == '*' || c == '<' || c == '>' || c == '{' || c == '}',
    ensures
        scan_token(seq![c], 0) == (ScanTok {
            typ: single_char_type(c),
            literal: seq![c],
            end: 1,
        }),
{
}

/// The two look-ahead sensitive characters: `=` followed by `=` scans as
/// one `==` token and `!` followed by `=` as one `!=` token; otherwise each
/// scans alone as `=` or `!`, consuming exactly one character.
pub proof fn lemma_lookahead_operators(input: Seq<char>, p: int)
    requires
        0 <= p < input.len(),
    ensures
        input[p] == '=' ==> scan_at(input, p) == if p + 1 < input.len() && input[p + 1] == '=' {
            ScanTok { typ: TokenType::EQ, literal: seq!['=', '='], end: p + 2 }
        } else {
            ScanTok { typ: TokenType::ASSIGN, literal: seq!['='], end: p + 1 }
        },
        input[p] == '!' ==> scan_at(input, p) == if p + 1 < input.len() && input[p + 1] == '=' {
            ScanTok { typ: TokenType::NEQ, literal: seq!['!', '='], end: p + 2 }
        } else {
            ScanTok { typ: TokenType::BANG, literal: seq!['!'], end: p + 1 }
        },
{
}

/// Scanning at or past the end of the input yields the end-of-file token
/// and does not move: every later scan yields it again.
pub proof fn lemma_eof_idempotent(input: Seq<char>, p: int)
    requires
        input.len() <= p,
    ensures
        scan_token(input, p) == (ScanTok { typ: TokenType::EOF, literal: seq![' '], end: p }),
{
}

/// A text of identifier characters scans as one maximal run: the run from
/// any position inside it ends only at the end of the text.
pub proof fn lemma_ident_end_all_letters(input: Seq<char>, i: int)
    requires
        0 <= i <= input.len(),
        forall|j: int| 0 <= j < input.len() ==> is_letter_char(input[j]),
    ensures
        ident_end(input, i) == input.len(),
    decreases input.len() - i,
{
    if i < input.len() {
        lemma_ident_end_all_letters(input, i + 1);
    }
}

} // verus!
