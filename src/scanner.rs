use vstd::prelude::*;
use crate::error::ScanError;
use crate::span::Span;
use crate::token::{keyword_of, Token, TokenType};
use vstd::string::StrSliceExecFns;
use vstd::std_specs::iter::IteratorSpec;

verus! {

pub open spec fn is_digit(c: char) -> bool {
    '0' <= c && c <= '9'
}

pub open spec fn is_alpha(c: char) -> bool {
    ('a' <= c && c <= 'z') || ('A' <= c && c <= 'Z')
}

pub open spec fn is_space(c: char) -> bool {
    c == ' ' || c == '\t' || c == '\n' || c == '\r' || c == '\x0C'
}

/// Whether `c` may start an identifier.
pub open spec fn spec_identifier_start(c: char) -> bool {
    is_alpha(c) || c == '_'
}

/// Whether `c` may continue an identifier.
pub open spec fn spec_identifier_tail(c: char) -> bool {
    is_digit(c) || spec_identifier_start(c)
}

/// Whether `c` may start an identifier: an ASCII letter or an underscore.
pub fn is_valid_identifier_start(c: char) -> (r: bool)
    ensures
        r == spec_identifier_start(c),
{
    ('a' <= c && c <= 'z') || ('A' <= c && c <= 'Z') || c == '_'
}

/// Whether `c` may continue an identifier: an ASCII letter, digit or underscore.
pub fn is_valid_identifier_tail(c: char) -> (r: bool)
    ensures
        r == spec_identifier_tail(c),
{
    ('0' <= c && c <= '9') || is_valid_identifier_start(c)
}

fn is_ascii_digit(c: char) -> (r: bool)
    ensures
        r == is_digit(c),
{
    '0' <= c && c <= '9'
}

fn is_ascii_space(c: char) -> (r: bool)
    ensures
        r == is_space(c),
{
    c == ' ' || c == '\t' || c == '\n' || c == '\r' || c == '\x0C'
}

/// The number of bytes of `c` in UTF-8.
pub open spec fn utf8_len(c: char) -> nat {
    if (c as u32) < 0x80 { 1 }
    else if (c as u32) < 0x800 { 2 }
    else if (c as u32) < 0x10000 { 3 }
    else { 4 }
}

/// The byte offset, in UTF-8, of the character at index `i`.
pub open spec fn byte_offset(s: Seq<char>, i: int) -> nat
    decreases i,
{
    if i <= 0 || s.len() == 0 { 0 }
    else if i > s.len() { byte_offset(s, s.len() as int) }
    else { byte_offset(s, i - 1) + utf8_len(s[i - 1]) }
}

proof fn lemma_byte_offset_bound(s: Seq<char>, i: int)
    requires
        0 <= i <= s.len(),
    ensures
        byte_offset(s, i) <= 4 * i,
    decreases i,
{
    if i > 0 {
        lemma_byte_offset_bound(s, i - 1);
    }
}

fn char_width(c: char) -> (r: usize)
    ensures
        r as nat == utf8_len(c),
{
    let v = c as u32;
    if v < 0x80 { 1 } else if v < 0x800 { 2 } else if v < 0x10000 { 3 } else { 4 }
}

/// The number of newlines among the first `i` characters of `s`.
pub open spec fn newlines(s: Seq<char>, i: int) -> nat
    decreases i,
{
    if i <= 0 || i > s.len() { 0 } else { newlines(s, i - 1) + if s[i - 1] == '\n' { 1nat } else { 0nat } }
}

/// The 1-based line of the character at index `i` (saturating).
pub open spec fn line_at(s: Seq<char>, i: int) -> u32 {
    if 1 + newlines(s, i) >= u32::MAX { u32::MAX } else { (1 + newlines(s, i)) as u32 }
}

/// Every character of `w` satisfies `p`.
pub open spec fn all_chars(w: Seq<char>, p: spec_fn(char) -> bool) -> bool {
    forall|i: int| 0 <= i < w.len() ==> #[trigger] p(w[i])
}

/// A number literal: digits, optionally followed by a dot and more digits.
pub open spec fn is_number_text(w: Seq<char>) -> bool {
    ||| (w.len() > 0 && all_chars(w, |c: char| is_digit(c)))
    ||| exists|k: int| 0 < k < w.len() - 1 && w[k] == '.'
            && all_chars(w.subrange(0, k), |c: char| is_digit(c))
            && all_chars(w.subrange(k + 1, w.len() as int), |c: char| is_digit(c))
}

pub open spec fn is_identifier_text(w: Seq<char>) -> bool {
    w.len() > 0 && spec_identifier_start(w[0]) && all_chars(w, |c: char| spec_identifier_tail(c))
}

/// Whether some token may start with `c` (the end marker included).
pub open spec fn starts_token(c: char) -> bool {
    ||| c == '(' || c == ')' || c == '{' || c == '}' || c == ';' || c == ',' || c == '.'
    ||| c == '+' || c == '-' || c == '*' || c == '!' || c == '=' || c == '>' || c == '<'
    ||| c == '"' || c == '/' || c == '\0'
    ||| is_digit(c) || is_space(c) || spec_identifier_start(c)
}

/// The lexeme `s[start..end]` is as long as the grammar allows: an
/// identifier or keyword is not followed by an identifier character, and a
/// number by no digit (nor, without a fraction yet, by `.` and a digit).
pub open spec fn maximal(s: Seq<char>, start: int, end: int) -> bool {
    &&& spec_identifier_start(s[start]) ==> !(end < s.len() && spec_identifier_tail(s[end]))
    &&& is_digit(s[start]) ==> !(end < s.len() && is_digit(s[end]))
    &&& is_digit(s[start]) && !s.subrange(start, end).contains('.')
        ==> !(end + 1 < s.len() && s[end] == '.' && is_digit(s[end + 1]))
}

/// The kind of a token agrees with its lexeme `w`.
pub open spec fn lexeme_matches(kind: TokenType, w: Seq<char>) -> bool {
    match kind {
        TokenType::LeftParen => w == "("@,
        TokenType::RightParen => w == ")"@,
        TokenType::LeftBrace => w == "{"@,
        TokenType::RightBrace => w == "}"@,
        TokenType::Comma => w == ","@,
        TokenType::Dot => w == "."@,
        TokenType::Minus => w == "-"@,
        TokenType::Plus => w == "+"@,
        TokenType::Semicolon => w == ";"@,
        TokenType::Star => w == "*"@,
        TokenType::Slash => w == "/"@,
        TokenType::Bang => w == "!"@,
        TokenType::BangEqual => w == "!="@,
        TokenType::Equal => w == "="@,
        TokenType::EqualEqual => w == "=="@,
        TokenType::Greater => w == ">"@,
        TokenType::GreaterEqual => w == ">="@,
        TokenType::Less => w == "<"@,
        TokenType::LessEqual => w == "<="@,
        TokenType::Comment(c) => w.len() >= 2 && w[0] == '/' && w[1] == '/'
            && c@ == w.subrange(2, w.len() as int) && !c@.contains('\n'),
        TokenType::BlockComment(c, _) => w.len() >= 4 && w[0] == '/' && w[1] == '*'
            && w[w.len() - 2] == '*' && w[w.len() - 1] == '/'
            && c@ == w.subrange(2, w.len() - 2),
        TokenType::Identifier(n) => n@ == w && is_identifier_text(w) && keyword_of(w) is None
            && w != "NaN"@,
        TokenType::String(s) => w.len() >= 2 && w[0] == '"' && w[w.len() - 1] == '"'
            && s@ == w.subrange(1, w.len() - 1) && !s@.contains('"'),
        TokenType::Number(t) => t@ == w && (is_number_text(w) || w == "NaN"@),
        TokenType::Whitespace(t) => t@ == w && w.len() > 0 && all_chars(w, |c: char| is_space(c)),
        TokenType::EOF => w.len() == 0 || w == seq!['\0'],
        TokenType::Error(ScanError::UnexpectedChar(c)) => w == seq![c] && !starts_token(c),
        TokenType::Error(ScanError::UnterminatedString) => w.len() >= 1 && w[0] == '"'
            && !w.drop_first().contains('"') && !w.contains('\0'),
        TokenType::Error(ScanError::UnterminatedComment) => w.len() >= 2 && w[0] == '/' && w[1] == '*'
            && forall|i: int| 2 <= i < w.len() - 1 ==> !(#[trigger] w[i] == '*' && w[i + 1] == '/'),
        TokenType::Error(ScanError::InvalidNumberLiteral) => false,
        _ => keyword_of(w) == Some(kind),
    }
}

/// A lazy scanner over a source string. Spans count bytes; lines start at 1.
pub struct Scanner {
    chars: Vec<char>,
    pos: usize,
    offset: usize,
    start_pos: usize,
    lexeme_start: usize,
    start_line: u32,
    line: u32,
    emitted_eof: bool,
}

/// The characters of the string, in order.
fn chars_of(src: &str) -> (r: Vec<char>)
    ensures
        r@ == src@,
{
    broadcast use vstd::string::axiom_spec_iter, vstd::string::next_postcondition;

    let mut it = src.chars();
    let mut out: Vec<char> = Vec::new();
    loop
        invariant
            it.obeys_prophetic_iter_laws(),
            out@ + it.remaining() == src@,
        decreases src@.len() - out@.len(),
    {
        match it.next() {
            Some(c) => {
                proof {
                    assert(out@.push(c) + it.remaining() =~= src@);
                }
                out.push(c);
            },
            None => {
                assert(out@ =~= src@);
                return out;
            },
        }
    }
}

/// Relies on `FromIterator<char>` for `String`: the string of the given characters.
#[verifier::external_body]
pub(crate) fn string_of(chars: &Vec<char>, lo: usize, hi: usize) -> (r: String)
    requires
        lo <= hi <= chars@.len(),
    ensures
        r@ == chars@.subrange(lo as int, hi as int),
{
    chars[lo..hi].iter().collect()
}

impl Scanner {
    pub closed spec fn source(&self) -> Seq<char> {
        self.chars@
    }

    /// Index of the current character.
    pub closed spec fn position(&self) -> nat {
        self.pos as nat
    }

    /// Index of the first character of the last lexeme.
    pub closed spec fn lexeme_position(&self) -> nat {
        self.start_pos as nat
    }

    pub closed spec fn finished(&self) -> bool {
        self.emitted_eof
    }

    pub closed spec fn wf(&self) -> bool {
        &&& self.pos <= self.chars@.len()
        &&& self.start_pos <= self.pos
        &&& 4 * self.chars@.len() <= usize::MAX
        &&& self.offset == byte_offset(self.chars@, self.pos as int)
        &&& self.lexeme_start == byte_offset(self.chars@, self.start_pos as int)
        &&& self.line == line_at(self.chars@, self.pos as int)
        &&& self.start_line == line_at(self.chars@, self.start_pos as int)
    }

    /// The last lexeme, as characters of the source.
    pub open spec fn lexeme(&self) -> Seq<char> {
        self.source().subrange(self.lexeme_position() as int, self.position() as int)
    }

    spec fn cur(&self) -> char {
        if self.pos < self.chars@.len() { self.chars@[self.pos as int] } else { '\0' }
    }

    /// Creates a scanner at the start of `src`, on line 1.
    pub fn new(src: &str) -> (r: Scanner)
        requires
            4 * src@.len() <= usize::MAX,
        ensures
            r.wf(),
            r.source() == src@,
            r.position() == 0,
            !r.finished(),
    {
        let chars = chars_of(src);
        Scanner {
            chars,
            pos: 0,
            offset: 0,
            start_pos: 0,
            lexeme_start: 0,
            start_line: 1,
            line: 1,
            emitted_eof: false,
        }
    }

    /// The current character, or `'\0'` at the end.
    fn current(&self) -> (r: char)
        ensures
            r == self.cur(),
    {
        if self.pos < self.chars.len() { self.chars[self.pos] } else { '\0' }
    }

    /// The character after the current one, or `'\0'`.
    fn peek(&self) -> (r: char)
        requires
            self.wf(),
        ensures
            self.pos + 1 < self.chars@.len() ==> r == self.chars@[self.pos + 1],
            self.pos + 1 >= self.chars@.len() ==> r == '\0',
    {
        if self.pos + 1 < self.chars.len() { self.chars[self.pos + 1] } else { '\0' }
    }

    /// Returns the current character and moves past it.
    fn advance(&mut self) -> (r: char)
        requires
            old(self).wf(),
        ensures
            final(self).wf(),
            r == old(self).cur(),
            final(self).chars == old(self).chars,
            final(self).start_pos == old(self).start_pos,
            r != '\n' ==> final(self).line == old(self).line,
            final(self).start_line == old(self).start_line,
            final(self).emitted_eof == old(self).emitted_eof,
            old(self).pos < old(self).chars@.len() ==> final(self).pos == old(self).pos + 1,
            old(self).pos >= old(self).chars@.len() ==> final(self).pos == old(self).pos,
    {
        let c = self.current();
        if self.pos < self.chars.len() {
            proof {
                lemma_byte_offset_bound(self.chars@, self.pos + 1);
            }
            self.offset = self.offset + char_width(c);
            self.pos = self.pos + 1;
            if c == '\n' && self.line < u32::MAX {
                self.line = self.line + 1;
            }
        }
        c
    }

    /// Moves past the current character if it is `expected`.
    fn take(&mut self, expected: char) -> (r: bool)
        requires
            old(self).wf(),
            expected != '\n',
        ensures
            final(self).wf(),
            r == (old(self).cur() == expected && old(self).pos < old(self).chars@.len()),
            final(self).chars == old(self).chars,
            final(self).start_pos == old(self).start_pos,
            final(self).line == old(self).line,
            final(self).start_line == old(self).start_line,
            final(self).emitted_eof == old(self).emitted_eof,
            final(self).pos == old(self).pos + if r { 1int } else { 0int },
    {
        if self.pos >= self.chars.len() || self.current() != expected {
            return false;
        }
        self.advance();
        true
    }

    /// `a` after moving past `expected`, or `b` where the current character differs.
    fn take_select(&mut self, expected: char, a: TokenType, b: TokenType) -> (r: TokenType)
        requires
            old(self).wf(),
            expected != '\n',
        ensures
            final(self).wf(),
            final(self).chars == old(self).chars,
            final(self).start_pos == old(self).start_pos,
            final(self).line == old(self).line,
            final(self).start_line == old(self).start_line,
            final(self).emitted_eof == old(self).emitted_eof,
            old(self).cur() == expected && old(self).pos < old(self).chars@.len()
                ==> r == a && final(self).pos == old(self).pos + 1,
            !(old(self).cur() == expected && old(self).pos < old(self).chars@.len())
                ==> r == b && final(self).pos == old(self).pos,
    {
        if self.take(expected) { a } else { b }
    }

    /// The span of the current lexeme.
    fn lex_span(&self) -> (r: Span)
        requires
            self.wf(),
        ensures
            r == Span(self.lexeme_start, self.offset, self.start_line),
            r.wf(),
    {
        proof {
            lemma_byte_offset_mono(self.chars@, self.start_pos as int, self.pos as int);
        }
        Span::new(self.lexeme_start, self.offset, self.start_line)
    }

    /// The current lexeme with `lo` characters cut from its front and `hi`
    /// from its back.
    fn lex(&self, lo: usize, hi: usize) -> (r: String)
        requires
            self.wf(),
            self.start_pos + lo <= self.pos - hi,
        ensures
            r@ == self.chars@.subrange(self.start_pos + lo, self.pos - hi),
    {
        string_of(&self.chars, self.start_pos + lo, self.pos - hi)
    }

    /// Whether the current character ends the source.
    fn is_at_end(&self) -> (r: bool)
        ensures
            r == (self.cur() == '\0'),
    {
        self.current() == '\0'
    }

    /// Moves up to the next `ch`, or to the end.
    fn consume_until(&mut self, ch: char)
        requires
            old(self).wf(),
        ensures
            final(self).wf(),
            final(self).chars == old(self).chars,
            final(self).start_pos == old(self).start_pos,
            final(self).start_line == old(self).start_line,
            final(self).emitted_eof == old(self).emitted_eof,
            old(self).pos <= final(self).pos,
            final(self).cur() == ch || final(self).cur() == '\0',
            forall|i: int| old(self).pos <= i < final(self).pos
                ==> final(self).chars@[i] != ch && final(self).chars@[i] != '\0',
    {
        while self.current() != ch && !self.is_at_end()
            invariant
                self.wf(),
                self.chars == old(self).chars,
                self.start_pos == old(self).start_pos,
                self.start_line == old(self).start_line,
                self.emitted_eof == old(self).emitted_eof,
                old(self).pos <= self.pos,
                forall|i: int| old(self).pos <= i < self.pos
                    ==> self.chars@[i] != ch && self.chars@[i] != '\0',
            decreases self.chars@.len() - self.pos,
        {
            self.advance();
        }
    }
}

/// Whether `chars[lo..hi]` spells `w`.
fn word_is(chars: &Vec<char>, lo: usize, hi: usize, w: &str) -> (r: bool)
    requires
        lo <= hi <= chars@.len(),
    ensures
        r == (chars@.subrange(lo as int, hi as int) == w@),
{
    let n = w.unicode_len();
    if hi - lo != n {
        return false;
    }
    let mut i: usize = 0;
    while i < n
        invariant
            lo + n == hi,
            hi <= chars@.len(),
            n == w@.len(),
            i <= n,
            forall|j: int| 0 <= j < i ==> chars@[lo + j] == w@[j],
        decreases n - i,
    {
        if chars[lo + i] != w.get_char(i) {
            assert(chars@.subrange(lo as int, hi as int)[i as int] != w@[i as int]);
            return false;
        }
        i = i + 1;
    }
    assert(chars@.subrange(lo as int, hi as int) =~= w@);
    true
}

/// The reserved word spelled by `chars[lo..hi]`, if any.
fn keyword(chars: &Vec<char>, lo: usize, hi: usize) -> (r: Option<TokenType>)
    requires
        lo <= hi <= chars@.len(),
    ensures
        r == keyword_of(chars@.subrange(lo as int, hi as int)),
{
    if word_is(chars, lo, hi, "and") { Some(TokenType::And) }
    else if word_is(chars, lo, hi, "class") { Some(TokenType::Class) }
    else if word_is(chars, lo, hi, "else") { Some(TokenType::Else) }
    else if word_is(chars, lo, hi, "false") { Some(TokenType::False) }
    else if word_is(chars, lo, hi, "fun") { Some(TokenType::Fun) }
    else if word_is(chars, lo, hi, "for") { Some(TokenType::For) }
    else if word_is(chars, lo, hi, "if") { Some(TokenType::If) }
    else if word_is(chars, lo, hi, "nil") { Some(TokenType::Nil) }
    else if word_is(chars, lo, hi, "or") { Some(TokenType::Or) }
    else if word_is(chars, lo, hi, "print") { Some(TokenType::Print) }
    else if word_is(chars, lo, hi, "return") { Some(TokenType::Return) }
    else if word_is(chars, lo, hi, "super") { Some(TokenType::Super) }
    else if word_is(chars, lo, hi, "this") { Some(TokenType::This) }
    else if word_is(chars, lo, hi, "true") { Some(TokenType::True) }
    else if word_is(chars, lo, hi, "var") { Some(TokenType::Var) }
    else if word_is(chars, lo, hi, "while") { Some(TokenType::While) }
    else { None }
}

proof fn lemma_byte_offset_mono(s: Seq<char>, i: int, j: int)
    requires
        0 <= i <= j <= s.len(),
    ensures
        byte_offset(s, i) <= byte_offset(s, j),
    decreases j - i,
{
    if i < j {
        lemma_byte_offset_mono(s, i, j - 1);
    }
}


/// Facts every lexing step keeps: the source, the lexeme start and the EOF flag.
pub open spec fn same_frame(a: &Scanner, b: &Scanner) -> bool {
    &&& a.source() == b.source()
    &&& a.lexeme_position() == b.lexeme_position()
    &&& a.finished() == b.finished()
}

impl Scanner {
    /// Scans a string literal whose opening quote was consumed.
    fn string(&mut self) -> (r: TokenType)
        requires
            old(self).wf(),
            old(self).pos == old(self).start_pos + 1,
            old(self).chars@[old(self).start_pos as int] == '"',
        ensures
            final(self).wf(),
            same_frame(old(self), final(self)),
            final(self).start_line == old(self).start_line,
            final(self).pos > final(self).start_pos,
            lexeme_matches(r, final(self).lexeme()),
            !(r is EOF),
            r is Error ==> r == TokenType::Error(ScanError::UnterminatedString) && final(self).cur() == '\0',
            r is String || r is Error,
    {
        self.consume_until('"');
        if self.is_at_end() {
            proof {
                let w = self.lexeme();
                assert forall|i: int| 0 <= i < w.drop_first().len() implies w.drop_first()[i] != '"' && w.drop_first()[i] != '\0' by {
                    assert(w.drop_first()[i] == self.chars@[self.start_pos + 1 + i]);
                }
                assert forall|i: int| 0 <= i < w.len() implies w[i] != '\0' by {
                    if i > 0 {
                        assert(w[i] == w.drop_first()[i - 1]);
                    }
                }
            }
            return TokenType::Error(ScanError::UnterminatedString);
        }
        self.advance();
        let s = self.lex(1, 1);
        proof {
            let w = self.lexeme();
            assert(w[0] == '"');
            assert(w[w.len() - 1] == '"');
            assert(s@ =~= w.subrange(1, w.len() - 1));
            assert forall|i: int| 0 <= i < s@.len() implies s@[i] != '"' by {
                assert(s@[i] == self.chars@[self.start_pos + 1 + i]);
            }
        }
        TokenType::String(s)
    }

    /// Scans a comment, or a slash, after a consumed `/`.
    fn comment_or_slash(&mut self) -> (r: TokenType)
        requires
            old(self).wf(),
            old(self).pos == old(self).start_pos + 1,
            old(self).chars@[old(self).start_pos as int] == '/',
        ensures
            final(self).wf(),
            same_frame(old(self), final(self)),
            final(self).start_line == old(self).start_line,
            final(self).pos > final(self).start_pos,
            lexeme_matches(r, final(self).lexeme()),
            !(r is EOF),
            r is Error ==> r == TokenType::Error(ScanError::UnterminatedComment) && final(self).cur() == '\0',
            r is Slash || r is Comment || r is BlockComment || r is Error,
    {
        let c = self.current();
        if c == '/' {
            self.comment()
        } else if c == '*' {
            self.block_comment()
        } else {
            proof {
                reveal_strlit("/");
                assert(self.lexeme() =~= "/"@);
            }
            TokenType::Slash
        }
    }

    /// Scans a line comment up to, not including, the newline.
    fn comment(&mut self) -> (r: TokenType)
        requires
            old(self).wf(),
            old(self).pos == old(self).start_pos + 1,
            old(self).pos < old(self).chars@.len(),
            old(self).chars@[old(self).start_pos as int] == '/',
            old(self).chars@[old(self).pos as int] == '/',
        ensures
            final(self).wf(),
            same_frame(old(self), final(self)),
            final(self).start_line == old(self).start_line,
            final(self).pos > final(self).start_pos,
            lexeme_matches(r, final(self).lexeme()),
            !(r is EOF),
            !(r is Error),
            r is Comment,
    {
        self.advance();
        self.consume_until('\n');
        let c = self.lex(2, 0);
        proof {
            let w = self.lexeme();
            assert(c@ =~= w.subrange(2, w.len() as int));
            assert forall|i: int| 0 <= i < c@.len() implies c@[i] != '\n' by {
                assert(c@[i] == self.chars@[self.start_pos + 2 + i]);
            }
        }
        TokenType::Comment(c)
    }

    /// Scans a block comment; the first `*/` closes it.
    fn block_comment(&mut self) -> (r: TokenType)
        requires
            old(self).wf(),
            old(self).pos == old(self).start_pos + 1,
            old(self).pos < old(self).chars@.len(),
            old(self).chars@[old(self).start_pos as int] == '/',
            old(self).chars@[old(self).pos as int] == '*',
        ensures
            final(self).wf(),
            same_frame(old(self), final(self)),
            final(self).start_line == old(self).start_line,
            final(self).pos > final(self).start_pos,
            lexeme_matches(r, final(self).lexeme()),
            !(r is EOF),
            r is Error ==> r == TokenType::Error(ScanError::UnterminatedComment) && final(self).cur() == '\0',
            r is BlockComment || r is Error,
    {
        self.advance();
        let line = self.start_line;
        let mut closed = false;
        while !closed && !self.is_at_end()
            invariant
                self.wf(),
                same_frame(old(self), self),
                self.start_line == old(self).start_line,
                self.pos >= self.start_pos + 2,
                self.chars@[self.start_pos + 1] == '*',
                closed ==> self.pos >= self.start_pos + 4 && self.chars@[self.pos - 2] == '*'
                    && self.chars@[self.pos - 1] == '/',
                !closed ==> forall|i: int| self.start_pos + 2 <= i < self.pos && i + 1 < self.chars@.len()
                    ==> !(#[trigger] self.chars@[i] == '*' && self.chars@[i + 1] == '/'),
            decreases self.chars@.len() - self.pos, if closed { 0int } else { 1int },
        {
            let c = self.advance();
            if c == '*' && self.take('/') {
                closed = true;
            }
        }
        if !closed {
            proof {
                let w = self.lexeme();
                assert forall|i: int| 2 <= i < w.len() - 1 implies !(#[trigger] w[i] == '*' && w[i + 1] == '/') by {
                    assert(w[i] == self.chars@[self.start_pos + i]);
                    assert(w[i + 1] == self.chars@[self.start_pos + i + 1]);
                }
            }
            return TokenType::Error(ScanError::UnterminatedComment);
        }
        let text = self.lex(2, 2);
        proof {
            let w = self.lexeme();
            assert(text@ =~= w.subrange(2, w.len() - 2));
        }
        TokenType::BlockComment(text, line)
    }

    /// Scans the rest of a number literal after its first digit.
    fn number(&mut self) -> (r: TokenType)
        requires
            old(self).wf(),
            old(self).pos == old(self).start_pos + 1,
            is_digit(old(self).chars@[old(self).start_pos as int]),
        ensures
            final(self).wf(),
            same_frame(old(self), final(self)),
            final(self).start_line == old(self).start_line,
            final(self).line == old(self).line,
            final(self).pos > final(self).start_pos,
            lexeme_matches(r, final(self).lexeme()),
            !(r is EOF),
            r is Number,
            maximal(final(self).chars@, final(self).start_pos as int, final(self).pos as int),
    {
        while is_ascii_digit(self.current())
            invariant
                self.wf(),
                same_frame(old(self), self),
                self.start_line == old(self).start_line,
                self.line == old(self).line,
                self.pos > self.start_pos,
                forall|i: int| self.start_pos <= i < self.pos ==> is_digit(self.chars@[i]),
            decreases self.chars@.len() - self.pos,
        {
            self.advance();
        }
        let dot = self.pos;
        if self.current() == '.' && is_ascii_digit(self.peek()) {
            self.advance();
            while is_ascii_digit(self.current())
                invariant
                    self.wf(),
                    same_frame(old(self), self),
                    self.start_line == old(self).start_line,
                    self.line == old(self).line,
                    self.start_pos < dot,
                    dot + 1 <= self.pos,
                    dot + 1 < self.chars@.len(),
                    is_digit(self.chars@[dot + 1]),
                    self.chars@[dot as int] == '.',
                    forall|i: int| self.start_pos <= i < dot ==> is_digit(self.chars@[i]),
                    forall|i: int| dot < i < self.pos ==> is_digit(self.chars@[i]),
                decreases self.chars@.len() - self.pos,
            {
                self.advance();
            }
            let t = self.lex(0, 0);
            proof {
                let w = self.lexeme();
                let k = dot - self.start_pos;
                assert(t@ =~= w);
                assert(w[k] == '.');
                assert(all_chars(w.subrange(0, k), |c: char| is_digit(c)));
                assert(all_chars(w.subrange(k + 1, w.len() as int), |c: char| is_digit(c)));
                assert(is_number_text(w));
            }
            TokenType::Number(t)
        } else {
            let t = self.lex(0, 0);
            proof {
                let w = self.lexeme();
                assert(t@ =~= w);
                assert(all_chars(w, |c: char| is_digit(c)));
            }
            TokenType::Number(t)
        }
    }

    /// Scans the rest of a run of whitespace after its first character.
    fn whitespace(&mut self) -> (r: TokenType)
        requires
            old(self).wf(),
            old(self).pos == old(self).start_pos + 1,
            is_space(old(self).chars@[old(self).start_pos as int]),
        ensures
            final(self).wf(),
            same_frame(old(self), final(self)),
            final(self).start_line == old(self).start_line,
            final(self).pos > final(self).start_pos,
            lexeme_matches(r, final(self).lexeme()),
            !(r is EOF),
            r is Whitespace,
    {
        while is_ascii_space(self.current())
            invariant
                self.wf(),
                same_frame(old(self), self),
                self.start_line == old(self).start_line,
                self.pos > self.start_pos,
                forall|i: int| self.start_pos <= i < self.pos ==> is_space(self.chars@[i]),
            decreases self.chars@.len() - self.pos,
        {
            self.advance();
        }
        let t = self.lex(0, 0);
        proof {
            assert(t@ =~= self.lexeme());
        }
        TokenType::Whitespace(t)
    }

    /// Scans an identifier or a reserved word after its first character.
    fn identifier_or_keyword(&mut self) -> (r: TokenType)
        requires
            old(self).wf(),
            old(self).pos == old(self).start_pos + 1,
            spec_identifier_start(old(self).chars@[old(self).start_pos as int]),
        ensures
            final(self).wf(),
            same_frame(old(self), final(self)),
            final(self).start_line == old(self).start_line,
            final(self).line == old(self).line,
            final(self).pos > final(self).start_pos,
            lexeme_matches(r, final(self).lexeme()),
            !(r is EOF),
            final(self).pos < final(self).source().len()
                ==> !spec_identifier_tail(final(self).source()[final(self).pos as int]),
            r is Number || r is Identifier || keyword_of(final(self).lexeme()) == Some(r),
            maximal(final(self).chars@, final(self).start_pos as int, final(self).pos as int),
    {
        while is_valid_identifier_tail(self.current())
            invariant
                self.wf(),
                same_frame(old(self), self),
                self.start_line == old(self).start_line,
                self.line == old(self).line,
                self.pos > self.start_pos,
                spec_identifier_start(self.chars@[self.start_pos as int]),
                forall|i: int| self.start_pos <= i < self.pos ==> spec_identifier_tail(self.chars@[i]),
            decreases self.chars@.len() - self.pos,
        {
            self.advance();
        }
        let name = self.lex(0, 0);
        proof {
            assert(name@ =~= self.lexeme());
        }
        if word_is(&self.chars, self.start_pos, self.pos, "NaN") {
            proof {
                reveal_strlit("NaN");
            }
            return TokenType::Number(name);
        }
        match keyword(&self.chars, self.start_pos, self.pos) {
            Some(k) => {
                proof {
                    reveal_strlit("and"); reveal_strlit("class"); reveal_strlit("else");
                    reveal_strlit("false"); reveal_strlit("fun"); reveal_strlit("for");
                    reveal_strlit("if"); reveal_strlit("nil"); reveal_strlit("or");
                    reveal_strlit("print"); reveal_strlit("return"); reveal_strlit("super");
                    reveal_strlit("this"); reveal_strlit("true"); reveal_strlit("var");
                    reveal_strlit("while");
                }
                k
            },
            None => TokenType::Identifier(name),
        }
    }
}


impl Scanner {
    /// Scans one token, starting at the current character.
    fn scan_token(&mut self) -> (r: TokenType)
        requires
            old(self).wf(),
            old(self).start_pos == old(self).pos,
        ensures
            final(self).wf(),
            same_frame(old(self), final(self)),
            final(self).start_line == old(self).start_line,
            lexeme_matches(r, final(self).lexeme()),
            (r is EOF) == (old(self).cur() == '\0'),
            !(r is EOF) ==> final(self).pos > final(self).start_pos,
            (r is EOF) ==> final(self).pos <= final(self).start_pos + 1,
            (r is Bang || r is Equal || r is Greater || r is Less)
                ==> !(final(self).cur() == '=' && final(self).pos < final(self).source().len()),
            (r == TokenType::Error(ScanError::UnterminatedString) || r == TokenType::Error(ScanError::UnterminatedComment))
                ==> final(self).cur() == '\0',
            final(self).pos > final(self).start_pos
                ==> maximal(final(self).chars@, final(self).start_pos as int, final(self).pos as int),
    {
        let c = self.advance();
        proof {
            reveal_strlit("("); reveal_strlit(")"); reveal_strlit("{"); reveal_strlit("}");
            reveal_strlit(";"); reveal_strlit(","); reveal_strlit("."); reveal_strlit("+");
            reveal_strlit("-"); reveal_strlit("*"); reveal_strlit("!"); reveal_strlit("!=");
            reveal_strlit("="); reveal_strlit("=="); reveal_strlit(">"); reveal_strlit(">=");
            reveal_strlit("<"); reveal_strlit("<=");
            if self.pos > self.start_pos {
                assert(self.lexeme() =~= seq![c]);
            }
        }
        if c == '\0' {
            proof {
                if self.pos > self.start_pos {
                    assert(self.lexeme() =~= seq!['\0']);
                } else {
                    assert(self.lexeme().len() == 0);
                }
            }
            return TokenType::EOF;
        }
        assert(self.pos == self.start_pos + 1);
        assert(self.lexeme() =~= seq![c]);
        proof {
            assert("("@ =~= seq!['(']); assert(")"@ =~= seq![')']);
            assert("{"@ =~= seq!['{']); assert("}"@ =~= seq!['}']);
            assert(";"@ =~= seq![';']); assert(","@ =~= seq![',']);
            assert("."@ =~= seq!['.']); assert("+"@ =~= seq!['+']);
            assert("-"@ =~= seq!['-']); assert("*"@ =~= seq!['*']);
        }
        let r = if c == '(' { TokenType::LeftParen }
            else if c == ')' { TokenType::RightParen }
            else if c == '{' { TokenType::LeftBrace }
            else if c == '}' { TokenType::RightBrace }
            else if c == ';' { TokenType::Semicolon }
            else if c == ',' { TokenType::Comma }
            else if c == '.' { TokenType::Dot }
            else if c == '+' { TokenType::Plus }
            else if c == '-' { TokenType::Minus }
            else if c == '*' { TokenType::Star }
            else if c == '!' {
                let t = self.two_char('=', TokenType::BangEqual, TokenType::Bang);
                proof {
                    if t == TokenType::BangEqual {
                        assert(self.lexeme() =~= "!="@);
                    } else {
                        assert(self.lexeme() =~= "!"@);
                        assert(!(self.cur() == '=' && self.pos < self.chars@.len()));
                    }
                }
                t
            }
            else if c == '=' {
                let t = self.two_char('=', TokenType::EqualEqual, TokenType::Equal);
                proof {
                    if t == TokenType::EqualEqual {
                        assert(self.lexeme() =~= "=="@);
                    } else {
                        assert(self.lexeme() =~= "="@);
                        assert(!(self.cur() == '=' && self.pos < self.chars@.len()));
                    }
                }
                t
            }
            else if c == '>' {
                let t = self.two_char('=', TokenType::GreaterEqual, TokenType::Greater);
                proof {
                    if t == TokenType::GreaterEqual {
                        assert(self.lexeme() =~= ">="@);
                    } else {
                        assert(self.lexeme() =~= ">"@);
                        assert(!(self.cur() == '=' && self.pos < self.chars@.len()));
                    }
                }
                t
            }
            else if c == '<' {
                let t = self.two_char('=', TokenType::LessEqual, TokenType::Less);
                proof {
                    if t == TokenType::LessEqual {
                        assert(self.lexeme() =~= "<="@);
                    } else {
                        assert(self.lexeme() =~= "<"@);
                        assert(!(self.cur() == '=' && self.pos < self.chars@.len()));
                    }
                }
                t
            }
            else if c == '"' { self.string() }
            else if c == '/' { self.comment_or_slash() }
            else if is_ascii_digit(c) { self.number() }
            else if is_ascii_space(c) { self.whitespace() }
            else if is_valid_identifier_start(c) { self.identifier_or_keyword() }
            else { TokenType::Error(ScanError::UnexpectedChar(c)) };
        r
    }

    /// A one- or two-character operator: `two` if the next character is
    /// `second`, else `one`.
    fn two_char(&mut self, second: char, two: TokenType, one: TokenType) -> (r: TokenType)
        requires
            old(self).wf(),
            second != '\n',
            old(self).pos == old(self).start_pos + 1,
        ensures
            final(self).wf(),
            same_frame(old(self), final(self)),
            final(self).start_line == old(self).start_line,
            final(self).pos > final(self).start_pos,
            old(self).cur() == second && old(self).pos < old(self).chars@.len()
                ==> r == two && final(self).lexeme() == seq![old(self).chars@[old(self).start_pos as int], second],
            !(old(self).cur() == second && old(self).pos < old(self).chars@.len())
                ==> r == one && final(self).lexeme() == seq![old(self).chars@[old(self).start_pos as int]]
                    && final(self).pos == old(self).pos,
            (r == two && final(self).lexeme() == seq![old(self).chars@[old(self).start_pos as int], second])
                || (r == one && final(self).lexeme() == seq![old(self).chars@[old(self).start_pos as int]]),
    {
        let ghost first = self.chars@[self.start_pos as int];
        let r = self.take_select(second, two, one);
        proof {
            if self.pos == self.start_pos + 2 {
                assert(self.lexeme() =~= seq![first, second]);
            } else {
                assert(self.lexeme() =~= seq![first]);
            }
        }
        r
    }
}


impl Scanner {
    /// The next token, skipping whitespace; `None` once the end-of-file token
    /// was handed out. Comments are handed out for the compiler to skip.
    pub fn next_token(&mut self) -> (r: Option<Token>)
        requires
            old(self).wf(),
        ensures
            final(self).wf(),
            final(self).source() == old(self).source(),
            old(self).finished() ==> r is None && *final(self) == *old(self),
            !old(self).finished() ==> r is Some,
            r matches Some(t) ==> {
                &&& lexeme_matches(t.kind, final(self).lexeme())
                &&& !(t.kind is Whitespace)
                &&& t.span.wf()
                &&& t.span.0 == byte_offset(final(self).source(), final(self).lexeme_position() as int)
                &&& t.span.1 == byte_offset(final(self).source(), final(self).position() as int)
                &&& t.span.2 == line_at(final(self).source(), final(self).lexeme_position() as int)
                &&& old(self).position() <= final(self).lexeme_position()
                &&& (t.kind is EOF) == final(self).finished()
                &&& !(t.kind is EOF) ==> final(self).position() > old(self).position()
                &&& forall|i: int| old(self).position() <= i < final(self).lexeme_position()
                    ==> is_space(#[trigger] final(self).source()[i])
                &&& final(self).position() > final(self).lexeme_position() ==> maximal(final(self).source(),
                    final(self).lexeme_position() as int, final(self).position() as int)
                &&& (t.kind is Bang || t.kind is Equal || t.kind is Greater || t.kind is Less)
                    ==> !(final(self).position() < final(self).source().len()
                        && final(self).source()[final(self).position() as int] == '=')
                &&& (t.kind == TokenType::Error(ScanError::UnterminatedString)
                    || t.kind == TokenType::Error(ScanError::UnterminatedComment))
                    ==> (final(self).position() == final(self).source().len()
                        || final(self).source()[final(self).position() as int] == '\0')
            },
    {
        if self.emitted_eof {
            return None;
        }
        self.start_pos = self.pos;
        self.lexeme_start = self.offset;
        self.start_line = self.line;
        let mut kind = self.scan_token();
        while kind.is_trivia() && !kind.is_comment()
            invariant
                self.wf(),
                self.chars@ == old(self).chars@,
                !self.emitted_eof,
                old(self).pos <= self.start_pos,
                lexeme_matches(kind, self.lexeme()),
                !(kind is EOF) ==> self.pos > self.start_pos,
                (kind is EOF) ==> self.pos <= self.start_pos + 1,
                (kind is Bang || kind is Equal || kind is Greater || kind is Less)
                    ==> !(self.cur() == '=' && self.pos < self.chars@.len()),
                forall|i: int| old(self).pos <= i < self.start_pos ==> is_space(#[trigger] self.chars@[i]),
                self.pos > self.start_pos ==> maximal(self.chars@, self.start_pos as int, self.pos as int),
                (kind == TokenType::Error(ScanError::UnterminatedString)
                    || kind == TokenType::Error(ScanError::UnterminatedComment)) ==> self.cur() == '\0',
            decreases self.chars@.len() - self.start_pos,
        {
            proof {
                let w = self.lexeme();
                assert forall|i: int| old(self).pos <= i < self.pos implies is_space(#[trigger] self.chars@[i]) by {
                    if i >= self.start_pos {
                        assert(kind is Whitespace);
                        assert(all_chars(w, |c: char| is_space(c)));
                        let k = i - self.start_pos;
                        assert((|c: char| is_space(c))(w[k]));
                        assert(self.chars@[i] == w[k]);
                    }
                }
            }
            self.start_pos = self.pos;
            self.lexeme_start = self.offset;
            self.start_line = self.line;
            kind = self.scan_token();
        }
        if kind.is_eof() {
            self.emitted_eof = true;
        }
        let span = self.lex_span();
        Some(Token { kind, span })
    }
}

impl TokenType {
    pub fn is_comment(&self) -> (r: bool)
        ensures
            r == (*self is Comment || *self is BlockComment),
    {
        match self {
            TokenType::Comment(_) | TokenType::BlockComment(_, _) => true,
            _ => false,
        }
    }
}

/// Where the token at `i` starts its search: the end of the token before
/// it, or the start of the source.
pub open spec fn gap_start(b: Seq<(int, int)>, i: int) -> int {
    if i == 0 { 0 } else { b[i - 1].1 }
}

/// `toks` is the token sequence of `src`, the `i`-th token standing for
/// the characters `b[i].0 .. b[i].1`: only whitespace lies between tokens,
/// each token agrees with its lexeme, is as long as the grammar allows,
/// and carries the byte span and line of that lexeme.
#[verifier::opaque]
pub open spec fn tokenizes(src: Seq<char>, toks: Seq<Token>, b: Seq<(int, int)>) -> bool {
    &&& b.len() == toks.len()
    &&& forall|i: int| 0 <= i < b.len() ==> {
        let (lo, hi) = #[trigger] b[i];
        &&& gap_start(b, i) <= lo <= hi <= src.len()
        &&& forall|j: int| gap_start(b, i) <= j < lo ==> is_space(#[trigger] src[j])
        &&& lexeme_matches(toks[i].kind, src.subrange(lo, hi))
        &&& hi > lo ==> maximal(src, lo, hi)
        &&& toks[i].span.0 == byte_offset(src, lo) && toks[i].span.1 == byte_offset(src, hi)
        &&& toks[i].span.2 == line_at(src, lo)
        &&& (toks[i].kind is Bang || toks[i].kind is Equal || toks[i].kind is Greater || toks[i].kind is Less)
            ==> !(hi < src.len() && src[hi] == '=')
    }
}

/// One more token, found after whitespace from where the last one ended,
/// extends a token sequence.
proof fn lemma_tokenizes_push(src: Seq<char>, toks: Seq<Token>, b: Seq<(int, int)>, t: Token, lo: int, hi: int)
    requires
        tokenizes(src, toks, b),
        gap_start(b, b.len() as int) <= lo <= hi <= src.len(),
        forall|j: int| gap_start(b, b.len() as int) <= j < lo ==> is_space(#[trigger] src[j]),
        lexeme_matches(t.kind, src.subrange(lo, hi)),
        hi > lo ==> maximal(src, lo, hi),
        t.span.0 == byte_offset(src, lo) && t.span.1 == byte_offset(src, hi),
        t.span.2 == line_at(src, lo),
        (t.kind is Bang || t.kind is Equal || t.kind is Greater || t.kind is Less)
            ==> !(hi < src.len() && src[hi] == '='),
    ensures
        tokenizes(src, toks.push(t), b.push((lo, hi))),
{
    reveal(tokenizes);
    let b2 = b.push((lo, hi));
    let t2 = toks.push(t);
    assert forall|i: int| 0 <= i < b2.len() implies {
        let (l, h) = #[trigger] b2[i];
        &&& gap_start(b2, i) <= l <= h <= src.len()
        &&& forall|j: int| gap_start(b2, i) <= j < l ==> is_space(#[trigger] src[j])
        &&& lexeme_matches(t2[i].kind, src.subrange(l, h))
        &&& h > l ==> maximal(src, l, h)
        &&& t2[i].span.0 == byte_offset(src, l) && t2[i].span.1 == byte_offset(src, h)
        &&& t2[i].span.2 == line_at(src, l)
        &&& (t2[i].kind is Bang || t2[i].kind is Equal || t2[i].kind is Greater || t2[i].kind is Less)
            ==> !(h < src.len() && src[h] == '=')
    } by {
        if i < b.len() {
            assert(b2[i] == b[i]);
            assert(gap_start(b2, i) == gap_start(b, i));
            assert(t2[i] == toks[i]);
        } else {
            assert(gap_start(b2, i) == gap_start(b, b.len() as int));
        }
    }
}

/// Scans the whole source: every token up to and including the single
/// end-of-file token, which comes last. Whitespace is dropped.
pub fn scan_tokens(src: &str) -> (r: Vec<Token>)
    requires
        4 * src@.len() <= usize::MAX,
    ensures
        r@.len() > 0,
        r@.last().kind is EOF,
        forall|i: int| 0 <= i < r@.len() - 1 ==> !(#[trigger] r@[i].kind is EOF),
        forall|i: int| 0 <= i < r@.len() ==> !(#[trigger] r@[i].kind is Whitespace) && r@[i].span.wf(),
        exists|b: Seq<(int, int)>| tokenizes(src@, r@, b),
{
    let mut scanner = Scanner::new(src);
    let mut out: Vec<Token> = Vec::new();
    let ghost mut bounds: Seq<(int, int)> = Seq::empty();
    proof {
        reveal(tokenizes);
    }
    loop
        invariant
            scanner.wf(),
            scanner.source() == src@,
            scanner.finished() <==> (out@.len() > 0 && out@.last().kind is EOF),
            forall|i: int| 0 <= i < out@.len() - 1 ==> !(#[trigger] out@[i].kind is EOF),
            forall|i: int| 0 <= i < out@.len() ==> !(#[trigger] out@[i].kind is Whitespace) && out@[i].span.wf(),
            tokenizes(src@, out@, bounds),
            gap_start(bounds, bounds.len() as int) == scanner.position(),
        decreases scanner.source().len() - scanner.position() + if scanner.finished() { 0int } else { 1int },
    {
        let ghost before = scanner;
        match scanner.next_token() {
            Some(t) => {
                let ghost lo = scanner.lexeme_position() as int;
                let ghost hi = scanner.position() as int;
                proof {
                    assert(scanner.lexeme() == src@.subrange(lo, hi));
                    lemma_tokenizes_push(src@, out@, bounds, t, lo, hi);
                    bounds = bounds.push((lo, hi));
                }
                out.push(t);
            },
            None => {
                assert(tokenizes(src@, out@, bounds));
                return out;
            },
        }
    }
}

} // verus!
