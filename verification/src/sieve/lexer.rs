use vstd::prelude::*;
use crate::sieve::error::CompileError;
use crate::sieve::script::CompilerLimits;
use vstd::utf8::{decode_utf8, valid_utf8};
use vstd::string::StringSliceAdditionalSpecFns;
use crate::text::{char_of_ascii, hex_byte, hex_digits, push_char, push_str, str_eq, utf8_string};

verus! {

/// A lexical token of a script.
#[derive(Debug, Clone, PartialEq)]
pub enum Tok {
    Identifier(String),
    Tag(String),
    Number(u64),
    Str(String),
    LParen,
    RParen,
    LBrace,
    RBrace,
    LBracket,
    RBracket,
    Comma,
    Semicolon,
}

/// A token and the line and column where it starts.
#[derive(Debug, Clone)]
pub struct Token {
    pub tok: Tok,
    pub line: usize,
    pub col: usize,
}

/// A letter or an underscore: what a word starts with.
pub open spec fn word_start(b: u8) -> bool {
    (97 <= b <= 122) || (65 <= b <= 90) || b == 95
}

/// A byte that may continue a word.
pub open spec fn word_byte(b: u8) -> bool {
    word_start(b) || (48 <= b <= 57)
}

/// A character of a lowered word: a lower-case letter, a digit or `_`.
pub open spec fn lowered_word_char(c: char) -> bool {
    ('a' <= c <= 'z') || ('0' <= c <= '9') || c == '_'
}

/// The text of an identifier or a tag: lower-case letters, digits and
/// underscores, starting with a letter or an underscore.
pub open spec fn is_word(w: Seq<char>) -> bool {
    &&& w.len() > 0
    &&& ('a' <= w[0] <= 'z' || w[0] == '_')
    &&& forall|i: int| 0 <= i < w.len() ==> lowered_word_char(#[trigger] w[i])
}

/// What a token of a successful scan looks like.
pub open spec fn token_ok(t: Token) -> bool {
    &&& t.line >= 1
    &&& t.col >= 1
    &&& match t.tok {
        Tok::Identifier(w) => is_word(w@),
        Tok::Tag(w) => is_word(w@),
        _ => true,
    }
}


// ---------------------------------------------------------------------------
// What a scan reads

/// A count that saturates at the largest `usize`.
pub open spec fn sat_inc(x: usize) -> usize {
    if x == usize::MAX {
        x
    } else {
        (x + 1) as usize
    }
}

/// The line and column after one byte: a line feed starts the next line.
pub open spec fn next_line_col(b: u8, lc: (usize, usize)) -> (usize, usize) {
    if b == 10 {
        (sat_inc(lc.0), 1)
    } else {
        (lc.0, sat_inc(lc.1))
    }
}

/// The line and column of a position, both counted from one.
pub open spec fn line_col(bytes: Seq<u8>, pos: int) -> (usize, usize)
    decreases pos,
{
    if pos <= 0 {
        (1, 1)
    } else {
        next_line_col(bytes[pos - 1], line_col(bytes, pos - 1))
    }
}

pub proof fn lemma_line_col_positive(bytes: Seq<u8>, pos: int)
    ensures
        line_col(bytes, pos).0 >= 1,
        line_col(bytes, pos).1 >= 1,
    decreases pos,
{
    if pos > 0 {
        lemma_line_col_positive(bytes, pos - 1);
    }
}

/// A space, a tab, a carriage return or a line feed.
pub open spec fn is_blank_byte(b: u8) -> bool {
    b == 32 || b == 9 || b == 13 || b == 10
}

/// Skips blanks and comments from `pos`: the position where the next token
/// starts (the end when none does), or the start of a bracket comment that
/// is never closed.
pub open spec fn skip_space(bytes: Seq<u8>, pos: int) -> Result<int, int>
    decreases bytes.len() - pos, 0int,
{
    if pos < 0 || pos >= bytes.len() {
        Ok(bytes.len() as int)
    } else if is_blank_byte(bytes[pos]) {
        skip_space(bytes, pos + 1)
    } else if bytes[pos] == 35 {
        skip_line_comment(bytes, pos + 1)
    } else if bytes[pos] == 47 && pos + 1 < bytes.len() && bytes[pos + 1] == 42 {
        skip_block_comment(bytes, pos + 2, pos)
    } else {
        Ok(pos)
    }
}

/// Inside a `#` comment, which ends before the line feed.
pub open spec fn skip_line_comment(bytes: Seq<u8>, pos: int) -> Result<int, int>
    decreases bytes.len() - pos, 1int,
{
    if pos < 0 || pos >= bytes.len() {
        Ok(bytes.len() as int)
    } else if bytes[pos] == 10 {
        skip_space(bytes, pos)
    } else {
        skip_line_comment(bytes, pos + 1)
    }
}

pub proof fn lemma_skip_line_comment(bytes: Seq<u8>, pos: int)
    requires
        0 <= pos,
    ensures
        skip_line_comment(bytes, pos) == if line_end(bytes, pos) >= bytes.len() {
            Ok::<int, int>(bytes.len() as int)
        } else {
            skip_space(bytes, line_end(bytes, pos))
        },
    decreases bytes.len() - pos,
{
    if pos < bytes.len() && bytes[pos] != 10 {
        lemma_skip_line_comment(bytes, pos + 1);
    }
}

/// Inside a bracket comment that started at `start`, which ends after `*/`.
pub open spec fn skip_block_comment(bytes: Seq<u8>, pos: int, start: int) -> Result<int, int>
    decreases bytes.len() - pos, 1int,
{
    if pos < 0 || pos >= bytes.len() {
        Err(start)
    } else if bytes[pos] == 42 && pos + 1 < bytes.len() && bytes[pos + 1] == 47 {
        skip_space(bytes, pos + 2)
    } else {
        skip_block_comment(bytes, pos + 1, start)
    }
}

/// A token as a scan reads it, its texts as characters.
pub enum LexTok {
    Identifier(Seq<char>),
    Tag(Seq<char>),
    Number(u64),
    Str(Seq<char>),
    LParen,
    RParen,
    LBrace,
    RBrace,
    LBracket,
    RBracket,
    Comma,
    Semicolon,
}

/// What a token holds.
pub open spec fn tok_view(t: Tok) -> LexTok {
    match t {
        Tok::Identifier(w) => LexTok::Identifier(w@),
        Tok::Tag(w) => LexTok::Tag(w@),
        Tok::Number(n) => LexTok::Number(n),
        Tok::Str(s) => LexTok::Str(s@),
        Tok::LParen => LexTok::LParen,
        Tok::RParen => LexTok::RParen,
        Tok::LBrace => LexTok::LBrace,
        Tok::RBrace => LexTok::RBrace,
        Tok::LBracket => LexTok::LBracket,
        Tok::RBracket => LexTok::RBracket,
        Tok::Comma => LexTok::Comma,
        Tok::Semicolon => LexTok::Semicolon,
    }
}

/// Where a run of word bytes starting at `pos` ends.
pub open spec fn word_end(bytes: Seq<u8>, pos: int) -> int
    decreases bytes.len() - pos,
{
    if 0 <= pos < bytes.len() && word_byte(bytes[pos]) {
        word_end(bytes, pos + 1)
    } else {
        pos
    }
}

/// A word byte as a character, its letters lowered.
pub open spec fn lowered_char(b: u8) -> char {
    if 65 <= b <= 90 {
        ((b + 32) as u32) as char
    } else {
        (b as u32) as char
    }
}

/// The word of some bytes, its letters lowered.
pub open spec fn lowered(s: Seq<u8>) -> Seq<char> {
    s.map_values(|b: u8| lowered_char(b))
}

/// The value of a quoted string read from `pos` (after the opening quote)
/// with `acc` read so far: a backslash takes the next byte as it is; the
/// string may not grow past `max` bytes nor run off the end.
pub open spec fn quoted(bytes: Seq<u8>, pos: int, acc: Seq<u8>, max: usize) -> Result<(Seq<u8>, int), Seq<char>>
    decreases bytes.len() - pos,
{
    if pos < 0 || pos >= bytes.len() {
        Err("unterminated string"@)
    } else if bytes[pos] == 34 {
        Ok((acc, pos + 1))
    } else if bytes[pos] == 92 && pos + 1 >= bytes.len() {
        Err("unterminated string"@)
    } else {
        let next = if bytes[pos] == 92 {
            acc.push(bytes[pos + 1])
        } else {
            acc.push(bytes[pos])
        };
        let after = if bytes[pos] == 92 {
            pos + 2
        } else {
            pos + 1
        };
        if next.len() > max {
            Err("string exceeds the maximum length"@)
        } else {
            quoted(bytes, after, next, max)
        }
    }
}

/// Where a run of digits starting at `pos` ends.
pub open spec fn digits_end(bytes: Seq<u8>, pos: int) -> int
    decreases bytes.len() - pos,
{
    if 0 <= pos < bytes.len() && 48 <= bytes[pos] <= 57 {
        digits_end(bytes, pos + 1)
    } else {
        pos
    }
}

/// The value of the digits in `[from, to)`, none once it passes `u64::MAX`.
pub open spec fn digits_value(bytes: Seq<u8>, from: int, to: int) -> Option<u64>
    decreases to - from,
{
    if to <= from {
        Some(0)
    } else {
        match digits_value(bytes, from, to - 1) {
            None => None,
            Some(v) => if v * 10 + (bytes[to - 1] - 48) > u64::MAX {
                None
            } else {
                Some((v * 10 + (bytes[to - 1] - 48)) as u64)
            },
        }
    }
}

/// The multiplier a size suffix stands for: K, M and G in either case.
pub open spec fn multiplier(b: u8) -> u64 {
    if b == 107 || b == 75 {
        1024
    } else if b == 109 || b == 77 {
        1048576
    } else if b == 103 || b == 71 {
        1073741824
    } else {
        0
    }
}

/// A number read from `pos`: its digits, then an optional multiplier that
/// saturates the value.
pub open spec fn spec_number(bytes: Seq<u8>, pos: int) -> Result<(u64, int), Seq<char>> {
    let end = digits_end(bytes, pos);
    match digits_value(bytes, pos, end) {
        None => Err("number is too large"@),
        Some(v) => if end < bytes.len() && multiplier(bytes[end]) != 0 {
            let m = multiplier(bytes[end]);
            Ok((if v * m > u64::MAX { u64::MAX } else { (v * m) as u64 }, end + 1))
        } else {
            Ok((v, end))
        },
    }
}

pub proof fn lemma_digits_end(bytes: Seq<u8>, pos: int)
    requires
        0 <= pos <= bytes.len(),
    ensures
        pos <= digits_end(bytes, pos) <= bytes.len(),
    decreases bytes.len() - pos,
{
    if pos < bytes.len() && 48 <= bytes[pos] <= 57 {
        lemma_digits_end(bytes, pos + 1);
    }
}

pub proof fn lemma_word_end(bytes: Seq<u8>, pos: int)
    requires
        0 <= pos <= bytes.len(),
    ensures
        pos <= word_end(bytes, pos) <= bytes.len(),
    decreases bytes.len() - pos,
{
    if pos < bytes.len() && word_byte(bytes[pos]) {
        lemma_word_end(bytes, pos + 1);
    }
}

/// Once the digits pass `u64::MAX`, more digits keep them past it.
pub proof fn lemma_digits_overflow(bytes: Seq<u8>, from: int, k: int, to: int)
    requires
        from <= k <= to,
        digits_value(bytes, from, k) is None,
    ensures
        digits_value(bytes, from, to) is None,
    decreases to - k,
{
    if k < to {
        lemma_digits_overflow(bytes, from, k + 1, to);
    }
}


/// The position of the first line feed at or after `pos`, or the end.
pub open spec fn line_end(bytes: Seq<u8>, pos: int) -> int
    decreases bytes.len() - pos,
{
    if pos < 0 || pos >= bytes.len() || bytes[pos] == 10 {
        pos
    } else {
        line_end(bytes, pos + 1)
    }
}

pub proof fn lemma_line_end(bytes: Seq<u8>, pos: int)
    requires
        0 <= pos,
    ensures
        pos <= line_end(bytes, pos),
        pos <= bytes.len() ==> line_end(bytes, pos) <= bytes.len(),
        line_end(bytes, pos) < bytes.len() ==> bytes[line_end(bytes, pos)] == 10,
        forall|i: int| pos <= i < line_end(bytes, pos) && i < bytes.len() ==> bytes[i] != 10,
    decreases bytes.len() - pos,
{
    if pos < bytes.len() && bytes[pos] != 10 {
        lemma_line_end(bytes, pos + 1);
    }
}

/// The blanks and comment after `text:` up to its line feed.
pub open spec fn multiline_header(bytes: Seq<u8>, pos: int, max: usize) -> Result<(Seq<char>, int), Seq<char>>
    decreases bytes.len() - pos, 0int,
{
    if pos < 0 || pos >= bytes.len() {
        Err("unterminated multiline string"@)
    } else if bytes[pos] == 32 || bytes[pos] == 9 || bytes[pos] == 13 {
        multiline_header(bytes, pos + 1, max)
    } else if bytes[pos] == 35 {
        multiline_comment(bytes, pos + 1, max)
    } else if bytes[pos] == 10 {
        multiline_body(bytes, pos + 1, Seq::empty(), 0, max)
    } else {
        Err("expected a newline after 'text:'"@)
    }
}

/// A comment after `text:`, up to its line feed.
pub open spec fn multiline_comment(bytes: Seq<u8>, pos: int, max: usize) -> Result<(Seq<char>, int), Seq<char>>
    decreases bytes.len() - pos, 1int,
{
    if pos < 0 || pos >= bytes.len() {
        Err("unterminated multiline string"@)
    } else if bytes[pos] == 10 {
        multiline_header(bytes, pos, max)
    } else {
        multiline_comment(bytes, pos + 1, max)
    }
}

pub proof fn lemma_multiline_comment(bytes: Seq<u8>, pos: int, max: usize)
    requires
        0 <= pos,
    ensures
        multiline_comment(bytes, pos, max) == if line_end(bytes, pos) >= bytes.len() {
            Err::<(Seq<char>, int), Seq<char>>("unterminated multiline string"@)
        } else {
            multiline_header(bytes, line_end(bytes, pos), max)
        },
    decreases bytes.len() - pos,
{
    if pos < bytes.len() && bytes[pos] != 10 {
        lemma_multiline_comment(bytes, pos + 1, max);
    }
}

/// A line of a `text:` body without its carriage return.
pub open spec fn body_line(bytes: Seq<u8>, pos: int) -> Seq<u8> {
    let raw = bytes.subrange(pos, line_end(bytes, pos));
    if raw.len() > 0 && raw.last() == 13 {
        raw.drop_last()
    } else {
        raw
    }
}

/// The lines of a `text:` body from `pos`, with `value` gathered so far
/// (`size` bytes): up to a lone `.`; a leading `..` is unstuffed to `.`;
/// each line is kept with CRLF. The body may not run off the end, hold
/// invalid UTF-8, or grow past `max` bytes.
pub open spec fn multiline_body(bytes: Seq<u8>, pos: int, value: Seq<char>, size: int, max: usize) -> Result<(Seq<char>, int), Seq<char>>
    decreases bytes.len() - pos, 2int,
{
    if pos < 0 || pos > bytes.len() {
        Err("unterminated multiline string"@)
    } else {
        let e = line_end(bytes, pos);
        let terminated = e < bytes.len();
        let current = body_line(bytes, pos);
        let next = if terminated {
            e + 1
        } else {
            bytes.len() as int
        };
        if !terminated && current.len() == 0 {
            Err("unterminated multiline string"@)
        } else if current == seq![46u8] {
            Ok((value, next))
        } else {
            let text = if current.len() >= 2 && current[0] == 46 && current[1] == 46 {
                current.drop_first()
            } else {
                current
            };
            if !valid_utf8(text) {
                Err("string is not valid utf-8"@)
            } else if size + text.len() + 2 > max {
                Err("string exceeds the maximum length"@)
            } else if !terminated {
                Err("unterminated multiline string"@)
            } else {
                proof {
                    lemma_line_end(bytes, pos);
                }
                multiline_body(bytes, next, value + decode_utf8(text) + "\r\n"@, size + text.len() + 2, max)
            }
        }
    }
}

/// The token for a punctuation byte.
pub open spec fn punctuation(b: u8) -> Option<LexTok> {
    if b == 40 {
        Some(LexTok::LParen)
    } else if b == 41 {
        Some(LexTok::RParen)
    } else if b == 123 {
        Some(LexTok::LBrace)
    } else if b == 125 {
        Some(LexTok::RBrace)
    } else if b == 91 {
        Some(LexTok::LBracket)
    } else if b == 93 {
        Some(LexTok::RBracket)
    } else if b == 44 {
        Some(LexTok::Comma)
    } else if b == 59 {
        Some(LexTok::Semicolon)
    } else {
        None
    }
}

/// The token that starts at `pos` (a byte that is neither blank nor a
/// comment), and where the scan goes on; or the message of the error there.
pub open spec fn scan_token(bytes: Seq<u8>, pos: int, max: usize) -> Result<(LexTok, int), Seq<char>> {
    let b = bytes[pos];
    if b == 34 {
        match quoted(bytes, pos + 1, Seq::empty(), max) {
            Err(m) => Err(m),
            Ok((v, e)) => if valid_utf8(v) {
                Ok((LexTok::Str(decode_utf8(v)), e))
            } else {
                Err("string is not valid utf-8"@)
            },
        }
    } else if 48 <= b <= 57 {
        match spec_number(bytes, pos) {
            Err(m) => Err(m),
            Ok((n, e)) => Ok((LexTok::Number(n), e)),
        }
    } else if word_start(b) {
        let e = word_end(bytes, pos);
        let w = lowered(bytes.subrange(pos, e));
        if w == "text"@ && e < bytes.len() && bytes[e] == 58 {
            match multiline_header(bytes, e + 1, max) {
                Err(m) => Err(m),
                Ok((v, end)) => Ok((LexTok::Str(v), end)),
            }
        } else {
            Ok((LexTok::Identifier(w), e))
        }
    } else if b == 58 {
        if pos + 1 < bytes.len() && word_start(bytes[pos + 1]) {
            let e = word_end(bytes, pos + 1);
            Ok((LexTok::Tag(lowered(bytes.subrange(pos + 1, e))), e))
        } else {
            Err("expected tag name after ':'"@)
        }
    } else {
        match punctuation(b) {
            Some(t) => Ok((t, pos + 1)),
            None => Err("unexpected character 0x"@ + hex_digits(b)),
        }
    }
}

/// The tokens of a script from `pos`, each with its line and column; or
/// the line, column and message of the first error.
pub open spec fn spec_tokens(bytes: Seq<u8>, pos: int, max: usize) -> Result<Seq<(LexTok, usize, usize)>, (usize, usize, Seq<char>)>
    decreases bytes.len() - pos,
{
    match skip_space(bytes, pos) {
        Err(start) => Err((line_col(bytes, start).0, line_col(bytes, start).1, "unterminated comment"@)),
        Ok(p) => if p >= bytes.len() {
            Ok(Seq::empty())
        } else {
            let lc = line_col(bytes, p);
            match scan_token(bytes, p, max) {
                Err(m) => Err((lc.0, lc.1, m)),
                Ok((t, e)) => if pos < e <= bytes.len() {
                    match spec_tokens(bytes, e, max) {
                        Ok(rest) => Ok(seq![(t, lc.0, lc.1)] + rest),
                        Err(x) => Err(x),
                    }
                } else {
                    Ok(seq![(t, lc.0, lc.1)])
                },
            }
        },
    }
}

struct Lexer<'a> {
    bytes: &'a [u8],
    pos: usize,
    line: usize,
    col: usize,
}

impl<'a> Lexer<'a> {
    /// The position is within the script, and the line and column are
    /// those of the position.
    spec fn wf(&self) -> bool {
        &&& self.pos <= self.bytes@.len()
        &&& self.line == line_col(self.bytes@, self.pos as int).0
        &&& self.col == line_col(self.bytes@, self.pos as int).1
    }

    fn error(&self, line: usize, col: usize, message: &str) -> (e: CompileError)
        ensures
            e.line == line,
            e.column == col,
            e.message@ == message@,
    {
        CompileError::at(line, col, message)
    }

    fn peek(&self) -> (b: Option<u8>)
        requires
            self.wf(),
        ensures
            self.pos < self.bytes@.len() ==> b == Some(self.bytes@[self.pos as int]),
            self.pos >= self.bytes@.len() ==> b is None,
    {
        if self.pos < self.bytes.len() {
            Some(self.bytes[self.pos])
        } else {
            None
        }
    }

    fn peek_at(&self, offset: usize) -> (b: Option<u8>)
        requires
            self.wf(),
            offset <= 1,
        ensures
            self.pos + offset < self.bytes@.len() ==> b == Some(self.bytes@[self.pos + offset]),
            self.pos + offset >= self.bytes@.len() ==> b is None,
    {
        if offset < self.bytes.len() - self.pos {
            Some(self.bytes[self.pos + offset])
        } else {
            None
        }
    }

    fn advance(&mut self) -> (b: Option<u8>)
        requires
            old(self).wf(),
        ensures
            final(self).wf(),
            final(self).bytes == old(self).bytes,
            old(self).pos < old(self).bytes@.len() ==> b == Some(old(self).bytes@[old(self).pos as int])
                && final(self).pos == old(self).pos + 1,
            old(self).pos >= old(self).bytes@.len() ==> b is None && final(self).pos == old(self).pos,
    {
        if self.pos >= self.bytes.len() {
            return None;
        }
        let byte = self.bytes[self.pos];
        self.pos = self.pos + 1;
        if byte == 10u8 {
            self.line = self.line.saturating_add(1);
            self.col = 1;
        } else {
            self.col = self.col.saturating_add(1);
        }
        Some(byte)
    }

    /// Reads a word, lowering its letters.
    fn word(&mut self) -> (word: String)
        requires
            old(self).wf(),
            old(self).pos < old(self).bytes@.len(),
            word_start(old(self).bytes@[old(self).pos as int]),
        ensures
            final(self).wf(),
            final(self).bytes == old(self).bytes,
            final(self).pos == word_end(old(self).bytes@, old(self).pos as int),
            final(self).pos > old(self).pos,
            word@ == lowered(old(self).bytes@.subrange(old(self).pos as int, final(self).pos as int)),
    {
        let mut word = String::new();
        let ghost start = self.pos;
        loop
            invariant
                self.wf(),
                self.bytes == old(self).bytes,
                start == old(self).pos,
                start < self.bytes@.len(),
                word_start(self.bytes@[start as int]),
                start <= self.pos,
                word_end(self.bytes@, start as int) == word_end(self.bytes@, self.pos as int),
                word@ == lowered(self.bytes@.subrange(start as int, self.pos as int)),
            ensures
                self.wf(),
                self.bytes == old(self).bytes,
                self.pos == word_end(self.bytes@, start as int),
                self.pos > start,
                word@ == lowered(self.bytes@.subrange(start as int, self.pos as int)),
            decreases self.bytes@.len() - self.pos,
        {
            let byte = match self.peek() {
                Some(b) => b,
                None => break,
            };
            let ghost before = word@;
            if (97u8 <= byte && byte <= 122u8) || (48u8 <= byte && byte <= 57u8) || byte == 95u8 {
                push_char(&mut word, char_of_ascii(byte as u32));
            } else if 65u8 <= byte && byte <= 90u8 {
                push_char(&mut word, char_of_ascii((byte + 32) as u32));
            } else {
                break;
            }
            assert(word@ =~= lowered(self.bytes@.subrange(start as int, self.pos + 1)));
            self.advance();
        }
        word
    }

    /// Skips to the end of the line, leaving the line feed unread.
    fn skip_line(&mut self)
        requires
            old(self).wf(),
        ensures
            final(self).wf(),
            final(self).bytes == old(self).bytes,
            final(self).pos == line_end(old(self).bytes@, old(self).pos as int),
    {
        while self.pos < self.bytes.len() && self.bytes[self.pos] != 10u8
            invariant
                self.wf(),
                self.bytes == old(self).bytes,
                self.pos >= old(self).pos,
                line_end(self.bytes@, old(self).pos as int) == line_end(self.bytes@, self.pos as int),
            decreases self.bytes@.len() - self.pos,
        {
            self.advance();
        }
    }

    /// Reads a quoted string; the opening quote is at the current position.
    fn quoted_string(&mut self, limits: &CompilerLimits, line: usize, col: usize) -> (r: Result<String, CompileError>)
        requires
            old(self).wf(),
            old(self).pos < old(self).bytes@.len(),
        ensures
            final(self).wf(),
            final(self).bytes == old(self).bytes,
            final(self).pos > old(self).pos,
            match quoted(old(self).bytes@, old(self).pos + 1, Seq::empty(), limits.max_string_size) {
                Err(m) => r matches Err(e) && e.line == line && e.column == col && e.message@ == m,
                Ok((v, end)) => final(self).pos == end && if valid_utf8(v) {
                    r matches Ok(s) && s@ == decode_utf8(v)
                } else {
                    r matches Err(e) && e.line == line && e.column == col && e.message@ == "string is not valid utf-8"@
                },
            },
    {
        let ghost start = self.pos;
        let ghost whole = quoted(self.bytes@, start + 1, Seq::empty(), limits.max_string_size);
        self.advance();
        let mut value: Vec<u8> = Vec::new();
        loop
            invariant_except_break
                whole == quoted(self.bytes@, self.pos as int, value@, limits.max_string_size),
            invariant
                self.wf(),
                self.bytes == old(self).bytes,
                start == old(self).pos,
                self.pos > start,
                whole == quoted(self.bytes@, start + 1, Seq::empty(), limits.max_string_size),
            ensures
                self.wf(),
                self.bytes == old(self).bytes,
                self.pos > start,
                whole == Ok::<(Seq<u8>, int), Seq<char>>((value@, self.pos as int)),
            decreases self.bytes@.len() - self.pos,
        {
            match self.advance() {
                Some(b) => {
                    if b == 34u8 {
                        break;
                    } else if b == 92u8 {
                        match self.advance() {
                            Some(escaped) => value.push(escaped),
                            None => return Err(self.error(line, col, "unterminated string")),
                        }
                    } else {
                        value.push(b);
                    }
                },
                None => return Err(self.error(line, col, "unterminated string")),
            }
            if value.len() > limits.max_string_size {
                return Err(self.error(line, col, "string exceeds the maximum length"));
            }
        }
        match utf8_string(value) {
            Some(s) => Ok(s),
            None => Err(self.error(line, col, "string is not valid utf-8")),
        }
    }

    /// Reads a number with an optional K, M or G multiplier.
    fn number(&mut self, line: usize, col: usize) -> (r: Result<u64, CompileError>)
        requires
            old(self).wf(),
            old(self).pos < old(self).bytes@.len(),
            48 <= old(self).bytes@[old(self).pos as int] <= 57,
        ensures
            final(self).wf(),
            final(self).bytes == old(self).bytes,
            final(self).pos > old(self).pos,
            match spec_number(old(self).bytes@, old(self).pos as int) {
                Err(m) => r matches Err(e) && e.line == line && e.column == col && e.message@ == m,
                Ok((n, end)) => r == Ok::<u64, CompileError>(n) && final(self).pos == end,
            },
    {
        let mut value: u64 = 0;
        let ghost start = self.pos;
        loop
            invariant
                self.wf(),
                self.bytes == old(self).bytes,
                start == old(self).pos,
                start < self.bytes@.len(),
                48 <= self.bytes@[start as int] <= 57,
                self.pos >= start,
                digits_end(self.bytes@, start as int) == digits_end(self.bytes@, self.pos as int),
                digits_value(self.bytes@, start as int, self.pos as int) == Some(value),
            ensures
                self.wf(),
                self.bytes == old(self).bytes,
                self.pos > start,
                self.pos == digits_end(self.bytes@, start as int),
                digits_value(self.bytes@, start as int, self.pos as int) == Some(value),
            decreases self.bytes@.len() - self.pos,
        {
            let byte = match self.peek() {
                Some(b) => b,
                None => break,
            };
            if !(48u8 <= byte && byte <= 57u8) {
                break;
            }
            let digit = (byte - 48u8) as u64;
            let ghost p = self.pos as int;
            proof {
                lemma_digits_end(self.bytes@, p + 1);
            }
            match value.checked_mul(10) {
                Some(v) => match v.checked_add(digit) {
                    Some(w) => value = w,
                    None => {
                        proof {
                            lemma_digits_overflow(self.bytes@, start as int, p + 1, digits_end(self.bytes@, start as int));
                        }
                        return Err(self.error(line, col, "number is too large"));
                    },
                },
                None => {
                    proof {
                        lemma_digits_overflow(self.bytes@, start as int, p + 1, digits_end(self.bytes@, start as int));
                    }
                    return Err(self.error(line, col, "number is too large"));
                },
            }
            self.advance();
        }
        let multiplier: u64 = match self.peek() {
            Some(b) => if b == 107u8 || b == 75u8 {
                1024
            } else if b == 109u8 || b == 77u8 {
                1048576
            } else if b == 103u8 || b == 71u8 {
                1073741824
            } else {
                0
            },
            None => 0,
        };
        if multiplier != 0 {
            self.advance();
            assert(value > u64::MAX / multiplier <==> value * multiplier > u64::MAX) by (nonlinear_arith)
                requires
                    multiplier > 0,
            ;
            value = if value > u64::MAX / multiplier {
                u64::MAX
            } else {
                value * multiplier
            };
        }
        Ok(value)
    }

    /// Reads a `text:` string: the rest of the `text:` line may hold blanks
    /// and a comment; then lines up to a lone `.`, each ended by CRLF, with a
    /// leading `..` unstuffed to `.`.
    fn multiline_string(&mut self, limits: &CompilerLimits, line: usize, col: usize) -> (r: Result<String, CompileError>)
        requires
            old(self).wf(),
        ensures
            final(self).wf(),
            final(self).bytes == old(self).bytes,
            final(self).pos >= old(self).pos,
            match multiline_header(old(self).bytes@, old(self).pos as int, limits.max_string_size) {
                Err(m) => r matches Err(e) && e.line == line && e.column == col && e.message@ == m,
                Ok((v, end)) => r matches Ok(s) && s@ == v && final(self).pos == end,
            },
    {
        let ghost whole = multiline_header(self.bytes@, self.pos as int, limits.max_string_size);
        loop
            invariant_except_break
                whole == multiline_header(self.bytes@, self.pos as int, limits.max_string_size),
            invariant
                self.wf(),
                self.bytes == old(self).bytes,
                self.pos >= old(self).pos,
                whole == multiline_header(old(self).bytes@, old(self).pos as int, limits.max_string_size),
            ensures
                self.wf(),
                self.bytes == old(self).bytes,
                self.pos >= old(self).pos,
                whole == multiline_body(self.bytes@, self.pos as int, Seq::empty(), 0, limits.max_string_size),
            decreases self.bytes@.len() - self.pos,
        {
            match self.peek() {
                Some(b) => {
                    if b == 32u8 || b == 9u8 || b == 13u8 {
                        self.advance();
                    } else if b == 35u8 {
                        let ghost p = self.pos as int;
                        proof {
                            lemma_multiline_comment(self.bytes@, p + 1, limits.max_string_size);
                            lemma_line_end(self.bytes@, p + 1);
                        }
                        self.skip_line();
                        if self.peek().is_none() {
                            return Err(self.error(line, col, "unterminated multiline string"));
                        }
                    } else if b == 10u8 {
                        self.advance();
                        break;
                    } else {
                        return Err(self.error(line, col, "expected a newline after 'text:'"));
                    }
                },
                None => return Err(self.error(line, col, "unterminated multiline string")),
            }
        }
        let mut value = String::new();
        let mut value_len: u128 = 0;
        loop
            invariant
                self.wf(),
                self.bytes == old(self).bytes,
                self.pos >= old(self).pos,
                value_len <= limits.max_string_size,
                whole == multiline_header(old(self).bytes@, old(self).pos as int, limits.max_string_size),
                whole == multiline_body(self.bytes@, self.pos as int, value@, value_len as int, limits.max_string_size),
            decreases self.bytes@.len() - self.pos,
        {
            let mut current: Vec<u8> = Vec::new();
            let mut terminated = false;
            let ghost line_start = self.pos as int;
            loop
                invariant_except_break
                    !terminated,
                invariant
                    self.wf(),
                    self.bytes == old(self).bytes,
                    self.pos >= line_start,
                    line_start >= old(self).pos,
                    line_start <= self.bytes@.len(),
                    !terminated ==> current@ == self.bytes@.subrange(line_start, self.pos as int),
                    !terminated ==> line_end(self.bytes@, line_start) == line_end(self.bytes@, self.pos as int),
                ensures
                    self.wf(),
                    self.bytes == old(self).bytes,
                    self.pos >= line_start,
                    line_start >= old(self).pos,
                    terminated ==> line_end(self.bytes@, line_start) == self.pos - 1 && self.pos - 1 < self.bytes@.len()
                        && current@ == self.bytes@.subrange(line_start, self.pos - 1),
                    !terminated ==> line_end(self.bytes@, line_start) == self.bytes@.len() && self.pos == self.bytes@.len()
                        && current@ == self.bytes@.subrange(line_start, self.pos as int),
                decreases self.bytes@.len() - self.pos,
            {
                let ghost q = self.pos as int;
                match self.advance() {
                    Some(b) => {
                        if b == 10u8 {
                            terminated = true;
                            break;
                        }
                        current.push(b);
                        assert(current@ =~= self.bytes@.subrange(line_start, self.pos as int));
                    },
                    None => break,
                }
            }
            proof {
                lemma_line_end(self.bytes@, line_start);
            }
            let ghost raw = current@;
            if current.len() > 0 && current[current.len() - 1] == 13u8 {
                current.pop();
            }
            assert(current@ == body_line(self.bytes@, line_start)) by {
                if raw.len() > 0 && raw.last() == 13 {
                    assert(current@ =~= raw.drop_last());
                }
            }
            if !terminated && current.len() == 0 {
                return Err(self.error(line, col, "unterminated multiline string"));
            }
            if current.len() == 1 && current[0] == 46u8 {
                assert(current@ =~= seq![46u8]);
                return Ok(value);
            }
            assert(current@ != seq![46u8]);
            let text: Vec<u8> = if current.len() >= 2 && current[0] == 46u8 && current[1] == 46u8 {
                let mut rest: Vec<u8> = Vec::new();
                let mut k: usize = 1;
                while k < current.len()
                    invariant
                        1 <= k <= current@.len(),
                        rest@ == current@.subrange(1, k as int),
                    decreases current@.len() - k,
                {
                    rest.push(current[k]);
                    k += 1;
                    assert(rest@ =~= current@.subrange(1, k as int));
                }
                assert(rest@ =~= current@.drop_first());
                rest
            } else {
                current
            };
            let ghost text_view = text@;
            value_len = value_len + text.len() as u128 + 2;
            match utf8_string(text) {
                Some(t) => push_str(&mut value, t.as_str()),
                None => return Err(self.error(line, col, "string is not valid utf-8")),
            }
            push_str(&mut value, "\r\n");
            if value_len > limits.max_string_size as u128 {
                return Err(self.error(line, col, "string exceeds the maximum length"));
            }
            if !terminated {
                return Err(self.error(line, col, "unterminated multiline string"));
            }
        }
    }

    /// Scans the next token; `None` at the end of the script.
    fn next_token(&mut self, limits: &CompilerLimits) -> (r: Result<Option<Token>, CompileError>)
        requires
            old(self).wf(),
        ensures
            final(self).wf(),
            final(self).bytes == old(self).bytes,
            r matches Ok(Some(t)) ==> final(self).pos > old(self).pos,
            next_token_spec(old(self).bytes@, old(self).pos as int, limits.max_string_size, r, final(self).pos as int),
    {
        let ghost bytes = self.bytes@;
        let ghost max = limits.max_string_size;
        loop
            invariant
                self.wf(),
                self.bytes == old(self).bytes,
                bytes == self.bytes@,
                max == limits.max_string_size,
                self.pos >= old(self).pos,
                skip_space(bytes, old(self).pos as int) == skip_space(bytes, self.pos as int),
            decreases self.bytes@.len() - self.pos,
        {
            let line = self.line;
            let col = self.col;
            let ghost it_start = self.pos as int;
            let byte = match self.peek() {
                Some(b) => b,
                None => return Ok(None),
            };
            if byte == 32u8 || byte == 9u8 || byte == 13u8 || byte == 10u8 {
                self.advance();
            } else if byte == 35u8 {
                proof {
                    lemma_skip_line_comment(bytes, it_start + 1);
                    lemma_line_end(bytes, it_start + 1);
                }
                self.skip_line();
                if self.peek().is_none() {
                    return Ok(None);
                }
            } else if byte == 47u8 && self.peek_at(1) == Some(42u8) {
                self.advance();
                self.advance();
                loop
                    invariant_except_break
                        skip_space(bytes, old(self).pos as int) == skip_block_comment(bytes, self.pos as int, it_start),
                    invariant
                        self.wf(),
                        self.bytes == old(self).bytes,
                        bytes == self.bytes@,
                        self.pos >= old(self).pos,
                        self.pos > it_start,
                        (line, col) == line_col(bytes, it_start),
                    ensures
                        self.wf(),
                        self.bytes == old(self).bytes,
                        self.pos >= old(self).pos,
                        skip_space(bytes, old(self).pos as int) == skip_space(bytes, self.pos as int),
                    decreases self.bytes@.len() - self.pos,
                {
                    match self.peek() {
                        Some(b) => {
                            if b == 42u8 && self.peek_at(1) == Some(47u8) {
                                self.advance();
                                self.advance();
                                break;
                            }
                            self.advance();
                        },
                        None => return Err(self.error(line, col, "unterminated comment")),
                    }
                }
            } else if byte == 34u8 {
                return match self.quoted_string(limits, line, col) {
                    Ok(value) => Ok(Some(Token { tok: Tok::Str(value), line, col })),
                    Err(e) => Err(e),
                };
            } else if 48u8 <= byte && byte <= 57u8 {
                return match self.number(line, col) {
                    Ok(value) => Ok(Some(Token { tok: Tok::Number(value), line, col })),
                    Err(e) => Err(e),
                };
            } else if (97u8 <= byte && byte <= 122u8) || (65u8 <= byte && byte <= 90u8) || byte == 95u8 {
                let word = self.word();
                if str_eq(word.as_str(), "text") && self.peek() == Some(58u8) {
                    self.advance();
                    return match self.multiline_string(limits, line, col) {
                        Ok(value) => Ok(Some(Token { tok: Tok::Str(value), line, col })),
                        Err(e) => Err(e),
                    };
                }
                return Ok(Some(Token { tok: Tok::Identifier(word), line, col }));
            } else if byte == 58u8 {
                self.advance();
                match self.peek() {
                    Some(b) => {
                        if (97u8 <= b && b <= 122u8) || (65u8 <= b && b <= 90u8) || b == 95u8 {
                            let word = self.word();
                            return Ok(Some(Token { tok: Tok::Tag(word), line, col }));
                        }
                        return Err(self.error(line, col, "expected tag name after ':'"));
                    },
                    None => return Err(self.error(line, col, "expected tag name after ':'")),
                }
            } else if byte == 40u8 || byte == 41u8 || byte == 123u8 || byte == 125u8 || byte == 91u8 || byte == 93u8
                || byte == 44u8 || byte == 59u8 {
                self.advance();
                let tok = if byte == 40u8 {
                    Tok::LParen
                } else if byte == 41u8 {
                    Tok::RParen
                } else if byte == 123u8 {
                    Tok::LBrace
                } else if byte == 125u8 {
                    Tok::RBrace
                } else if byte == 91u8 {
                    Tok::LBracket
                } else if byte == 93u8 {
                    Tok::RBracket
                } else if byte == 44u8 {
                    Tok::Comma
                } else {
                    Tok::Semicolon
                };
                return Ok(Some(Token { tok, line, col }));
            } else {
                let mut message = String::new();
                push_str(&mut message, "unexpected character 0x");
                let hex = hex_byte(byte);
                push_str(&mut message, hex.as_str());
                return Err(CompileError { line, column: col, message });
            }
        }
    }
}

/// What one scan from `pos` gives: the end, the next token with its line and
/// column and the position after it, or the error on the way.
pub open spec fn next_token_spec(
    bytes: Seq<u8>,
    pos: int,
    max: usize,
    r: Result<Option<Token>, CompileError>,
    after: int,
) -> bool {
    match skip_space(bytes, pos) {
        Err(start) => r matches Err(e) && e.line == line_col(bytes, start).0 && e.column == line_col(bytes, start).1
            && e.message@ == "unterminated comment"@,
        Ok(p) => if p >= bytes.len() {
            r matches Ok(None) && after == bytes.len()
        } else {
            match scan_token(bytes, p, max) {
                Err(m) => r matches Err(e) && e.line == line_col(bytes, p).0 && e.column == line_col(bytes, p).1
                    && e.message@ == m,
                Ok((t, e)) => r matches Ok(Some(tok)) && tok_view(tok.tok) == t && tok.line == line_col(bytes, p).0
                    && tok.col == line_col(bytes, p).1 && after == e,
            }
        },
    }
}

/// The tokens scanned so far, as the scan reads them.
pub open spec fn token_views(tokens: Seq<Token>) -> Seq<(LexTok, usize, usize)> {
    tokens.map_values(|t: Token| (tok_view(t.tok), t.line, t.col))
}

/// Splits a script into tokens. Comments and blanks are skipped; words are
/// lowered; quoted strings are unescaped; `text:` strings are gathered up to
/// their lone-dot line; numbers take K, M and G multipliers.
pub fn tokenize(source: &str, limits: &CompilerLimits) -> (r: Result<Vec<Token>, CompileError>)
    ensures
        match spec_tokens(source.spec_bytes(), 0, limits.max_string_size) {
            Ok(ts) => r matches Ok(tokens) && token_views(tokens@) == ts,
            Err((l, c, m)) => r matches Err(e) && e.line == l && e.column == c && e.message@ == m,
        },
{
    let mut lexer = Lexer { bytes: source.as_bytes(), pos: 0, line: 1, col: 1 };
    let ghost bytes = lexer.bytes@;
    let ghost max = limits.max_string_size;
    let mut tokens: Vec<Token> = Vec::new();
    loop
        invariant
            lexer.wf(),
            lexer.bytes@ == bytes,
            bytes == source.spec_bytes(),
            max == limits.max_string_size,
            match spec_tokens(bytes, lexer.pos as int, max) {
                Ok(rest) => spec_tokens(bytes, 0, max) == Ok::<Seq<(LexTok, usize, usize)>, (usize, usize, Seq<char>)>(
                    token_views(tokens@) + rest,
                ),
                Err(x) => spec_tokens(bytes, 0, max) == Err::<Seq<(LexTok, usize, usize)>, (usize, usize, Seq<char>)>(x),
            },
        decreases lexer.bytes@.len() - lexer.pos,
    {
        let ghost before = lexer.pos as int;
        let ghost old_tokens = tokens@;
        let step = lexer.next_token(limits);
        match step {
            Ok(Some(token)) => {
                let ghost t = token;
                let ghost e = lexer.pos as int;
                tokens.push(token);
                proof {
                    let item = (tok_view(t.tok), t.line, t.col);
                    assert(token_views(tokens@) =~= token_views(old_tokens).push(item));
                    match spec_tokens(bytes, e, max) {
                        Ok(rest) => {
                            assert(spec_tokens(bytes, before, max) == Ok::<Seq<(LexTok, usize, usize)>, (usize, usize, Seq<char>)>(
                                seq![item] + rest,
                            ));
                            assert(token_views(old_tokens) + (seq![item] + rest) =~= token_views(tokens@) + rest);
                        },
                        Err(x) => {
                            assert(spec_tokens(bytes, before, max) == Err::<Seq<(LexTok, usize, usize)>, (usize, usize, Seq<char>)>(x));
                        },
                    }
                }
            },
            Ok(None) => {
                proof {
                    assert(spec_tokens(bytes, before, max) == Ok::<Seq<(LexTok, usize, usize)>, (usize, usize, Seq<char>)>(
                        Seq::empty(),
                    ));
                    assert(token_views(tokens@) + Seq::<(LexTok, usize, usize)>::empty() =~= token_views(tokens@));
                }
                return Ok(tokens);
            },
            Err(e) => return Err(e),
        }
    }
}

} // verus!
