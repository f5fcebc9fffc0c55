//! The lexer of telegrams: from the bytes of a telegram to its tokens.
//!
//! A telegram is a list of lines. Its first line is a comment, which begins
//! with `/`; each other line holds the code of a register and, in round
//! brackets, its values; a line that begins with `!` closes the telegram and
//! holds a checksum, which is not read.

use vstd::prelude::*;
use vstd::slice::{slice_subrange, slice_to_vec};

verus! {

/// What is wrong with the text of a telegram.
#[derive(Debug, Clone, Copy, PartialEq, Eq, Structural)]
pub enum LexError {
    /// The text ends where a token has to follow.
    Eof,
    /// The text holds a byte with which no token begins, or a token of
    /// another kind than the one that has to follow.
    UnexpectedToken,
}

impl LexError {
    /// The name of the error.
    pub fn name(&self) -> (name: &'static str)
        ensures
            name@ == (match self {
                LexError::Eof => "Eof"@,
                LexError::UnexpectedToken => "UnexpectedToken"@,
            }),
    {
        match self {
            LexError::Eof => "Eof",
            LexError::UnexpectedToken => "UnexpectedToken",
        }
    }
}

impl Default for LexError {
    /// The error of a byte with which no token begins.
    fn default() -> (error: LexError)
        ensures
            error == LexError::UnexpectedToken,
    {
        LexError::UnexpectedToken
    }
}

/// A token of a telegram, with its text.
#[derive(Debug, Clone, PartialEq, Eq)]
pub enum Token {
    /// A line that begins with `/`: the text behind the `/`, without the
    /// blanks at its end.
    Comment(Vec<u8>),
    /// The code of a register, such as `1-0:2.8.1`.
    Code(Vec<u8>),
    /// A value in round brackets: the text between them.
    Value(Vec<u8>),
}

/// What stands at one place of a telegram: a token, or a byte with which no
/// token begins.
pub enum Lexeme {
    Comment(Seq<u8>),
    Code(Seq<u8>),
    Value(Seq<u8>),
    Invalid,
}

impl View for Token {
    type V = Lexeme;

    open spec fn view(&self) -> Lexeme {
        match self {
            Token::Comment(text) => Lexeme::Comment(text@),
            Token::Code(text) => Lexeme::Code(text@),
            Token::Value(text) => Lexeme::Value(text@),
        }
    }
}

/// What a step of the lexer stands for: the token, or `Invalid` for an
/// error.
pub open spec fn lexeme_of(item: Result<Token, LexError>) -> Lexeme {
    match item {
        Ok(token) => token@,
        Err(_) => Lexeme::Invalid,
    }
}

/// The lexemes that a list of steps stands for.
pub open spec fn lexemes_of(items: Seq<Result<Token, LexError>>) -> Seq<Lexeme> {
    items.map_values(|item: Result<Token, LexError>| lexeme_of(item))
}

/// Blanks: space, tab, line feed, form feed and carriage return.
pub open spec fn is_blank(byte: u8) -> bool {
    byte == 0x20 || byte == 0x09 || byte == 0x0a || byte == 0x0c || byte == 0x0d
}

/// The digits `0` to `9`.
pub open spec fn is_digit(byte: u8) -> bool {
    0x30 <= byte <= 0x39
}

/// The first place from `pos` on that holds `byte`, or the length of `input`
/// where none does.
pub open spec fn find(input: Seq<u8>, pos: int, byte: u8) -> int
    decreases input.len() - pos,
{
    if pos >= input.len() {
        input.len() as int
    } else if input[pos] == byte {
        pos
    } else {
        find(input, pos + 1, byte)
    }
}

/// The first place from `pos` on with which a token may begin: blanks are
/// passed over, and so is the rest of a line from a `!` on. It is the length
/// of `input` where nothing but such text is left.
pub open spec fn skip_ignored(input: Seq<u8>, pos: int) -> int
    decreases input.len() - pos,
    via skip_ignored_decreases
{
    if pos < 0 || pos >= input.len() {
        input.len() as int
    } else if is_blank(input[pos]) {
        skip_ignored(input, pos + 1)
    } else if input[pos] == 0x21 {
        skip_ignored(input, find(input, pos + 1, 0x0a))
    } else {
        pos
    }
}

#[via_fn]
proof fn skip_ignored_decreases(input: Seq<u8>, pos: int) {
    if 0 <= pos < input.len() {
        lemma_find_bounds(input, pos + 1, 0x0a);
    }
}

/// `text` without the blanks at its end.
pub open spec fn trimmed(text: Seq<u8>) -> Seq<u8>
    decreases text.len(),
{
    if text.len() > 0 && is_blank(text.last()) {
        trimmed(text.drop_last())
    } else {
        text
    }
}

/// Whether a code begins at `pos`: a digit, `-`, a digit, `:` and a digit.
pub open spec fn starts_code(input: Seq<u8>, pos: int) -> bool {
    &&& 0 <= pos
    &&& pos + 5 <= input.len()
    &&& is_digit(input[pos])
    &&& input[pos + 1] == 0x2d
    &&& is_digit(input[pos + 2])
    &&& input[pos + 3] == 0x3a
    &&& is_digit(input[pos + 4])
}

/// The end of the code of which `pos` is the place behind a digit: further
/// digits belong to it, and so does a `.` with a digit behind it. A code
/// thus ends with groups of digits that single dots part, as `96.14.0` does.
pub open spec fn code_end(input: Seq<u8>, pos: int) -> int
    decreases input.len() - pos,
{
    if 0 <= pos < input.len() && is_digit(input[pos]) {
        code_end(input, pos + 1)
    } else if 0 <= pos && pos + 1 < input.len() && input[pos] == 0x2e && is_digit(input[pos + 1]) {
        code_end(input, pos + 2)
    } else {
        pos
    }
}

/// The lexeme that follows `pos`, with the place behind it; `None` where
/// only text that is passed over is left.
///
/// A `/` begins a comment, which runs to the end of its line. A `(` begins a
/// value, which runs to the next `)`, over line ends too. A digit begins a
/// code where `starts_code` holds. Any other byte, a `(` that no `)` follows
/// and a digit that begins no code are invalid, each by itself: the lexer
/// goes on behind that one byte.
pub open spec fn scan(input: Seq<u8>, pos: int) -> Option<(Lexeme, int)> {
    let start = skip_ignored(input, pos);
    if start >= input.len() {
        None
    } else if input[start] == 0x2f {
        let end = find(input, start, 0x0a);
        Some((Lexeme::Comment(trimmed(input.subrange(start + 1, end))), end))
    } else if input[start] == 0x28 {
        let close = find(input, start + 1, 0x29);
        if close < input.len() {
            Some((Lexeme::Value(input.subrange(start + 1, close)), close + 1))
        } else {
            Some((Lexeme::Invalid, start + 1))
        }
    } else if starts_code(input, start) {
        let end = code_end(input, start + 5);
        Some((Lexeme::Code(input.subrange(start, end)), end))
    } else {
        Some((Lexeme::Invalid, start + 1))
    }
}

/// The lexemes of `input` from `pos` on, in their order.
pub open spec fn lexemes(input: Seq<u8>, pos: int) -> Seq<Lexeme>
    decreases input.len() - pos,
    via lexemes_decreases
{
    if pos < 0 {
        Seq::empty()
    } else {
        match scan(input, pos) {
            None => Seq::empty(),
            Some((lexeme, next)) => seq![lexeme] + lexemes(input, next),
        }
    }
}

#[via_fn]
proof fn lexemes_decreases(input: Seq<u8>, pos: int) {
    if pos >= 0 {
        lemma_scan_advances(input, pos);
    }
}

/// A lexer over the bytes of one telegram. It hands out one token at a time
/// and can go on behind an error.
pub struct Lexer<'a> {
    input: &'a [u8],
    pos: usize,
}

impl<'a> Lexer<'a> {
    #[verifier::type_invariant]
    spec fn in_bounds(self) -> bool {
        self.pos <= self.input@.len()
    }

    /// The bytes that the lexer reads.
    pub closed spec fn source(self) -> Seq<u8> {
        self.input@
    }

    /// The place up to which the lexer has read.
    pub closed spec fn position(self) -> int {
        self.pos as int
    }

    /// The lexemes that the lexer has yet to hand out.
    pub open spec fn remaining(self) -> Seq<Lexeme> {
        lexemes(self.source(), self.position())
    }

    /// A lexer at the start of `input`.
    pub fn new(input: &'a [u8]) -> (lexer: Lexer<'a>)
        ensures
            lexer.source() == input@,
            lexer.position() == 0,
    {
        Lexer { input, pos: 0 }
    }

    /// The next token, an error for a byte with which no token begins, or
    /// `None` at the end of the text.
    pub fn next_token(&mut self) -> (item: Option<Result<Token, LexError>>)
        ensures
            final(self).source() == old(self).source(),
            0 <= old(self).position() <= final(self).position() <= old(self).source().len(),
            match scan(old(self).source(), old(self).position()) {
                None => item is None && final(self).position() == old(self).source().len(),
                Some((lexeme, next)) => {
                    &&& final(self).position() == next
                    &&& item matches Some(step)
                    &&& lexeme_of(step) == lexeme
                    &&& step matches Err(error) ==> error == LexError::UnexpectedToken
                },
            },
            item is None ==> final(self).remaining() == old(self).remaining()
                && old(self).remaining().len() == 0,
            item is Some ==> old(self).position() < final(self).position(),
            item is Some ==> old(self).remaining().len() > 0,
            item matches Some(step) ==> lexeme_of(step) == old(self).remaining()[0],
            item is Some ==> final(self).remaining() == old(self).remaining().skip(1),
    {
        proof {
            use_type_invariant(&*self);
            lemma_scan_advances(self.input@, self.pos as int);
        }
        let input = self.input;
        let start = skip(input, self.pos);
        if start >= input.len() {
            self.pos = start;
            proof {
                lemma_skip_ignored_idempotent(input@, old(self).pos as int);
            }
            return None;
        }
        let first = input[start];
        let item: Result<Token, LexError>;
        let next: usize;
        if first == 0x2f {
            let end = seek(input, start, 0x0a);
            proof {
                lemma_find_bounds(input@, start + 1, 0x0a);
            }
            let text = trim(slice_subrange(input, start + 1, end));
            item = Ok(Token::Comment(slice_to_vec(text)));
            next = end;
        } else if first == 0x28 {
            let close = seek(input, start + 1, 0x29);
            if close < input.len() {
                item = Ok(Token::Value(slice_to_vec(slice_subrange(input, start + 1, close))));
                next = close + 1;
            } else {
                item = Err(LexError::UnexpectedToken);
                next = start + 1;
            }
        } else if begins_code(input, start) {
            let end = code_tail(input, start + 5);
            item = Ok(Token::Code(slice_to_vec(slice_subrange(input, start, end))));
            next = end;
        } else {
            item = Err(LexError::UnexpectedToken);
            next = start + 1;
        }
        self.pos = next;
        proof {
            let rest = lexemes(input@, next as int);
            assert((seq![lexeme_of(item)] + rest).skip(1) == rest);
        }
        Some(item)
    }

    /// The next token where one has to follow: `Eof` at the end of the text,
    /// `UnexpectedToken` for a byte with which no token begins.
    pub fn next(&mut self) -> (item: Result<Token, LexError>)
        ensures
            final(self).source() == old(self).source(),
            old(self).position() <= final(self).position() <= old(self).source().len(),
            expected(first_of(old(self).remaining()), item),
            old(self).remaining().len() == 0 ==> final(self).remaining().len() == 0,
            old(self).remaining().len() > 0 ==> old(self).position() < final(self).position()
                && final(self).remaining() == old(self).remaining().skip(1),
    {
        match self.next_token() {
            None => Err(LexError::Eof),
            Some(item) => item,
        }
    }
}

/// What `Lexer::next` returns where `first` is what follows: the token, `Eof`
/// where nothing follows, `UnexpectedToken` where no token begins.
pub open spec fn expected(first: Option<Lexeme>, item: Result<Token, LexError>) -> bool {
    match first {
        None => item == Err::<Token, LexError>(LexError::Eof),
        Some(Lexeme::Invalid) => item == Err::<Token, LexError>(LexError::UnexpectedToken),
        Some(lexeme) => item matches Ok(token) && token@ == lexeme,
    }
}

/// The first of `lexemes`, if there is one.
pub open spec fn first_of(lexemes: Seq<Lexeme>) -> Option<Lexeme> {
    if lexemes.len() == 0 {
        None
    } else {
        Some(lexemes[0])
    }
}

/// The tokens of `input`, each error in its place.
pub fn tokenize(input: &[u8]) -> (items: Vec<Result<Token, LexError>>)
    ensures
        lexemes_of(items@) == lexemes(input@, 0),
        forall|i: int|
            0 <= i < items.len() ==> (#[trigger] items[i] matches Err(error) ==> error
                == LexError::UnexpectedToken),
{
    let mut lexer = Lexer::new(input);
    let mut items: Vec<Result<Token, LexError>> = Vec::new();
    loop
        invariant
            lexer.source() == input@,
            lexemes_of(items@) + lexer.remaining() == lexemes(input@, 0),
            forall|i: int|
                0 <= i < items.len() ==> (#[trigger] items[i] matches Err(error) ==> error
                    == LexError::UnexpectedToken),
        ensures
            lexemes_of(items@) == lexemes(input@, 0),
        decreases lexer.source().len() - lexer.position(), lexer.remaining().len(),
    {
        let ghost before = lexer.remaining();
        let ghost collected = items@;
        proof {
            lemma_scan_advances(lexer.source(), lexer.position());
        }
        match lexer.next_token() {
            None => {
                break ;
            },
            Some(step) => {
                items.push(step);
                proof {
                    assert(lexemes_of(items@) == lexemes_of(collected).push(lexeme_of(step)));
                    assert(lexemes_of(collected).push(before[0]) + before.skip(1) == lexemes_of(
                        collected,
                    ) + before);
                }
            },
        }
    }
    items
}

/// Whether `byte` is a blank.
fn blank(byte: u8) -> (is: bool)
    ensures
        is == is_blank(byte),
{
    byte == 0x20 || byte == 0x09 || byte == 0x0a || byte == 0x0c || byte == 0x0d
}

/// Whether `byte` is a digit.
fn digit(byte: u8) -> (is: bool)
    ensures
        is == is_digit(byte),
{
    0x30 <= byte && byte <= 0x39
}

/// The first place from `pos` on that holds `byte`, or the length of
/// `input`.
fn seek(input: &[u8], pos: usize, byte: u8) -> (place: usize)
    requires
        pos <= input.len(),
    ensures
        place == find(input@, pos as int, byte),
        pos <= place <= input.len(),
{
    let mut place = pos;
    while place < input.len() && input[place] != byte
        invariant
            pos <= place <= input.len(),
            find(input@, place as int, byte) == find(input@, pos as int, byte),
        decreases input.len() - place,
    {
        place += 1;
    }
    place
}

/// The first place from `pos` on with which a token may begin.
fn skip(input: &[u8], pos: usize) -> (place: usize)
    requires
        pos <= input.len(),
    ensures
        place == skip_ignored(input@, pos as int),
        pos <= place <= input.len(),
{
    let mut place = pos;
    while place < input.len() && (blank(input[place]) || input[place] == 0x21)
        invariant
            pos <= place <= input.len(),
            skip_ignored(input@, place as int) == skip_ignored(input@, pos as int),
        decreases input.len() - place,
    {
        if input[place] == 0x21 {
            place = seek(input, place + 1, 0x0a);
        } else {
            place += 1;
        }
    }
    place
}

/// `text` without the blanks at its end.
fn trim(text: &[u8]) -> (kept: &[u8])
    ensures
        kept@ == trimmed(text@),
{
    let mut end = text.len();
    assert(text@.take(end as int) == text@);
    while end > 0 && blank(text[end - 1])
        invariant
            end <= text.len(),
            trimmed(text@.take(end as int)) == trimmed(text@),
        decreases end,
    {
        proof {
            assert(text@.take(end as int).drop_last() == text@.take(end - 1));
        }
        end -= 1;
    }
    proof {
        if end == 0 {
            assert(text@.take(0).len() == 0);
        }
    }
    slice_subrange(text, 0, end)
}

/// Whether a code begins at `pos`.
fn begins_code(input: &[u8], pos: usize) -> (begins: bool)
    requires
        pos <= input.len(),
    ensures
        begins == starts_code(input@, pos as int),
{
    input.len() - pos >= 5 && digit(input[pos]) && input[pos + 1] == 0x2d && digit(input[pos + 2])
        && input[pos + 3] == 0x3a && digit(input[pos + 4])
}

/// The end of the code of which `pos` is the place behind a digit.
fn code_tail(input: &[u8], pos: usize) -> (end: usize)
    requires
        pos <= input.len(),
    ensures
        end == code_end(input@, pos as int),
        pos <= end <= input.len(),
{
    let mut end = pos;
    loop
        invariant
            pos <= end <= input.len(),
            code_end(input@, end as int) == code_end(input@, pos as int),
        ensures
            end == code_end(input@, pos as int),
        decreases input.len() - end,
    {
        if end < input.len() && digit(input[end]) {
            end += 1;
        } else if input.len() - end >= 2 && input[end] == 0x2e && digit(input[end + 1]) {
            end += 2;
        } else {
            break ;
        }
    }
    end
}

/// `find` stays within the text behind `pos`.
pub proof fn lemma_find_bounds(input: Seq<u8>, pos: int, byte: u8)
    requires
        0 <= pos <= input.len(),
    ensures
        pos <= find(input, pos, byte) <= input.len(),
        find(input, pos, byte) < input.len() ==> input[find(input, pos, byte)] == byte,
    decreases input.len() - pos,
{
    if pos < input.len() && input[pos] != byte {
        lemma_find_bounds(input, pos + 1, byte);
    }
}

/// `skip_ignored` stays within the text behind `pos`, and ends at a byte that
/// is neither a blank nor a `!`.
pub proof fn lemma_skip_ignored_bounds(input: Seq<u8>, pos: int)
    requires
        0 <= pos <= input.len(),
    ensures
        pos <= skip_ignored(input, pos) <= input.len(),
        skip_ignored(input, pos) < input.len() ==> !is_blank(input[skip_ignored(input, pos)])
            && input[skip_ignored(input, pos)] != 0x21,
    decreases input.len() - pos,
{
    if pos < input.len() {
        if is_blank(input[pos]) {
            lemma_skip_ignored_bounds(input, pos + 1);
        } else if input[pos] == 0x21 {
            lemma_find_bounds(input, pos + 1, 0x0a);
            lemma_skip_ignored_bounds(input, find(input, pos + 1, 0x0a));
        }
    }
}

/// Where `skip_ignored` ends there is nothing more to pass over.
proof fn lemma_skip_ignored_idempotent(input: Seq<u8>, pos: int)
    requires
        0 <= pos <= input.len(),
    ensures
        skip_ignored(input, skip_ignored(input, pos)) == skip_ignored(input, pos),
{
    lemma_skip_ignored_bounds(input, pos);
}

/// `code_end` stays within the text behind `pos`.
pub proof fn lemma_code_end_bounds(input: Seq<u8>, pos: int)
    requires
        0 <= pos <= input.len(),
    ensures
        pos <= code_end(input, pos) <= input.len(),
    decreases input.len() - pos,
{
    if pos < input.len() && is_digit(input[pos]) {
        lemma_code_end_bounds(input, pos + 1);
    } else if pos + 1 < input.len() && input[pos] == 0x2e && is_digit(input[pos + 1]) {
        lemma_code_end_bounds(input, pos + 2);
    }
}

/// Each lexeme takes at least one byte: the lexer always gets on.
pub proof fn lemma_scan_advances(input: Seq<u8>, pos: int)
    requires
        0 <= pos,
    ensures
        scan(input, pos) matches Some((_, next)) ==> pos < next <= input.len(),
{
    if pos <= input.len() {
        lemma_skip_ignored_bounds(input, pos);
        let start = skip_ignored(input, pos);
        if start < input.len() {
            lemma_find_bounds(input, start, 0x0a);
            lemma_find_bounds(input, start + 1, 0x29);
            if starts_code(input, start) {
                lemma_code_end_bounds(input, start + 5);
            }
        }
    }
}

} // verus!
