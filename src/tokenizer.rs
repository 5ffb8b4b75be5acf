//! The lexer: from source text to tokens and lexical errors.
use vstd::prelude::*;
use crate::needle::{Needle, TextMetaData, newline_offsets};
use crate::render::push_char;
use crate::token::{FloatLiteral, KeywordType, LiteralType, OperatorType, LiteralView, Token, TokenKindView, TokenView};

verus! {

/// Whether a character has the Unicode Alphabetic property.
pub uninterp spec fn alphabetic(c: char) -> bool;

/// Whether a character has the Unicode White_Space property, which these code points have.
pub open spec fn whitespace(c: char) -> bool {
    let u = c as u32;
    (0x09 <= u <= 0x0d) || u == 0x20 || u == 0x85 || u == 0xa0 || u == 0x1680 || (0x2000 <= u <= 0x200a)
        || u == 0x2028 || u == 0x2029 || u == 0x202f || u == 0x205f || u == 0x3000
}

/// Relies on char::is_alphabetic: the Alphabetic property of the character.
#[verifier::external_body]
fn is_alphabetic(c: char) -> (r: bool)
    ensures
        r == alphabetic(c),
{
    c.is_alphabetic()
}

/// Whether a character has the White_Space property, as `char::is_whitespace` tells.
pub fn is_whitespace(c: char) -> (r: bool)
    ensures
        r == whitespace(c),
{
    let u = c as u32;
    (0x09 <= u && u <= 0x0d) || u == 0x20 || u == 0x85 || u == 0xa0 || u == 0x1680 || (0x2000 <= u && u
        <= 0x200a) || u == 0x2028 || u == 0x2029 || u == 0x202f || u == 0x205f || u == 0x3000
}

/// A lexical error: where, how sure the lexer is of it, and what went wrong.
#[derive(Clone, Copy, Debug)]
pub struct Error {
    pub msg: &'static str,
    pub loc: usize,
    pub priority: u8,
}

/// A lexical error seen as values.
pub struct LexFailure {
    pub loc: int,
    pub priority: u8,
    pub msg: Seq<char>,
}

impl View for Error {
    type V = LexFailure;

    open spec fn view(&self) -> LexFailure {
        LexFailure { loc: self.loc as int, priority: self.priority, msg: self.msg@ }
    }
}

impl Error {
    pub fn new(loc: usize, priority: u8, msg: &'static str) -> (r: Error)
        ensures
            r.loc == loc,
            r.priority == priority,
            r.msg == msg,
    {
        Error { loc: loc, msg: msg, priority: priority }
    }

    /// An error at the cursor's index.
    pub fn at_needle<T>(needle: &Needle<T>, priority: u8, msg: &'static str) -> (r: Error)
        ensures
            r.loc == needle@.index,
            r.priority == priority,
            r.msg == msg,
    {
        Error { loc: needle.get_index(), msg: msg, priority: priority }
    }
}

pub open spec fn lexed(r: Result<Token, Error>) -> Result<TokenView, LexFailure> {
    match r {
        Ok(t) => Ok(t@),
        Err(e) => Err(e@),
    }
}

pub open spec fn word_char(c: char) -> bool {
    alphabetic(c) || c == '_'
}

/// Where the run of word characters from `i` ends.
pub open spec fn word_end(chars: Seq<char>, i: int) -> int
    decreases chars.len() - i,
{
    if 0 <= i < chars.len() && word_char(chars[i]) {
        word_end(chars, i + 1)
    } else {
        i
    }
}

pub open spec fn digit_value(c: char) -> Option<nat> {
    if '0' <= c <= '9' {
        Some((c as nat - '0' as nat) as nat)
    } else {
        None
    }
}

/// Where the run of decimal digits from `i` ends.
pub open spec fn digits_end(chars: Seq<char>, i: int) -> int
    decreases chars.len() - i,
{
    if 0 <= i < chars.len() && digit_value(chars[i]) is Some {
        digits_end(chars, i + 1)
    } else {
        i
    }
}

/// The number that a run of digits writes in decimal.
pub open spec fn digits_value(s: Seq<char>) -> nat
    decreases s.len(),
{
    if s.len() == 0 {
        0
    } else {
        digits_value(s.drop_last()) * 10 + match digit_value(s.last()) {
            Some(d) => d,
            None => 0,
        }
    }
}

/// The value of a decimal digit, as `char::to_digit(10)` gives it.
pub fn to_digit(c: char) -> (r: Option<u32>)
    ensures
        match digit_value(c) {
            Some(d) => r == Some(d as u32),
            None => r is None,
        },
{
    if '0' <= c && c <= '9' {
        Some((c as u32) - ('0' as u32))
    } else {
        None
    }
}

proof fn lemma_word_end_bounds(chars: Seq<char>, i: int)
    requires
        0 <= i <= chars.len(),
    ensures
        i <= word_end(chars, i) <= chars.len(),
        forall|j: int| i <= j < word_end(chars, i) ==> word_char(#[trigger] chars[j]),
        word_end(chars, i) < chars.len() ==> !word_char(chars[word_end(chars, i)]),
    decreases chars.len() - i,
{
    if i < chars.len() && word_char(chars[i]) {
        lemma_word_end_bounds(chars, i + 1);
    }
}

/// Whether a word character is under the cursor.
fn at_word_char(needle: &Needle<char>) -> (r: bool)
    requires
        needle@.wf(),
    ensures
        r == (needle@.current() matches Some(c) && word_char(c)),
        !r ==> word_end(needle@.items, needle@.index) == needle@.index,
        r ==> word_end(needle@.items, needle@.index) == word_end(needle@.items, needle@.index + 1),
{
    match needle.peek() {
        Some(ch) => is_alphabetic(*ch) || *ch == '_',
        None => false,
    }
}

/// Reads a run of letters and underscores as an identifier that starts at the top
/// checkpoint; fails, reading nothing, where there is none.
pub fn try_tokenize_word(needle: &mut Needle<char>, meta: &TextMetaData) -> (r: Result<Token, Error>)
    requires
        old(needle)@.wf(),
    ensures
        final(needle)@.wf(),
        old(needle)@.index <= final(needle)@.index,
        ({
            let c = old(needle)@;
            let k = word_end(c.items, c.index);
            &&& final(needle)@ == c.with_index(k)
            &&& k > c.index ==> lexed(r) == Ok::<TokenView, LexFailure>(TokenView {
                start: meta.loc_at(c.with_index(k).floor()),
                kind: TokenKindView::Identifier(c.items.subrange(c.index, k)),
            })
            &&& k == c.index ==> lexed(r) == Err::<TokenView, LexFailure>(LexFailure { loc: c.index, priority: 0, msg: "No word found"@ })
        }),
{
    let start = needle.get_index();
    let ghost c = needle@;
    proof {
        lemma_word_end_bounds(c.items, c.index);
    }
    while at_word_char(needle)
        invariant
            needle@.wf(),
            needle@ == c.with_index(needle@.index),
            c.index <= needle@.index,
            start == c.index,
            word_end(c.items, needle@.index) == word_end(c.items, c.index),
        decreases c.items.len() - needle@.index,
    {
        needle.next();
    }
    let end = needle.get_index();
    if start != end {
        let at = needle.get_prev_state_index();
        let loc = meta.index_to_loc(at);
        return Ok(Token::identifier(loc, needle.get_slice(start, end)));
    }
    Err(Error::at_needle(needle, 0, "No word found"))
}

/// The character an escape stands for: `\"`, `\\`, `\t` and `\n`.
pub open spec fn escaped(c: char) -> Option<char> {
    if c == '"' {
        Some('"')
    } else if c == '\\' {
        Some('\\')
    } else if c == 't' {
        Some('\t')
    } else if c == 'n' {
        Some('\n')
    } else {
        None
    }
}

/// The rest of a string literal from `j`, after the characters `acc` already read: its text
/// and the index after the closing quote, or the failure and the index where reading stopped.
pub open spec fn string_body(chars: Seq<char>, j: int, acc: Seq<char>) -> (Result<Seq<char>, LexFailure>, int)
    decreases chars.len() - j,
{
    if !(0 <= j < chars.len()) {
        (Err(LexFailure { loc: j, priority: 2, msg: "Unexpected end of string"@ }), j)
    } else if chars[j] == '"' {
        (Ok(acc), j + 1)
    } else if chars[j] == '\\' {
        if j + 1 >= chars.len() {
            (Err(LexFailure { loc: j + 1, priority: 2, msg: "Unexpected end of string"@ }), j + 1)
        } else {
            match escaped(chars[j + 1]) {
                Some(e) => string_body(chars, j + 2, acc.push(e)),
                None => (Err(LexFailure { loc: j + 2, priority: 1, msg: "Invalid character after '\\'"@ }), j + 2),
            }
        }
    } else if chars[j] == '\n' {
        (Err(LexFailure { loc: j + 1, priority: 2, msg: "Unexpected end of string"@ }), j + 1)
    } else {
        string_body(chars, j + 1, acc.push(chars[j]))
    }
}

fn unescape(c: char) -> (r: Option<char>)
    ensures
        r == escaped(c),
{
    if c == '"' {
        Some('"')
    } else if c == '\\' {
        Some('\\')
    } else if c == 't' {
        Some('\t')
    } else if c == 'n' {
        Some('\n')
    } else {
        None
    }
}

/// Reads a string literal in double quotes, with the escapes `\"`, `\\`, `\t` and `\n`, as a
/// token that starts at the top checkpoint.
pub fn try_tokenize_string(needle: &mut Needle<char>, meta: &TextMetaData) -> (r: Result<Token, Error>)
    requires
        old(needle)@.wf(),
    ensures
        final(needle)@.wf(),
        old(needle)@.index <= final(needle)@.index,
        ({
            let c = old(needle)@;
            if c.current() == Some('"') {
                let (res, k) = string_body(c.items, c.index + 1, Seq::empty());
                &&& final(needle)@ == c.with_index(k)
                &&& lexed(r) == match res {
                    Ok(text) => Ok(TokenView {
                        start: meta.loc_at(c.with_index(k).floor()),
                        kind: TokenKindView::Literal(LiteralView::Str(text)),
                    }),
                    Err(f) => Err(f),
                }
            } else {
                let k = if c.index < c.items.len() {
                    c.index + 1
                } else {
                    c.index
                };
                &&& final(needle)@ == c.with_index(k)
                &&& lexed(r) == Err::<TokenView, LexFailure>(
                    LexFailure { loc: k, priority: 0, msg: "Unexpected start of string, expected '\"'"@ },
                )
            }
        }),
{
    let ghost c = needle@;
    let opened = match needle.read() {
        Some(ch) => *ch == '"',
        None => false,
    };
    if !opened {
        return Err(Error::at_needle(needle, 0, "Unexpected start of string, expected '\"'"));
    }
    let ghost goal = string_body(c.items, c.index + 1, Seq::empty());
    proof {
        lemma_string_body_bounds(c.items, c.index + 1, Seq::empty());
    }
    let mut string = String::new();
    loop
        invariant
            c == old(needle)@,
            needle@.wf(),
            needle@ == c.with_index(needle@.index),
            c.index < needle@.index,
            c.current() == Some('"'),
            goal == string_body(c.items, c.index + 1, Seq::empty()),
            c.index + 1 <= goal.1,
            string_body(c.items, needle@.index, string@) == goal,
        decreases c.items.len() - needle@.index,
    {
        let pos = needle.get_index();
        let ch = match needle.read() {
            Some(ch) => *ch,
            None => {
                proof {
                    assert(string_body(c.items, pos as int, string@) == (
                        Err::<Seq<char>, LexFailure>(LexFailure { loc: pos as int, priority: 2, msg: "Unexpected end of string"@ }),
                        pos as int,
                    ));
                }
                return Err(Error::new(pos, 2, "Unexpected end of string"));
            },
        };
        if ch == '"' {
            let at = needle.get_prev_state_index();
            let loc = meta.index_to_loc(at);
            return Ok(Token::literal(loc, LiteralType::Str(string)));
        } else if ch == '\\' {
            let escape_pos = needle.get_index();
            let e = match needle.read() {
                Some(e) => *e,
                None => return Err(Error::new(escape_pos, 2, "Unexpected end of string")),
            };
            match unescape(e) {
                Some(u) => push_char(&mut string, u),
                None => return Err(Error::new(escape_pos + 1, 1, "Invalid character after '\\'")),
            }
        } else if ch == '\n' {
            proof {
                assert(string_body(c.items, pos as int, string@) == (
                    Err::<Seq<char>, LexFailure>(LexFailure { loc: pos + 1, priority: 2, msg: "Unexpected end of string"@ }),
                    pos + 1,
                ));
            }
            return Err(Error::at_needle(needle, 2, "Unexpected end of string"));
        } else {
            push_char(&mut string, ch);
        }
    }
}

/// Whether a digit is under the cursor.
fn at_digit(needle: &Needle<char>) -> (r: Option<u32>)
    requires
        needle@.wf(),
    ensures
        match r {
            Some(d) => needle@.current() matches Some(c) && digit_value(c) == Some(d as nat)
                && digits_end(needle@.items, needle@.index) == digits_end(needle@.items, needle@.index + 1),
            None => digits_end(needle@.items, needle@.index) == needle@.index,
        },
{
    match needle.peek() {
        Some(ch) => to_digit(*ch),
        None => None,
    }
}

proof fn lemma_digits_value_push(s: Seq<char>, c: char)
    requires
        digit_value(c) is Some,
    ensures
        digits_value(s.push(c)) == digits_value(s) * 10 + digit_value(c)->0,
{
    assert(s.push(c).drop_last() =~= s);
}

proof fn lemma_digits_end_bounds(chars: Seq<char>, i: int)
    requires
        0 <= i <= chars.len(),
    ensures
        i <= digits_end(chars, i) <= chars.len(),
    decreases chars.len() - i,
{
    if i < chars.len() && digit_value(chars[i]) is Some {
        lemma_digits_end_bounds(chars, i + 1);
    }
}

/// Reads a run of digits, carrying on the number `value` that the digits `prefix` write;
/// `overflow` tells that this number exceeds the largest `i128`.
fn read_digits(needle: &mut Needle<char>, value: i128, overflow: bool, prefix: Ghost<Seq<char>>) -> (r: (i128, bool))
    requires
        old(needle)@.wf(),
        overflow == (digits_value(prefix@) > i128::MAX),
        !overflow ==> value == digits_value(prefix@),
    ensures
        final(needle)@.wf(),
        final(needle)@ == old(needle)@.with_index(digits_end(old(needle)@.items, old(needle)@.index)),
        ({
            let all = prefix@ + old(needle)@.items.subrange(old(needle)@.index, final(needle)@.index);
            &&& r.1 == (digits_value(all) > i128::MAX)
            &&& !r.1 ==> r.0 == digits_value(all)
        }),
{
    let ghost c = needle@;
    let mut value = value;
    let mut overflow = overflow;
    proof {
        lemma_digits_end_bounds(c.items, c.index);
        assert(prefix@ + c.items.subrange(c.index, c.index) =~= prefix@);
    }
    loop
        invariant
            c == old(needle)@,
            needle@.wf(),
            needle@ == c.with_index(needle@.index),
            c.index <= needle@.index <= digits_end(c.items, c.index),
            digits_end(c.items, needle@.index) == digits_end(c.items, c.index),
            overflow == (digits_value(prefix@ + c.items.subrange(c.index, needle@.index)) > i128::MAX),
            !overflow ==> value == digits_value(prefix@ + c.items.subrange(c.index, needle@.index)),
        decreases c.items.len() - needle@.index,
    {
        let d = match at_digit(needle) {
            Some(d) => d,
            None => {
                return (value, overflow);
            },
        };
        let ghost before = prefix@ + c.items.subrange(c.index, needle@.index);
        let ghost ch = c.items[needle@.index];
        proof {
            lemma_digits_value_push(before, ch);
            assert(prefix@ + c.items.subrange(c.index, needle@.index + 1) =~= before.push(ch));
            assert(digits_value(before) * 10 + d >= digits_value(before)) by (nonlinear_arith)
                requires d >= 0, digits_value(before) >= 0;
        }
        if !overflow {
            match value.checked_mul(10) {
                Some(v) => match v.checked_add(d as i128) {
                    Some(v) => value = v,
                    None => overflow = true,
                },
                None => {
                    overflow = true;
                    proof {
                        assert(digits_value(before) * 10 + d >= digits_value(before) * 10) by (nonlinear_arith)
                            requires d >= 0;
                    }
                },
            }
        }
        proof {
            lemma_digits_end_bounds(c.items, needle@.index + 1);
        }
        needle.next();
    }
}

/// Reads a number: digits, then where a point follows, the fraction digits, which make it a
/// float. A number past the largest `i128` is an error.
pub fn try_tokenize_number(needle: &mut Needle<char>, meta: &TextMetaData) -> (r: Result<Token, Error>)
    requires
        old(needle)@.wf(),
    ensures
        final(needle)@.wf(),
        old(needle)@.index <= final(needle)@.index,
        ({
            let c = old(needle)@;
            let i = c.index;
            let k = digits_end(c.items, i);
            let whole = c.items.subrange(i, k);
            if !(k < c.items.len() && c.items[k] == '.') {
                &&& final(needle)@ == c.with_index(k)
                &&& lexed(r) == if k == i {
                    Err(LexFailure { loc: k, priority: 0, msg: "Expected a digit or a dot to start of a number"@ })
                } else if digits_value(whole) > i128::MAX {
                    Err(LexFailure { loc: k, priority: 2, msg: "Number too large"@ })
                } else {
                    Ok(TokenView {
                        start: meta.loc_at(c.with_index(k).floor()),
                        kind: TokenKindView::Literal(LiteralView::Integer(digits_value(whole) as i128)),
                    })
                }
            } else {
                let m = digits_end(c.items, k + 1);
                let all = whole + c.items.subrange(k + 1, m);
                &&& final(needle)@ == c.with_index(m)
                &&& lexed(r) == if m == k + 1 {
                    Err(LexFailure {
                        loc: m,
                        priority: 1,
                        msg: "Expected something after '.' to make a float or get a member of a structure"@,
                    })
                } else if digits_value(all) > i128::MAX {
                    Err(LexFailure { loc: m, priority: 2, msg: "Number too large"@ })
                } else {
                    Ok(TokenView {
                        start: meta.loc_at(c.with_index(m).floor()),
                        kind: TokenKindView::Literal(
                            LiteralView::Float(FloatLiteral { digits: digits_value(all) as i128, decimals: (m - k - 1) as usize }),
                        ),
                    })
                }
            }
        }),
{
    let ghost c = needle@;
    let start = needle.get_index();
    proof {
        assert(digits_value(Seq::<char>::empty()) == 0);
        lemma_digits_end_bounds(c.items, c.index);
    }
    let (value, overflow) = read_digits(needle, 0, false, Ghost(Seq::empty()));
    proof {
        assert(Seq::<char>::empty() + c.items.subrange(c.index, needle@.index) =~= c.items.subrange(c.index, needle@.index));
    }
    let ghost k = needle@.index;
    let has_point = needle.matches_slice(".");
    proof {
        reveal_strlit(".");
        if k < c.items.len() {
            assert(c.items.subrange(k, k + 1)[0] == c.items[k]);
            if c.items[k] == '.' {
                assert(c.items.subrange(k, k + 1) =~= "."@);
            }
        }
    }
    if !has_point {
        if start == needle.get_index() {
            return Err(Error::at_needle(needle, 0, "Expected a digit or a dot to start of a number"));
        }
        if overflow {
            return Err(Error::at_needle(needle, 2, "Number too large"));
        }
        let at = needle.get_prev_state_index();
        let loc = meta.index_to_loc(at);
        return Ok(Token::literal(loc, LiteralType::Integer(value)));
    }
    let point = needle.get_index();
    proof {
        lemma_digits_end_bounds(c.items, k + 1);
    }
    needle.next();
    let ghost whole = c.items.subrange(c.index, point as int);
    let (value, overflow) = read_digits(needle, value, overflow, Ghost(whole));
    let end = needle.get_index();
    if end == point + 1 {
        return Err(Error::at_needle(needle, 1, "Expected something after '.' to make a float or get a member of a structure"));
    }
    if overflow {
        return Err(Error::at_needle(needle, 2, "Number too large"));
    }
    let at = needle.get_prev_state_index();
    let loc = meta.index_to_loc(at);
    Ok(Token::literal(loc, LiteralType::Float(FloatLiteral { digits: value, decimals: end - point - 1 })))
}

/// Keeps the better of two errors: a later error wins ties.
pub open spec fn better_error(new: Error, old: Option<Error>) -> Error {
    match old {
        Some(p) => if new.priority >= p.priority {
            new
        } else {
            p
        },
        None => new,
    }
}

/// Hands on the value of `result`; on an error, keeps it in `error` unless that holds a
/// stronger one.
pub fn if_change_err<T>(result: Result<T, Error>, error: &mut Option<Error>) -> (r: Option<T>)
    ensures
        match result {
            Ok(v) => r == Some(v) && *final(error) == *old(error),
            Err(e) => r is None && *final(error) == Some(better_error(e, *old(error))),
        },
{
    match result {
        Ok(ok_result) => Some(ok_result),
        Err(result_err) => {
            match error {
                Some(error_) => {
                    if result_err.priority >= error_.priority {
                        *error = Some(result_err);
                    }
                },
                None => {
                    *error = Some(result_err);
                },
            }
            None
        },
    }
}

pub const OPERATOR_COUNT: usize = 6;

pub const KEYWORD_COUNT: usize = 13;

/// The operators, longest first where one begins another.
pub open spec fn operator_entry(i: int) -> (Seq<char>, OperatorType) {
    if i == 0 {
        ("=="@, OperatorType::Equals)
    } else if i == 1 {
        ("+"@, OperatorType::Add)
    } else if i == 2 {
        ("-"@, OperatorType::Subtract)
    } else if i == 3 {
        ("*"@, OperatorType::Multiply)
    } else if i == 4 {
        ("/"@, OperatorType::Divide)
    } else {
        ("%"@, OperatorType::Modulus)
    }
}

fn operator_token(i: usize) -> (r: (&'static str, OperatorType))
    requires
        i < OPERATOR_COUNT,
    ensures
        (r.0@, r.1) == operator_entry(i as int),
        r.0@.len() > 0,
{
    proof {
        reveal_strlit("==");
        reveal_strlit("+");
        reveal_strlit("-");
        reveal_strlit("*");
        reveal_strlit("/");
        reveal_strlit("%");
    }
    if i == 0 {
        ("==", OperatorType::Equals)
    } else if i == 1 {
        ("+", OperatorType::Add)
    } else if i == 2 {
        ("-", OperatorType::Subtract)
    } else if i == 3 {
        ("*", OperatorType::Multiply)
    } else if i == 4 {
        ("/", OperatorType::Divide)
    } else {
        ("%", OperatorType::Modulus)
    }
}

/// The keywords: their text, the keyword, and whether it is a word, which must not touch letters.
pub open spec fn keyword_entry(i: int) -> (Seq<char>, KeywordType, bool) {
    if i == 0 {
        ("if"@, KeywordType::If, true)
    } else if i == 1 {
        ("while"@, KeywordType::While, true)
    } else if i == 2 {
        ("loop"@, KeywordType::Loop, true)
    } else if i == 3 {
        ("as"@, KeywordType::As, true)
    } else if i == 4 {
        ("run"@, KeywordType::Run, true)
    } else if i == 5 {
        ("="@, KeywordType::Assign, false)
    } else if i == 6 {
        ("#("@, KeywordType::BlockOpen, false)
    } else if i == 7 {
        (";"@, KeywordType::BlockSeparator, false)
    } else if i == 8 {
        ("("@, KeywordType::BlockOpen, false)
    } else if i == 9 {
        (")"@, KeywordType::BlockClose, false)
    } else if i == 10 {
        (","@, KeywordType::ArraySeparator, false)
    } else if i == 11 {
        ("["@, KeywordType::ArrayOpen, false)
    } else {
        ("]"@, KeywordType::ArrayClose, false)
    }
}

fn keyword_token(i: usize) -> (r: (&'static str, KeywordType, bool))
    requires
        i < KEYWORD_COUNT,
    ensures
        (r.0@, r.1, r.2) == keyword_entry(i as int),
        0 < r.0@.len() <= 5,
{
    proof {
        reveal_strlit("if");
        reveal_strlit("while");
        reveal_strlit("loop");
        reveal_strlit("as");
        reveal_strlit("run");
        reveal_strlit("=");
        reveal_strlit("#(");
        reveal_strlit(";");
        reveal_strlit("(");
        reveal_strlit(")");
        reveal_strlit(",");
        reveal_strlit("[");
        reveal_strlit("]");
    }
    if i == 0 {
        ("if", KeywordType::If, true)
    } else if i == 1 {
        ("while", KeywordType::While, true)
    } else if i == 2 {
        ("loop", KeywordType::Loop, true)
    } else if i == 3 {
        ("as", KeywordType::As, true)
    } else if i == 4 {
        ("run", KeywordType::Run, true)
    } else if i == 5 {
        ("=", KeywordType::Assign, false)
    } else if i == 6 {
        ("#(", KeywordType::BlockOpen, false)
    } else if i == 7 {
        (";", KeywordType::BlockSeparator, false)
    } else if i == 8 {
        ("(", KeywordType::BlockOpen, false)
    } else if i == 9 {
        (")", KeywordType::BlockClose, false)
    } else if i == 10 {
        (",", KeywordType::ArraySeparator, false)
    } else if i == 11 {
        ("[", KeywordType::ArrayOpen, false)
    } else {
        ("]", KeywordType::ArrayClose, false)
    }
}

/// Whether the text from `i` on begins with `s`.
pub open spec fn text_at(chars: Seq<char>, i: int, s: Seq<char>) -> bool {
    i + s.len() <= chars.len() && chars.subrange(i, i + s.len()) == s
}

/// Whether a letter stands at `i`.
pub open spec fn alphabetic_at(chars: Seq<char>, i: int) -> bool {
    0 <= i < chars.len() && alphabetic(chars[i])
}

/// Whether keyword `k` can be read at `i`: its text is there and, for a word, no letter touches it.
pub open spec fn keyword_fits(chars: Seq<char>, i: int, k: int) -> bool {
    let (text, _, word) = keyword_entry(k);
    text_at(chars, i, text) && !(word && (alphabetic_at(chars, i - 1) || alphabetic_at(chars, i + text.len())))
}

/// The first operator from entry `k` on whose text is at `i`.
pub open spec fn first_operator(chars: Seq<char>, i: int, k: int) -> Option<int>
    decreases OPERATOR_COUNT - k,
{
    if k < 0 || k >= OPERATOR_COUNT {
        None
    } else if text_at(chars, i, operator_entry(k).0) {
        Some(k)
    } else {
        first_operator(chars, i, k + 1)
    }
}

/// The first keyword from entry `k` on that can be read at `i`.
pub open spec fn first_keyword(chars: Seq<char>, i: int, k: int) -> Option<int>
    decreases KEYWORD_COUNT - k,
{
    if k < 0 || k >= KEYWORD_COUNT {
        None
    } else if keyword_fits(chars, i, k) {
        Some(k)
    } else {
        first_keyword(chars, i, k + 1)
    }
}

fn letter_at(needle: &Needle<char>, pos: usize) -> (r: bool)
    requires
        needle@.wf(),
    ensures
        r == alphabetic_at(needle@.items, pos as int),
{
    match needle.get(pos) {
        Some(c) => is_alphabetic(*c),
        None => false,
    }
}

/// The operator under the cursor, if any: its entry.
fn match_operator(needle: &Needle<char>) -> (r: Option<usize>)
    requires
        needle@.wf(),
    ensures
        match r {
            Some(k) => k < OPERATOR_COUNT && first_operator(needle@.items, needle@.index, 0) == Some(k as int),
            None => first_operator(needle@.items, needle@.index, 0) is None,
        },
{
    let mut k: usize = 0;
    while k < OPERATOR_COUNT
        invariant
            needle@.wf(),
            k <= OPERATOR_COUNT,
            first_operator(needle@.items, needle@.index, 0) == first_operator(needle@.items, needle@.index, k as int),
        decreases OPERATOR_COUNT - k,
    {
        let (text, _) = operator_token(k);
        if needle.matches_slice(text) {
            return Some(k);
        }
        k = k + 1;
    }
    None
}

/// The keyword under the cursor, if any: its entry.
fn match_keyword(needle: &Needle<char>) -> (r: Option<usize>)
    requires
        needle@.wf(),
    ensures
        match r {
            Some(k) => k < KEYWORD_COUNT && first_keyword(needle@.items, needle@.index, 0) == Some(k as int),
            None => first_keyword(needle@.items, needle@.index, 0) is None,
        },
{
    let mut k: usize = 0;
    while k < KEYWORD_COUNT
        invariant
            needle@.wf(),
            k <= KEYWORD_COUNT,
            first_keyword(needle@.items, needle@.index, 0) == first_keyword(needle@.items, needle@.index, k as int),
        decreases KEYWORD_COUNT - k,
    {
        let (text, _, word) = keyword_token(k);
        if needle.matches_slice(text) {
            if !word {
                return Some(k);
            }
            let n = text.unicode_len();
            let at = needle.get_index();
            let before = at > 0 && letter_at(needle, at - 1);
            if !before && !letter_at(needle, at + n) {
                return Some(k);
            }
        }
        k = k + 1;
    }
    None
}

proof fn lemma_string_body_bounds(chars: Seq<char>, j: int, acc: Seq<char>)
    requires
        0 <= j <= chars.len(),
    ensures
        ({
            let (res, k) = string_body(chars, j, acc);
            &&& j <= k <= chars.len()
            &&& res is Ok ==> j < k
            &&& res matches Err(f) ==> j <= f.loc <= chars.len()
        }),
    decreases chars.len() - j,
{
    if 0 <= j < chars.len() {
        if chars[j] == '\\' {
            if j + 1 < chars.len() && escaped(chars[j + 1]) is Some {
                lemma_string_body_bounds(chars, j + 2, acc.push(escaped(chars[j + 1])->0));
            }
        } else if chars[j] != '"' && chars[j] != '\n' {
            lemma_string_body_bounds(chars, j + 1, acc.push(chars[j]));
        }
    }
}

/// The first index from `i` on whose character is no whitespace.
pub open spec fn skip_whitespace(chars: Seq<char>, i: int) -> int
    decreases chars.len() - i,
{
    if 0 <= i < chars.len() && whitespace(chars[i]) {
        skip_whitespace(chars, i + 1)
    } else {
        i
    }
}

/// What reading a string at `i` gives, with the checkpoint at `i`.
pub open spec fn string_at(chars: Seq<char>, i: int, meta: TextMetaData) -> (Result<TokenView, LexFailure>, int) {
    if chars[i] == '"' {
        let (res, k) = string_body(chars, i + 1, Seq::empty());
        (
            match res {
                Ok(text) => Ok(TokenView { start: meta.loc_at(i), kind: TokenKindView::Literal(LiteralView::Str(text)) }),
                Err(f) => Err(f),
            },
            k,
        )
    } else {
        (Err(LexFailure { loc: i + 1, priority: 0, msg: "Unexpected start of string, expected '\"'"@ }), i + 1)
    }
}

/// What reading a word at `i` gives, with the checkpoint at `i`.
pub open spec fn word_at(chars: Seq<char>, i: int, meta: TextMetaData) -> (Result<TokenView, LexFailure>, int) {
    let k = word_end(chars, i);
    if k > i {
        (Ok(TokenView { start: meta.loc_at(i), kind: TokenKindView::Identifier(chars.subrange(i, k)) }), k)
    } else {
        (Err(LexFailure { loc: i, priority: 0, msg: "No word found"@ }), k)
    }
}

/// What reading a number at `i` gives, with the checkpoint at `i`.
pub open spec fn number_at(chars: Seq<char>, i: int, meta: TextMetaData) -> (Result<TokenView, LexFailure>, int) {
    let k = digits_end(chars, i);
    let whole = chars.subrange(i, k);
    if !(k < chars.len() && chars[k] == '.') {
        (
            if k == i {
                Err(LexFailure { loc: k, priority: 0, msg: "Expected a digit or a dot to start of a number"@ })
            } else if digits_value(whole) > i128::MAX {
                Err(LexFailure { loc: k, priority: 2, msg: "Number too large"@ })
            } else {
                Ok(TokenView { start: meta.loc_at(i), kind: TokenKindView::Literal(LiteralView::Integer(digits_value(whole) as i128)) })
            },
            k,
        )
    } else {
        let m = digits_end(chars, k + 1);
        let all = whole + chars.subrange(k + 1, m);
        (
            if m == k + 1 {
                Err(
                    LexFailure {
                        loc: m,
                        priority: 1,
                        msg: "Expected something after '.' to make a float or get a member of a structure"@,
                    },
                )
            } else if digits_value(all) > i128::MAX {
                Err(LexFailure { loc: m, priority: 2, msg: "Number too large"@ })
            } else {
                Ok(
                    TokenView {
                        start: meta.loc_at(i),
                        kind: TokenKindView::Literal(
                            LiteralView::Float(FloatLiteral { digits: digits_value(all) as i128, decimals: (m - k - 1) as usize }),
                        ),
                    },
                )
            },
            m,
        )
    }
}

/// Keeps the better of two failures: the later one wins ties.
pub open spec fn better_failure(new: LexFailure, old: LexFailure) -> LexFailure {
    if new.priority >= old.priority {
        new
    } else {
        old
    }
}

/// A string, word or number read at `i`; where all three fail, the strongest error, and
/// reading goes on just past it; an error of priority zero becomes "Unexpected token" and one
/// character is skipped.
pub open spec fn fallback_step(chars: Seq<char>, i: int, meta: TextMetaData) -> (Result<TokenView, LexFailure>, int) {
    let (rs, ks) = string_at(chars, i, meta);
    let (rw, kw) = word_at(chars, i, meta);
    let (rn, kn) = number_at(chars, i, meta);
    if rs is Ok {
        (rs, ks)
    } else if rw is Ok {
        (rw, kw)
    } else if rn is Ok {
        (rn, kn)
    } else {
        let e = better_failure(rn->Err_0, better_failure(rw->Err_0, rs->Err_0));
        if e.priority > 0 {
            (Err(e), if e.loc < chars.len() {
                e.loc + 1
            } else {
                e.loc
            })
        } else {
            (Err(LexFailure { loc: i, priority: 1, msg: "Unexpected token"@ }), i + 1)
        }
    }
}

/// One token, or one error, read at `i`, where the text holds no whitespace; and the index after.
/// Operators come first, then keywords, then strings, words and numbers. Where all fail, the
/// strongest error is kept and reading goes on just past it; an error of priority zero becomes
/// "Unexpected token" and one character is skipped.
pub open spec fn lex_step(chars: Seq<char>, i: int, meta: TextMetaData) -> (Result<TokenView, LexFailure>, int) {
    match first_operator(chars, i, 0) {
        Some(k) => (Ok(TokenView { start: meta.loc_at(i), kind: TokenKindView::Operator(operator_entry(k).1) }), i + operator_entry(k).0.len()),
        None => match first_keyword(chars, i, 0) {
            Some(k) => (Ok(TokenView { start: meta.loc_at(i), kind: TokenKindView::Keyword(keyword_entry(k).1) }), i + keyword_entry(k).0.len()),
            None => fallback_step(chars, i, meta),
        },
    }
}

/// The tokens and errors read from `i` to the end, after `tokens` and `errors` read so far.
pub open spec fn lex_from(
    chars: Seq<char>,
    i: int,
    meta: TextMetaData,
    tokens: Seq<TokenView>,
    errors: Seq<LexFailure>,
) -> (Seq<TokenView>, Seq<LexFailure>)
    decreases chars.len() - i,
{
    let j = skip_whitespace(chars, i);
    if !(0 <= i <= j < chars.len()) {
        (tokens, errors)
    } else {
        let (r, k) = lex_step(chars, j, meta);
        if k <= j || k > chars.len() {
            (tokens, errors)
        } else {
            match r {
                Ok(t) => lex_from(chars, k, meta, tokens.push(t), errors),
                Err(e) => lex_from(chars, k, meta, tokens, errors.push(e)),
            }
        }
    }
}

pub open spec fn view_tokens(s: Seq<Token>) -> Seq<TokenView> {
    s.map_values(|t: Token| t@)
}

pub open spec fn view_failures(s: Seq<Error>) -> Seq<LexFailure> {
    s.map_values(|e: Error| e@)
}

proof fn lemma_first_operator(chars: Seq<char>, i: int, k: int)
    ensures
        first_operator(chars, i, k) matches Some(o) ==> 0 <= o < OPERATOR_COUNT && text_at(chars, i, operator_entry(o).0),
    decreases OPERATOR_COUNT - k,
{
    if 0 <= k < OPERATOR_COUNT && !text_at(chars, i, operator_entry(k).0) {
        lemma_first_operator(chars, i, k + 1);
    }
}

proof fn lemma_first_keyword(chars: Seq<char>, i: int, k: int)
    ensures
        first_keyword(chars, i, k) matches Some(o) ==> 0 <= o < KEYWORD_COUNT && keyword_fits(chars, i, o),
    decreases KEYWORD_COUNT - k,
{
    if 0 <= k < KEYWORD_COUNT && !keyword_fits(chars, i, k) {
        lemma_first_keyword(chars, i, k + 1);
    }
}

/// Each step reads at least one character and stays within the text.
proof fn lemma_lex_step_progress(chars: Seq<char>, j: int, meta: TextMetaData)
    requires
        0 <= j < chars.len(),
    ensures
        j < lex_step(chars, j, meta).1 <= chars.len(),
{
    lemma_first_operator(chars, j, 0);
    lemma_first_keyword(chars, j, 0);
    reveal_strlit("==");
    reveal_strlit("+");
    reveal_strlit("-");
    reveal_strlit("*");
    reveal_strlit("/");
    reveal_strlit("%");
    reveal_strlit("if");
    reveal_strlit("while");
    reveal_strlit("loop");
    reveal_strlit("as");
    reveal_strlit("run");
    reveal_strlit("=");
    reveal_strlit("#(");
    reveal_strlit(";");
    reveal_strlit("(");
    reveal_strlit(")");
    reveal_strlit(",");
    reveal_strlit("[");
    reveal_strlit("]");
    lemma_string_body_bounds(chars, j + 1, Seq::empty());
    lemma_digits_end_bounds(chars, j);
    lemma_word_end_bounds(chars, j);
    let k = digits_end(chars, j);
    if k < chars.len() {
        lemma_digits_end_bounds(chars, k + 1);
    }
}

/// Whether whitespace is under the cursor.
fn at_whitespace(needle: &Needle<char>) -> (r: bool)
    requires
        needle@.wf(),
    ensures
        !r ==> skip_whitespace(needle@.items, needle@.index) == needle@.index,
        r ==> needle@.index < needle@.items.len() && skip_whitespace(needle@.items, needle@.index)
            == skip_whitespace(needle@.items, needle@.index + 1),
{
    match needle.peek() {
        Some(ch) => is_whitespace(*ch),
        None => false,
    }
}

proof fn lemma_skip_whitespace_bounds(chars: Seq<char>, i: int)
    requires
        0 <= i <= chars.len(),
    ensures
        i <= skip_whitespace(chars, i) <= chars.len(),
    decreases chars.len() - i,
{
    if i < chars.len() && whitespace(chars[i]) {
        lemma_skip_whitespace_bounds(chars, i + 1);
    }
}

/// Reads one token or error where no whitespace stands, as `lex_step` says.
fn lex_one(needle: &mut Needle<char>, meta: &TextMetaData) -> (r: Result<Token, Error>)
    requires
        old(needle)@.wf(),
        old(needle)@.stack == Seq::<int>::empty(),
        old(needle)@.index < old(needle)@.items.len(),
    ensures
        final(needle)@.wf(),
        final(needle)@ == old(needle)@.with_index(lex_step(old(needle)@.items, old(needle)@.index, *meta).1),
        lexed(r) == lex_step(old(needle)@.items, old(needle)@.index, *meta).0,
{
    let j = needle.get_index();
    match match_operator(needle) {
        Some(k) => {
            let (op_text, op) = operator_token(k);
            proof {
                lemma_first_operator(needle@.items, j as int, 0);
            }
            let token = Token::operator(meta.index_to_loc(j), op);
            needle.skip(op_text.unicode_len());
            return Ok(token);
        },
        None => {},
    }
    match match_keyword(needle) {
        Some(k) => {
            let (kw_text, kw, _) = keyword_token(k);
            proof {
                lemma_first_keyword(needle@.items, j as int, 0);
            }
            let token = Token::keyword(meta.index_to_loc(j), kw);
            needle.skip(kw_text.unicode_len());
            return Ok(token);
        },
        None => {},
    }
    lex_fallback(needle, meta)
}

/// Reads a string, word or number, as `fallback_step` says.
fn lex_fallback(needle: &mut Needle<char>, meta: &TextMetaData) -> (r: Result<Token, Error>)
    requires
        old(needle)@.wf(),
        old(needle)@.stack == Seq::<int>::empty(),
        old(needle)@.index < old(needle)@.items.len(),
    ensures
        final(needle)@.wf(),
        final(needle)@ == old(needle)@.with_index(fallback_step(old(needle)@.items, old(needle)@.index, *meta).1),
        lexed(r) == fallback_step(old(needle)@.items, old(needle)@.index, *meta).0,
{
    let ghost c = needle@;
    let ghost j = c.index;
    proof {
        lemma_string_body_bounds(c.items, j + 1, Seq::empty());
        lemma_digits_end_bounds(c.items, j);
        lemma_word_end_bounds(c.items, j);
        let k = digits_end(c.items, j);
        if k < c.items.len() {
            lemma_digits_end_bounds(c.items, k + 1);
        }
        assert(c.stack.push(j).last() == j);
        assert(c.stack.push(j).drop_last() =~= c.stack);
    }
    let mut current_error: Option<Error> = None;
    needle.push_state();
    match if_change_err(try_tokenize_string(needle, meta), &mut current_error) {
        Some(token) => {
            needle.pop_state_no_revert();
            return Ok(token);
        },
        None => {},
    }
    needle.pop_state();

    needle.push_state();
    match if_change_err(try_tokenize_word(needle, meta), &mut current_error) {
        Some(token) => {
            needle.pop_state_no_revert();
            return Ok(token);
        },
        None => {},
    }
    needle.pop_state();

    needle.push_state();
    match if_change_err(try_tokenize_number(needle, meta), &mut current_error) {
        Some(token) => {
            needle.pop_state_no_revert();
            return Ok(token);
        },
        None => {},
    }
    needle.pop_state();

    let error = match current_error {
        Some(error) => error,
        None => Error::at_needle(needle, 0, "Unexpected token"),
    };
    if error.priority > 0 {
        needle.set_index(error.loc);
        needle.next();
        Err(error)
    } else {
        let unexpected = Error::at_needle(needle, 1, "Unexpected token");
        needle.next();
        Err(unexpected)
    }
}

/// Splits a text into tokens and lexical errors, and gives its line layout. Whitespace
/// separates tokens; see `lex_step` for how each token or error is read.
pub fn tokenize(chars: &str) -> (r: (Vec<Token>, Vec<Error>, TextMetaData))
    ensures
        r.2.length == chars@.len(),
        r.2.newline_locs@ == newline_offsets(chars@),
        r.2.wf(),
        (view_tokens(r.0@), view_failures(r.1@)) == lex_from(chars@, 0, r.2, Seq::empty(), Seq::empty()),
{
    let mut needle = Needle::from_str(chars, 0);
    let meta = needle.get_meta_data();
    let mut tokens: Vec<Token> = Vec::new();
    let mut errors: Vec<Error> = Vec::new();
    let ghost text = chars@;
    let ghost goal = lex_from(text, 0, meta, Seq::empty(), Seq::empty());
    proof {
        assert(view_tokens(tokens@) =~= Seq::<TokenView>::empty());
        assert(view_failures(errors@) =~= Seq::<LexFailure>::empty());
    }
    loop
        invariant
            needle@.wf(),
            needle@.items == text,
            text == chars@,
            needle@.stack == Seq::<int>::empty(),
            meta.length == text.len(),
            meta.newline_locs@ == newline_offsets(text),
            meta.wf(),
            goal == lex_from(text, 0, meta, Seq::empty(), Seq::empty()),
            lex_from(text, needle@.index, meta, view_tokens(tokens@), view_failures(errors@)) == goal,
        decreases text.len() - needle@.index,
    {
        let ghost i = needle@.index;
        let ghost toks0 = view_tokens(tokens@);
        let ghost errs0 = view_failures(errors@);
        proof {
            lemma_skip_whitespace_bounds(text, i);
        }
        while at_whitespace(&needle)
            invariant
                needle@.wf(),
                needle@.items == text,
                needle@.stack == Seq::<int>::empty(),
                i <= needle@.index,
                skip_whitespace(text, needle@.index) == skip_whitespace(text, i),
            decreases text.len() - needle@.index,
        {
            needle.next();
        }
        let j = needle.get_index();
        if j >= needle.len() {
            return (tokens, errors, meta);
        }
        let ghost step = lex_step(text, j as int, meta);
        proof {
            lemma_lex_step_progress(text, j as int, meta);
            assert(lex_from(text, i, meta, toks0, errs0) == match step.0 {
                Ok(t) => lex_from(text, step.1, meta, toks0.push(t), errs0),
                Err(e) => lex_from(text, step.1, meta, toks0, errs0.push(e)),
            });
        }
        let r = lex_one(&mut needle, &meta);
        match r {
            Ok(token) => {
                proof {
                    assert(view_tokens(tokens@.push(token)) =~= toks0.push(token@));
                }
                tokens.push(token);
            },
            Err(error) => {
                proof {
                    assert(view_failures(errors@.push(error)) =~= errs0.push(error@));
                }
                errors.push(error);
            },
        }
    }
}

} // verus!
