use vstd::prelude::*;
use crate::errors::LexicalError;
use crate::text::{char_from_u32, chars_of, string_of};
use crate::tokens::{Lexeme, LexemeV, Span, Token};

verus! {

pub open spec fn is_space(c: char) -> bool {
    c == ' ' || c == '\t' || c == '\r' || c == '\n' || c == '\x0c'
}

pub open spec fn is_letter(c: char) -> bool {
    (97 <= c as u32 && c as u32 <= 122) || (65 <= c as u32 && c as u32 <= 90)
}

pub open spec fn is_digit(c: char) -> bool {
    48 <= c as u32 && c as u32 <= 57
}

pub open spec fn is_ident_char(c: char) -> bool {
    is_letter(c) || is_digit(c) || c == '_'
}

/// Number of bytes in the UTF-8 encoding of `c`.
pub open spec fn utf8_width(c: char) -> nat {
    if (c as u32) < 0x80 {
        1
    } else if (c as u32) < 0x800 {
        2
    } else if (c as u32) < 0x10000 {
        3
    } else {
        4
    }
}

/// Byte offset of the `k`-th character of `s`.
pub open spec fn byte_pos(s: Seq<char>, k: int) -> nat
    decreases k,
{
    if k <= 0 || k > s.len() {
        0
    } else {
        byte_pos(s, k - 1) + utf8_width(s[k - 1])
    }
}

/// Index of the first character at or after `i` that is neither whitespace
/// nor part of a `//` comment; `in_comment` says that `i` lies inside one.
pub open spec fn skip_trivia(s: Seq<char>, i: int, in_comment: bool) -> int
    decreases s.len() - i,
{
    if i < 0 || i >= s.len() {
        i
    } else if in_comment {
        skip_trivia(s, i + 1, s[i] != '\n' && s[i] != '\r')
    } else if is_space(s[i]) {
        skip_trivia(s, i + 1, false)
    } else if s[i] == '/' && i + 1 < s.len() && s[i + 1] == '/' {
        skip_trivia(s, i + 2, true)
    } else {
        i
    }
}

/// End of the run of identifier characters that starts at `i`.
pub open spec fn ident_end(s: Seq<char>, i: int) -> int
    decreases s.len() - i,
{
    if 0 <= i < s.len() && is_ident_char(s[i]) {
        ident_end(s, i + 1)
    } else {
        i
    }
}

/// End of the run of decimal digits that starts at `i`.
pub open spec fn digits_end(s: Seq<char>, i: int) -> int
    decreases s.len() - i,
{
    if 0 <= i < s.len() && is_digit(s[i]) {
        digits_end(s, i + 1)
    } else {
        i
    }
}

/// End of a numeric literal starting with a digit at `i`: digits, then
/// optionally a point followed by at least one digit.
pub open spec fn number_end(s: Seq<char>, i: int) -> int {
    let j = digits_end(s, i);
    if j + 1 < s.len() && s[j] == '.' && is_digit(s[j + 1]) {
        digits_end(s, j + 1)
    } else {
        j
    }
}

/// The keyword whose text is `w`, if any.
pub open spec fn keyword(w: Seq<char>) -> Option<Token> {
    if w == seq!['s', 't', 'o', 'r', 'e'] {
        Some(Token::Store)
    } else if w == seq!['q', 'u', 'e', 'r', 'y'] {
        Some(Token::Query)
    } else if w == seq!['m', 'o', 'd', 'i', 'f', 'y'] {
        Some(Token::Modify)
    } else if w == seq!['d', 'e', 'l', 'e', 't', 'e'] {
        Some(Token::Delete)
    } else if w == seq!['t', 'r', 'u', 'e'] {
        Some(Token::True)
    } else if w == seq!['f', 'a', 'l', 's', 'e'] {
        Some(Token::False)
    } else if w == seq!['I', 'n', 't', '3', '2'] {
        Some(Token::Int32)
    } else if w == seq!['I', 'n', 't', '6', '4'] {
        Some(Token::Int64)
    } else if w == seq!['U', 'i', 'n', 't', '3', '2'] {
        Some(Token::Uint32)
    } else if w == seq!['U', 'i', 'n', 't', '6', '4'] {
        Some(Token::Uint64)
    } else if w == seq!['B', 'o', 'o', 'l'] {
        Some(Token::Bool)
    } else if w == seq!['S', 't', 'r', 'i', 'n', 'g'] {
        Some(Token::String)
    } else {
        None
    }
}

/// The value of a hexadecimal digit.
pub open spec fn hex_value(c: char) -> Option<u32> {
    let v = c as u32;
    if 48 <= v <= 57 {
        Some((v - 48) as u32)
    } else if 97 <= v <= 102 {
        Some((v - 87) as u32)
    } else if 65 <= v <= 70 {
        Some((v - 55) as u32)
    } else {
        None
    }
}

/// The value of the four hexadecimal digits at `i`, if there are four.
pub open spec fn hex4(s: Seq<char>, i: int) -> Option<u32> {
    if 0 <= i && i + 4 <= s.len() && hex_value(s[i]) is Some && hex_value(s[i + 1]) is Some
        && hex_value(s[i + 2]) is Some && hex_value(s[i + 3]) is Some {
        Some(
            (hex_value(s[i])->0 * 4096 + hex_value(s[i + 1])->0 * 256 + hex_value(s[i + 2])->0 * 16
                + hex_value(s[i + 3])->0) as u32,
        )
    } else {
        None
    }
}

/// The character that a one-letter escape `\e` stands for.
pub open spec fn escape_char(e: char) -> Option<char> {
    if e == '"' {
        Some('"')
    } else if e == '\\' {
        Some('\\')
    } else if e == 'b' {
        Some('\x08')
    } else if e == 'n' {
        Some('\n')
    } else if e == 'f' {
        Some('\x0c')
    } else if e == 'r' {
        Some('\r')
    } else if e == 't' {
        Some('\t')
    } else {
        None
    }
}

/// Scans the body of a string literal from `i` (just after the opening
/// quote), with `acc` decoded so far: the index after the closing quote and
/// the decoded text, or `None` if the literal is unterminated or malformed.
pub open spec fn scan_string(s: Seq<char>, i: int, acc: Seq<char>) -> Option<(int, Seq<char>)>
    decreases s.len() - i,
{
    if i < 0 || i >= s.len() {
        None
    } else if s[i] == '"' {
        Some((i + 1, acc))
    } else if s[i] == '\\' {
        if i + 1 >= s.len() {
            None
        } else if s[i + 1] == 'u' {
            match hex4(s, i + 2) {
                Some(v) => if vstd::utf8::is_scalar(v) {
                    scan_string(s, i + 6, acc.push(v as char))
                } else {
                    None
                },
                None => None,
            }
        } else {
            match escape_char(s[i + 1]) {
                Some(c) => scan_string(s, i + 2, acc.push(c)),
                None => None,
            }
        }
    } else {
        scan_string(s, i + 1, acc.push(s[i]))
    }
}

/// The punctuation or operator token that starts at `i`, with its length.
pub open spec fn symbol_at(s: Seq<char>, i: int) -> Option<(Token, int)> {
    let c = s[i];
    let two = i + 1 < s.len();
    if c == '<' && two && s[i + 1] == '=' {
        Some((Token::LessThanEq, 2))
    } else if c == '>' && two && s[i + 1] == '=' {
        Some((Token::GreaterThanEq, 2))
    } else if c == '&' && two && s[i + 1] == '&' {
        Some((Token::And, 2))
    } else if c == '|' && two && s[i + 1] == '|' {
        Some((Token::Or, 2))
    } else if c == ',' {
        Some((Token::Comma, 1))
    } else if c == '[' {
        Some((Token::LeftSquareBracket, 1))
    } else if c == ']' {
        Some((Token::RightSquareBracket, 1))
    } else if c == '{' {
        Some((Token::LeftCurlyBrace, 1))
    } else if c == '}' {
        Some((Token::RightCurlyBrace, 1))
    } else if c == '(' {
        Some((Token::LeftParen, 1))
    } else if c == ')' {
        Some((Token::RightParen, 1))
    } else if c == '.' {
        Some((Token::Dot, 1))
    } else if c == ';' {
        Some((Token::SemiColon, 1))
    } else if c == ':' {
        Some((Token::Colon, 1))
    } else if c == '<' {
        Some((Token::LessThan, 1))
    } else if c == '>' {
        Some((Token::GreaterThan, 1))
    } else if c == '=' {
        Some((Token::Eq, 1))
    } else if c == '!' {
        Some((Token::Not, 1))
    } else if c == '+' {
        Some((Token::Plus, 1))
    } else if c == '-' {
        Some((Token::Minus, 1))
    } else if c == '*' {
        Some((Token::Times, 1))
    } else if c == '/' {
        Some((Token::Divide, 1))
    } else {
        None
    }
}

/// The token that starts at `i` (not whitespace, not a comment), its end,
/// and its text; `None` when no rule matches there.
pub open spec fn scan_token(s: Seq<char>, i: int) -> Option<(Token, int, Seq<char>)> {
    let c = s[i];
    if is_letter(c) {
        let j = ident_end(s, i);
        let w = s.subrange(i, j);
        match keyword(w) {
            Some(k) => Some((k, j, w)),
            None => Some((Token::Identifier, j, w)),
        }
    } else if is_digit(c) {
        let j = number_end(s, i);
        Some((Token::Number, j, s.subrange(i, j)))
    } else if c == '"' {
        match scan_string(s, i + 1, Seq::empty()) {
            Some(r) => Some((Token::StringLiteral, r.0, r.1)),
            None => None,
        }
    } else {
        match symbol_at(s, i) {
            Some(r) => Some((r.0, i + r.1, s.subrange(i, i + r.1))),
            None => None,
        }
    }
}

/// The tokens of `s` from character index `i` on, in order, up to the end
/// or to the first place where no rule matches; in the latter case, that
/// place's character index.
pub open spec fn lex_from(s: Seq<char>, i: int) -> (Seq<LexemeV>, Option<int>)
    decreases s.len() - i,
{
    let k = skip_trivia(s, i, false);
    if !(0 <= i <= k < s.len()) {
        (Seq::empty(), None)
    } else {
        match scan_token(s, k) {
            None => (Seq::empty(), Some(k)),
            Some(t) => if k < t.1 <= s.len() {
                let rest = lex_from(s, t.1);
                let lx = LexemeV {
                    token: t.0,
                    text: t.2,
                    span: Span { start: byte_pos(s, k) as usize, end: byte_pos(s, t.1) as usize },
                };
                (seq![lx] + rest.0, rest.1)
            } else {
                (Seq::empty(), None)
            },
        }
    }
}

fn is_space_exec(c: char) -> (r: bool)
    ensures
        r == is_space(c),
{
    c == ' ' || c == '\t' || c == '\r' || c == '\n' || c == '\x0c'
}

fn is_letter_exec(c: char) -> (r: bool)
    ensures
        r == is_letter(c),
{
    let v = c as u32;
    (97 <= v && v <= 122) || (65 <= v && v <= 90)
}

fn is_digit_exec(c: char) -> (r: bool)
    ensures
        r == is_digit(c),
{
    let v = c as u32;
    48 <= v && v <= 57
}

fn utf8_width_exec(c: char) -> (r: usize)
    ensures
        r == utf8_width(c),
{
    let v = c as u32;
    if v < 0x80 {
        1
    } else if v < 0x800 {
        2
    } else if v < 0x10000 {
        3
    } else {
        4
    }
}

fn skip_trivia_exec(s: &Vec<char>, i: usize) -> (k: usize)
    requires
        i <= s@.len(),
    ensures
        k == skip_trivia(s@, i as int, false),
        i <= k <= s@.len(),
{
    let mut k = i;
    let mut in_comment = false;
    let mut stop = false;
    while !stop && k < s.len()
        invariant
            i <= k <= s@.len(),
            skip_trivia(s@, i as int, false) == skip_trivia(s@, k as int, in_comment),
            stop ==> !in_comment && skip_trivia(s@, k as int, in_comment) == k,
        decreases s@.len() - k + (if stop { 0int } else { 1int }),
    {
        let c = s[k];
        if in_comment {
            in_comment = c != '\n' && c != '\r';
            k += 1;
        } else if is_space_exec(c) {
            k += 1;
        } else if c == '/' && s.len() - k > 1 && s[k + 1] == '/' {
            in_comment = true;
            k += 2;
        } else {
            stop = true;
        }
    }
    k
}

fn ident_end_exec(s: &Vec<char>, i: usize) -> (j: usize)
    requires
        i <= s@.len(),
    ensures
        j == ident_end(s@, i as int),
        i <= j <= s@.len(),
{
    let mut j = i;
    while j < s.len() && (is_letter_exec(s[j]) || is_digit_exec(s[j]) || s[j] == '_')
        invariant
            i <= j <= s@.len(),
            ident_end(s@, i as int) == ident_end(s@, j as int),
        decreases s@.len() - j,
    {
        j += 1;
    }
    j
}

fn digits_end_exec(s: &Vec<char>, i: usize) -> (j: usize)
    requires
        i <= s@.len(),
    ensures
        j == digits_end(s@, i as int),
        i <= j <= s@.len(),
{
    let mut j = i;
    while j < s.len() && is_digit_exec(s[j])
        invariant
            i <= j <= s@.len(),
            digits_end(s@, i as int) == digits_end(s@, j as int),
        decreases s@.len() - j,
    {
        j += 1;
    }
    j
}

fn number_end_exec(s: &Vec<char>, i: usize) -> (j: usize)
    requires
        i < s@.len(),
        is_digit(s@[i as int]),
    ensures
        j == number_end(s@, i as int),
        i < j <= s@.len(),
{
    let n = s.len();
    let j = digits_end_exec(s, i + 1);
    if j < s.len() && s.len() - j > 1 && s[j] == '.' && is_digit_exec(s[j + 1]) {
        digits_end_exec(s, j + 1)
    } else {
        j
    }
}

/// Whether the characters of `s` in `[a, b)` spell `w`.
fn word_is(s: &Vec<char>, a: usize, b: usize, w: &[char]) -> (r: bool)
    requires
        a <= b <= s@.len(),
    ensures
        r == (s@.subrange(a as int, b as int) == w@),
{
    if b - a != w.len() {
        return false;
    }
    let mut k: usize = 0;
    while k < w.len()
        invariant
            a <= b <= s@.len(),
            b - a == w@.len(),
            k <= w@.len(),
            forall|m: int| 0 <= m < k ==> s@[a + m] == w@[m],
        decreases w@.len() - k,
    {
        if s[a + k] != w[k] {
            assert(s@.subrange(a as int, b as int)[k as int] != w@[k as int]);
            return false;
        }
        k += 1;
    }
    assert(s@.subrange(a as int, b as int) =~= w@);
    true
}

fn keyword_exec(s: &Vec<char>, a: usize, b: usize) -> (r: Option<Token>)
    requires
        a <= b <= s@.len(),
    ensures
        r == keyword(s@.subrange(a as int, b as int)),
{
    let w_store = ['s', 't', 'o', 'r', 'e'];
    assert(w_store@ =~= seq!['s', 't', 'o', 'r', 'e']);
    if word_is(s, a, b, &w_store) {
        return Some(Token::Store);
    }
    let w_query = ['q', 'u', 'e', 'r', 'y'];
    assert(w_query@ =~= seq!['q', 'u', 'e', 'r', 'y']);
    if word_is(s, a, b, &w_query) {
        return Some(Token::Query);
    }
    let w_modify = ['m', 'o', 'd', 'i', 'f', 'y'];
    assert(w_modify@ =~= seq!['m', 'o', 'd', 'i', 'f', 'y']);
    if word_is(s, a, b, &w_modify) {
        return Some(Token::Modify);
    }
    let w_delete = ['d', 'e', 'l', 'e', 't', 'e'];
    assert(w_delete@ =~= seq!['d', 'e', 'l', 'e', 't', 'e']);
    if word_is(s, a, b, &w_delete) {
        return Some(Token::Delete);
    }
    let w_true = ['t', 'r', 'u', 'e'];
    assert(w_true@ =~= seq!['t', 'r', 'u', 'e']);
    if word_is(s, a, b, &w_true) {
        return Some(Token::True);
    }
    let w_false = ['f', 'a', 'l', 's', 'e'];
    assert(w_false@ =~= seq!['f', 'a', 'l', 's', 'e']);
    if word_is(s, a, b, &w_false) {
        return Some(Token::False);
    }
    let w_int32 = ['I', 'n', 't', '3', '2'];
    assert(w_int32@ =~= seq!['I', 'n', 't', '3', '2']);
    if word_is(s, a, b, &w_int32) {
        return Some(Token::Int32);
    }
    let w_int64 = ['I', 'n', 't', '6', '4'];
    assert(w_int64@ =~= seq!['I', 'n', 't', '6', '4']);
    if word_is(s, a, b, &w_int64) {
        return Some(Token::Int64);
    }
    let w_uint32 = ['U', 'i', 'n', 't', '3', '2'];
    assert(w_uint32@ =~= seq!['U', 'i', 'n', 't', '3', '2']);
    if word_is(s, a, b, &w_uint32) {
        return Some(Token::Uint32);
    }
    let w_uint64 = ['U', 'i', 'n', 't', '6', '4'];
    assert(w_uint64@ =~= seq!['U', 'i', 'n', 't', '6', '4']);
    if word_is(s, a, b, &w_uint64) {
        return Some(Token::Uint64);
    }
    let w_bool = ['B', 'o', 'o', 'l'];
    assert(w_bool@ =~= seq!['B', 'o', 'o', 'l']);
    if word_is(s, a, b, &w_bool) {
        return Some(Token::Bool);
    }
    let w_string = ['S', 't', 'r', 'i', 'n', 'g'];
    assert(w_string@ =~= seq!['S', 't', 'r', 'i', 'n', 'g']);
    if word_is(s, a, b, &w_string) {
        return Some(Token::String);
    }
    None
}

fn hex_value_exec(c: char) -> (r: Option<u32>)
    ensures
        r == hex_value(c),
{
    let v = c as u32;
    if 48 <= v && v <= 57 {
        Some(v - 48)
    } else if 97 <= v && v <= 102 {
        Some(v - 87)
    } else if 65 <= v && v <= 70 {
        Some(v - 55)
    } else {
        None
    }
}

fn hex4_exec(s: &Vec<char>, i: usize) -> (r: Option<u32>)
    ensures
        r == hex4(s@, i as int),
{
    if i > s.len() || s.len() - i < 4 {
        return None;
    }
    match (hex_value_exec(s[i]), hex_value_exec(s[i + 1]), hex_value_exec(s[i + 2]), hex_value_exec(s[i + 3])) {
        (Some(a), Some(b), Some(c), Some(d)) => Some(a * 4096 + b * 256 + c * 16 + d),
        _ => None,
    }
}

fn escape_char_exec(e: char) -> (r: Option<char>)
    ensures
        r == escape_char(e),
{
    if e == '"' {
        Some('"')
    } else if e == '\\' {
        Some('\\')
    } else if e == 'b' {
        Some('\x08')
    } else if e == 'n' {
        Some('\n')
    } else if e == 'f' {
        Some('\x0c')
    } else if e == 'r' {
        Some('\r')
    } else if e == 't' {
        Some('\t')
    } else {
        None
    }
}

/// Scans a string literal's body from `i`, just after its opening quote.
fn scan_string_exec(s: &Vec<char>, i: usize) -> (r: Option<(usize, Vec<char>)>)
    requires
        i <= s@.len(),
    ensures
        match scan_string(s@, i as int, Seq::empty()) {
            Some(x) => r is Some && r.unwrap().0 == x.0 && r.unwrap().1@ == x.1 && i < x.0 <= s@.len(),
            None => r is None,
        },
{
    let mut k = i;
    let mut acc: Vec<char> = Vec::new();
    while k < s.len()
        invariant
            i <= k <= s@.len(),
            scan_string(s@, i as int, Seq::empty()) == scan_string(s@, k as int, acc@),
        decreases s@.len() - k,
    {
        let c = s[k];
        if c == '"' {
            return Some((k + 1, acc));
        } else if c == '\\' {
            if s.len() - k < 2 {
                return None;
            }
            let e = s[k + 1];
            if e == 'u' {
                match hex4_exec(s, k + 2) {
                    Some(v) => match char_from_u32(v) {
                        Some(d) => {
                            acc.push(d);
                            k += 6;
                        },
                        None => {
                            return None;
                        },
                    },
                    None => {
                        return None;
                    },
                }
            } else {
                match escape_char_exec(e) {
                    Some(d) => {
                        acc.push(d);
                        k += 2;
                    },
                    None => {
                        return None;
                    },
                }
            }
        } else {
            acc.push(c);
            k += 1;
        }
    }
    None
}

fn symbol_exec(s: &Vec<char>, i: usize) -> (r: Option<(Token, usize)>)
    requires
        i < s@.len(),
    ensures
        match symbol_at(s@, i as int) {
            Some(x) => r is Some && r.unwrap().0 == x.0 && r.unwrap().1 == x.1 && 1 <= x.1 && i + x.1 <= s@.len(),
            None => r is None,
        },
{
    let c = s[i];
    let two = s.len() - i > 1;
    if c == '<' && two && s[i + 1] == '=' {
        Some((Token::LessThanEq, 2))
    } else if c == '>' && two && s[i + 1] == '=' {
        Some((Token::GreaterThanEq, 2))
    } else if c == '&' && two && s[i + 1] == '&' {
        Some((Token::And, 2))
    } else if c == '|' && two && s[i + 1] == '|' {
        Some((Token::Or, 2))
    } else if c == ',' {
        Some((Token::Comma, 1))
    } else if c == '[' {
        Some((Token::LeftSquareBracket, 1))
    } else if c == ']' {
        Some((Token::RightSquareBracket, 1))
    } else if c == '{' {
        Some((Token::LeftCurlyBrace, 1))
    } else if c == '}' {
        Some((Token::RightCurlyBrace, 1))
    } else if c == '(' {
        Some((Token::LeftParen, 1))
    } else if c == ')' {
        Some((Token::RightParen, 1))
    } else if c == '.' {
        Some((Token::Dot, 1))
    } else if c == ';' {
        Some((Token::SemiColon, 1))
    } else if c == ':' {
        Some((Token::Colon, 1))
    } else if c == '<' {
        Some((Token::LessThan, 1))
    } else if c == '>' {
        Some((Token::GreaterThan, 1))
    } else if c == '=' {
        Some((Token::Eq, 1))
    } else if c == '!' {
        Some((Token::Not, 1))
    } else if c == '+' {
        Some((Token::Plus, 1))
    } else if c == '-' {
        Some((Token::Minus, 1))
    } else if c == '*' {
        Some((Token::Times, 1))
    } else if c == '/' {
        Some((Token::Divide, 1))
    } else {
        None
    }
}

/// Scans the token that starts at `i`.
fn scan_token_exec(s: &Vec<char>, i: usize) -> (r: Option<(Token, usize, Vec<char>)>)
    requires
        i < s@.len(),
    ensures
        match scan_token(s@, i as int) {
            Some(x) => r is Some && r.unwrap().0 == x.0 && r.unwrap().1 == x.1 && r.unwrap().2@ == x.2 && i < x.1
                <= s@.len(),
            None => r is None,
        },
{
    let n = s.len();
    let c = s[i];
    if is_letter_exec(c) {
        let j = ident_end_exec(s, i + 1);
        let w = slice_of(s, i, j);
        match keyword_exec(s, i, j) {
            Some(k) => Some((k, j, w)),
            None => Some((Token::Identifier, j, w)),
        }
    } else if is_digit_exec(c) {
        let j = number_end_exec(s, i);
        Some((Token::Number, j, slice_of(s, i, j)))
    } else if c == '"' {
        match scan_string_exec(s, i + 1) {
            Some(r) => Some((Token::StringLiteral, r.0, r.1)),
            None => None,
        }
    } else {
        match symbol_exec(s, i) {
            Some(r) => Some((r.0, i + r.1, slice_of(s, i, i + r.1))),
            None => None,
        }
    }
}

/// The characters of `s` in `[a, b)`.
fn slice_of(s: &Vec<char>, a: usize, b: usize) -> (r: Vec<char>)
    requires
        a <= b <= s@.len(),
    ensures
        r@ == s@.subrange(a as int, b as int),
{
    let mut r: Vec<char> = Vec::new();
    let mut k = a;
    while k < b
        invariant
            a <= k <= b <= s@.len(),
            r@ == s@.subrange(a as int, k as int),
        decreases b - k,
    {
        r.push(s[k]);
        k += 1;
        assert(r@ =~= s@.subrange(a as int, k as int));
    }
    r
}

/// Each character takes at most four bytes.
pub proof fn lemma_byte_pos_bound(s: Seq<char>, k: int)
    ensures
        byte_pos(s, k) <= 4 * k || k <= 0,
    decreases k,
{
    if k > 0 && k <= s.len() {
        lemma_byte_pos_bound(s, k - 1);
    }
}

/// A lexical error lies inside the text.
pub proof fn lemma_error_in_text(s: Seq<char>, i: int)
    ensures
        lex_from(s, i).1 matches Some(k) ==> 0 <= i <= k < s.len(),
    decreases s.len() - i,
{
    let k = skip_trivia(s, i, false);
    if 0 <= i <= k < s.len() {
        if let Some(t) = scan_token(s, k) {
            if k < t.1 <= s.len() {
                lemma_error_in_text(s, t.1);
            }
        }
    }
}

/// The text of a token is classified by keyword priority.
pub open spec fn keyword_consistent(t: LexemeV) -> bool {
    &&& t.token == Token::Identifier ==> keyword(t.text) is None
    &&& (t.token != Token::StringLiteral && keyword(t.text) is Some) ==> t.token == keyword(
        t.text,
    )->0
}

proof fn lemma_keyword_shape(w: Seq<char>)
    requires
        keyword(w) is Some,
    ensures
        w.len() >= 4,
        is_letter(w[0]),
{
}

proof fn lemma_digits_end(s: Seq<char>, i: int)
    requires
        0 <= i <= s.len(),
    ensures
        i <= digits_end(s, i) <= s.len(),
    decreases s.len() - i,
{
    if i < s.len() && is_digit(s[i]) {
        lemma_digits_end(s, i + 1);
    }
}

proof fn lemma_scan_keyword_consistent(s: Seq<char>, i: int)
    requires
        0 <= i < s.len(),
        scan_token(s, i) is Some,
    ensures
        ({
            let t = scan_token(s, i)->0;
            keyword_consistent(LexemeV { token: t.0, text: t.2, span: Span { start: 0, end: 0 } })
        }),
{
    let c = s[i];
    if is_letter(c) {
    } else if is_digit(c) {
        lemma_digits_end(s, i + 1);
        let j0 = digits_end(s, i + 1);
        if j0 + 1 < s.len() && s[j0] == '.' && is_digit(s[j0 + 1]) {
            lemma_digits_end(s, j0 + 1);
        }
        let j = number_end(s, i);
        let w = s.subrange(i, j);
        assert(w[0] == c);
        if keyword(w) is Some {
            lemma_keyword_shape(w);
        }
    } else if c == '"' {
    } else {
        let r = symbol_at(s, i)->0;
        let w = s.subrange(i, i + r.1);
        if keyword(w) is Some {
            lemma_keyword_shape(w);
        }
    }
}

/// Keyword priority: among the tokens of any text, an identifier never
/// spells a keyword, and a word that spells one (outside a string literal)
/// is that keyword's token.
pub proof fn lemma_keywords_take_priority(s: Seq<char>, i: int)
    ensures
        forall|k: int|
            0 <= k < lex_from(s, i).0.len() ==> keyword_consistent(#[trigger] lex_from(s, i).0[k]),
    decreases s.len() - i,
{
    let k0 = skip_trivia(s, i, false);
    if 0 <= i <= k0 < s.len() {
        if let Some(t) = scan_token(s, k0) {
            if k0 < t.1 <= s.len() {
                lemma_keywords_take_priority(s, t.1);
                lemma_scan_keyword_consistent(s, k0);
                let toks = lex_from(s, i).0;
                let rest = lex_from(s, t.1).0;
                assert forall|k: int| 0 <= k < toks.len() implies keyword_consistent(
                    #[trigger] toks[k],
                ) by {
                    if k > 0 {
                        assert(toks[k] == rest[k - 1]);
                    }
                }
            }
        }
    }
}

/// A pull-based tokenizer over a source text.
pub struct Lexer {
    chars: Vec<char>,
    offsets: Vec<usize>,
    pos: usize,
    finished: bool,
}

impl Lexer {
    /// The source text, as characters.
    pub closed spec fn source(&self) -> Seq<char> {
        self.chars@
    }

    /// What is still to come: the tokens, and the character index of a
    /// lexical error after them, if any.
    pub closed spec fn rest(&self) -> (Seq<LexemeV>, Option<int>) {
        if self.finished {
            (Seq::empty(), None)
        } else {
            lex_from(self.chars@, self.pos as int)
        }
    }

    pub closed spec fn wf(&self) -> bool {
        &&& self.offsets@.len() == self.chars@.len() + 1
        &&& forall|k: int|
            0 <= k <= self.chars@.len() ==> self.offsets@[k] == byte_pos(self.chars@, k)
        &&& self.pos <= self.chars@.len()
    }

    pub fn new(source: &str) -> (r: Lexer)
        requires
            source@.len() <= usize::MAX / 4,
        ensures
            r.wf(),
            r.source() == source@,
            r.rest() == lex_from(source@, 0),
    {
        let chars = chars_of(source);
        let mut offsets: Vec<usize> = Vec::new();
        let mut cur: usize = 0;
        let mut k: usize = 0;
        while k < chars.len()
            invariant
                chars@ == source@,
                source@.len() <= usize::MAX / 4,
                k <= chars@.len(),
                offsets@.len() == k,
                cur == byte_pos(chars@, k as int),
                cur <= 4 * k,
                forall|m: int| 0 <= m < k ==> offsets@[m] == byte_pos(chars@, m),
            decreases chars@.len() - k,
        {
            offsets.push(cur);
            assert(4 * (k + 1) <= 4 * (usize::MAX / 4)) by (nonlinear_arith)
                requires
                    k + 1 <= usize::MAX / 4,
            ;
            cur = cur + utf8_width_exec(chars[k]);
            k += 1;
        }
        offsets.push(cur);
        Lexer { chars, offsets, pos: 0, finished: false }
    }

    /// The next token, a lexical error (after which nothing follows), or
    /// `None` at the end of the input.
    pub fn next_token(&mut self) -> (r: Option<Result<Lexeme, LexicalError>>)
        requires
            old(self).wf(),
        ensures
            final(self).wf(),
            final(self).source() == old(self).source(),
            ({
                let (toks, err) = old(self).rest();
                if toks.len() > 0 {
                    &&& r matches Some(Ok(lx))
                    &&& lx@ == toks[0]
                    &&& final(self).rest() == (toks.drop_first(), err)
                } else {
                    &&& final(self).rest() == (Seq::<LexemeV>::empty(), None::<int>)
                    &&& match err {
                        Some(k) => r matches Some(Err(e)) && e.position == byte_pos(
                            old(self).source(),
                            k,
                        ) && 0 <= k < old(self).source().len() && e.offending_text@ == seq![
                            old(self).source()[k],
                        ],
                        None => r is None,
                    }
                }
            }),
    {
        if self.finished {
            return None;
        }
        let k = skip_trivia_exec(&self.chars, self.pos);
        if k >= self.chars.len() {
            self.finished = true;
            return None;
        }
        match scan_token_exec(&self.chars, k) {
            None => {
                self.finished = true;
                let text = string_of(&self.chars.as_slice()[k..k + 1]);
                Some(Err(LexicalError { position: self.offsets[k], offending_text: text }))
            },
            Some((token, j, w)) => {
                self.pos = j;
                let lx = Lexeme { token, text: w, span: Span { start: self.offsets[k], end: self.offsets[j] } };
                Some(Ok(lx))
            },
        }
    }
}

} // verus!
