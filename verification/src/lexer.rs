//! The lexer: source text to tokens.
//!
//! Tokens are taken by longest match; a keyword wins over an identifier of the
//! same spelling; blanks and `#` comments are skipped; text that starts no
//! token becomes [`Token::Error`]. Fraction literals are turned into binary64
//! numbers by the host: [`scan`] leaves them as text, [`resolve`] puts in the
//! bits that the host computed for them.

use vstd::prelude::*;
pub use crate::token::Token;
use vstd::string::*;
use vstd::slice::slice_subrange;
use crate::token::{Tok, keyword, keyword_token, toks};
use crate::text::{chars_of, string_from_chars, digits_value, digit_value, is_digit};

verus! {

/// A token, or the text of a fraction literal not yet converted.
pub enum Lexeme {
    Token(Token),
    Fraction(String),
}

/// The mathematical content of a [`Lexeme`].
pub enum Lexed {
    Tok(Tok),
    Fraction(Seq<char>),
}

impl View for Lexeme {
    type V = Lexed;

    open spec fn view(&self) -> Lexed {
        match self {
            Lexeme::Token(t) => Lexed::Tok(t@),
            Lexeme::Fraction(s) => Lexed::Fraction(s@),
        }
    }
}

pub open spec fn lexeds(ls: Seq<Lexeme>) -> Seq<Lexed> {
    ls.map_values(|l: Lexeme| l@)
}

pub open spec fn is_space(c: char) -> bool {
    c == ' ' || c == '\t' || c == '\n' || c == '\r'
}

pub open spec fn is_ident_start(c: char) -> bool {
    ('a' <= c && c <= 'z') || ('A' <= c && c <= 'Z') || c == '_'
}

pub open spec fn is_ident_char(c: char) -> bool {
    is_ident_start(c) || is_digit(c)
}

/// End of the run of blanks starting at `i`.
pub open spec fn space_end(src: Seq<char>, i: int) -> int
    decreases src.len() - i,
{
    if 0 <= i < src.len() && is_space(src[i]) {
        space_end(src, i + 1)
    } else {
        i
    }
}

/// End of the line starting at `i` (the newline is not included).
pub open spec fn line_end(src: Seq<char>, i: int) -> int
    decreases src.len() - i,
{
    if 0 <= i < src.len() && src[i] != '\n' {
        line_end(src, i + 1)
    } else {
        i
    }
}

/// End of the run of identifier characters starting at `i`.
pub open spec fn ident_end(src: Seq<char>, i: int) -> int
    decreases src.len() - i,
{
    if 0 <= i < src.len() && is_ident_char(src[i]) {
        ident_end(src, i + 1)
    } else {
        i
    }
}

/// End of the run of digits starting at `i`.
pub open spec fn digits_end(src: Seq<char>, i: int) -> int
    decreases src.len() - i,
{
    if 0 <= i < src.len() && is_digit(src[i]) {
        digits_end(src, i + 1)
    } else {
        i
    }
}

/// Scans the body of a string literal from `j` (just after the opening quote):
/// whether it closes, and where the scan stopped (after the closing quote,
/// or at the failure).
pub open spec fn string_scan(src: Seq<char>, j: int) -> (bool, int)
    decreases src.len() - j,
{
    if j < 0 || j >= src.len() {
        (false, src.len() as int)
    } else if src[j] == '"' {
        (true, j + 1)
    } else if src[j] == '\\' {
        if j + 1 < src.len() && (src[j + 1] == 't' || src[j + 1] == 'n' || src[j + 1] == '"') {
            string_scan(src, j + 2)
        } else {
            (false, j + 1)
        }
    } else {
        string_scan(src, j + 1)
    }
}

pub proof fn lemma_ends(src: Seq<char>, i: int)
    requires
        0 <= i <= src.len(),
    ensures
        i <= space_end(src, i) <= src.len(),
        i <= line_end(src, i) <= src.len(),
        i <= ident_end(src, i) <= src.len(),
        i <= digits_end(src, i) <= src.len(),
        i <= string_scan(src, i).1 <= src.len(),
        string_scan(src, i).0 ==> i + 1 <= string_scan(src, i).1,
    decreases src.len() - i,
{
    if i < src.len() {
        lemma_ends(src, i + 1);
        if i + 2 <= src.len() {
            lemma_ends(src, i + 2);
        }
    }
}

/// The whole number written by `src[i..e]` (`-?[0-9]+`), if it fits in `i64`.
pub open spec fn whole_value(src: Seq<char>, i: int, e: int) -> Option<i64> {
    let neg = src[i] == '-';
    let m = digits_value(src.subrange(if neg { i + 1 } else { i }, e)) as int;
    let v = if neg { -m } else { m };
    if i64::MIN <= v <= i64::MAX { Some(v as i64) } else { None }
}

/// The single-character operators.
pub open spec fn single_op(c: char) -> Option<Tok> {
    if c == '+' { Some(Tok::Plus) }
    else if c == '-' { Some(Tok::Minus) }
    else if c == '*' { Some(Tok::Star) }
    else if c == '/' { Some(Tok::Slash) }
    else if c == '%' { Some(Tok::Percent) }
    else if c == '.' { Some(Tok::Dot) }
    else if c == ',' { Some(Tok::Comma) }
    else if c == '(' { Some(Tok::LParen) }
    else if c == ')' { Some(Tok::RParen) }
    else if c == '[' { Some(Tok::LBracket) }
    else if c == ']' { Some(Tok::RBracket) }
    else { None }
}

/// The operators that may be followed by `=` (or `:` by `:`): the token
/// alone, and the token with its second character.
pub open spec fn double_op(c: char) -> Option<(Tok, char, Tok)> {
    if c == '=' { Some((Tok::Assign, '=', Tok::Equal)) }
    else if c == '!' { Some((Tok::Error, '=', Tok::NotEqual)) }
    else if c == '>' { Some((Tok::Greater, '=', Tok::GreaterEqual)) }
    else if c == '<' { Some((Tok::Less, '=', Tok::LessEqual)) }
    else if c == ':' { Some((Tok::Colon, ':', Tok::DoubleColon)) }
    else { None }
}

/// Starts a number: a digit, or `-` followed by a digit.
pub open spec fn starts_number(src: Seq<char>, i: int) -> bool {
    is_digit(src[i]) || (src[i] == '-' && i + 1 < src.len() && is_digit(src[i + 1]))
}

/// The longest token at `i` (which holds neither a blank nor `#`), and where it ends.
pub open spec fn lex_at(src: Seq<char>, i: int) -> (Lexed, int)
    recommends
        0 <= i < src.len(),
{
    let c = src[i];
    if is_ident_start(c) {
        let e = ident_end(src, i);
        let w = src.subrange(i, e);
        match keyword(w) {
            Some(k) => (Lexed::Tok(k), e),
            None => (Lexed::Tok(Tok::Identifier(w)), e),
        }
    } else if starts_number(src, i) {
        let ds = if c == '-' { i + 1 } else { i };
        let de = digits_end(src, ds);
        if de + 1 < src.len() && src[de] == '.' && is_digit(src[de + 1]) {
            let fe = digits_end(src, de + 1);
            (Lexed::Fraction(src.subrange(i, fe)), fe)
        } else {
            match whole_value(src, i, de) {
                Some(v) => (Lexed::Tok(Tok::Whole(v)), de),
                None => (Lexed::Tok(Tok::Error), de),
            }
        }
    } else if c == '"' {
        let (closed, e) = string_scan(src, i + 1);
        if closed {
            (Lexed::Tok(Tok::Str(src.subrange(i + 1, e - 1))), e)
        } else {
            (Lexed::Tok(Tok::Error), e)
        }
    } else if double_op(c) is Some {
        let (one, second, two) = double_op(c)->0;
        if i + 1 < src.len() && src[i + 1] == second {
            (Lexed::Tok(two), i + 2)
        } else {
            (Lexed::Tok(one), i + 1)
        }
    } else {
        match single_op(c) {
            Some(t) => (Lexed::Tok(t), i + 1),
            None => (Lexed::Tok(Tok::Error), i + 1),
        }
    }
}

pub proof fn lemma_lex_at_advances(src: Seq<char>, i: int)
    requires
        0 <= i < src.len(),
    ensures
        i < lex_at(src, i).1 <= src.len(),
{
    lemma_ends(src, i);
    lemma_ends(src, i + 1);
    let c = src[i];
    if starts_number(src, i) {
        let ds = if c == '-' { i + 1 } else { i };
        lemma_ends(src, ds);
        lemma_ends(src, ds + 1);
        let de = digits_end(src, ds);
        assert(de > ds);
        if de + 1 < src.len() {
            lemma_ends(src, de + 1);
        }
    }
}

/// A letter, a digit or `_`.
pub open spec fn is_word_char(c: char) -> bool {
    ('a' <= c && c <= 'z') || ('A' <= c && c <= 'Z') || ('0' <= c && c <= '9') || c == '_'
}

proof fn lemma_ident_end_at(src: Seq<char>, k: int, j: int)
    requires
        0 <= k <= j <= src.len(),
        forall|m: int| k <= m < j ==> is_word_char(#[trigger] src[m]),
        j == src.len() || !is_word_char(src[j]),
    ensures
        ident_end(src, k) == j,
    decreases j - k,
{
    if k < j {
        lemma_ident_end_at(src, k + 1, j);
    }
}

/// An identifier is the longest run of letters, digits and `_` that starts
/// with a letter or `_`: the token read there ends where the run ends, and
/// unless the run spells a keyword it is one identifier holding the whole
/// run (so `x1` is one identifier, not `x` and `1`).
pub proof fn lemma_identifier_is_longest_run(src: Seq<char>, i: int, j: int)
    requires
        0 <= i < j <= src.len(),
        ('a' <= src[i] && src[i] <= 'z') || ('A' <= src[i] && src[i] <= 'Z') || src[i] == '_',
        forall|m: int| i <= m < j ==> is_word_char(#[trigger] src[m]),
        j == src.len() || !is_word_char(src[j]),
    ensures
        lex_at(src, i).1 == j,
        keyword(src.subrange(i, j)) is None ==> lex_at(src, i).0 == Lexed::Tok(
            Tok::Identifier(src.subrange(i, j)),
        ),
        keyword(src.subrange(i, j)) matches Some(k) ==> lex_at(src, i).0 == Lexed::Tok(k),
{
    lemma_ident_end_at(src, i, j);
}

/// A run of digits that no `.` and digit follow is one whole number, of the
/// value those digits write in decimal, wherever it fits in `i64`; a `-`
/// just before the digits makes it negative.
pub proof fn lemma_whole_literal(src: Seq<char>, i: int, j: int)
    requires
        0 <= i < j <= src.len(),
        forall|m: int| i <= m < j ==> '0' <= #[trigger] src[m] && src[m] <= '9',
        j == src.len() || !('0' <= src[j] && src[j] <= '9'),
        !(j + 1 < src.len() && src[j] == '.' && '0' <= src[j + 1] && src[j + 1] <= '9'),
        digits_value(src.subrange(i, j)) <= i64::MAX,
    ensures
        lex_at(src, i) == (Lexed::Tok(Tok::Whole(digits_value(src.subrange(i, j)) as i64)), j),
        i > 0 && src[i - 1] == '-' ==> lex_at(src, i - 1) == (
            Lexed::Tok(Tok::Whole(-(digits_value(src.subrange(i, j)) as int) as i64)),
            j,
        ),
{
    lemma_digits_end_at(src, i, j);
}

proof fn lemma_digits_end_at(src: Seq<char>, k: int, j: int)
    requires
        0 <= k <= j <= src.len(),
        forall|m: int| k <= m < j ==> '0' <= #[trigger] src[m] && src[m] <= '9',
        j == src.len() || !('0' <= src[j] && src[j] <= '9'),
    ensures
        digits_end(src, k) == j,
    decreases j - k,
{
    if k < j {
        lemma_digits_end_at(src, k + 1, j);
    }
}

/// The lexemes of `src` from position `i` on.
pub open spec fn scan_from(src: Seq<char>, i: int) -> Seq<Lexed>
    decreases src.len() - i,
{
    if i < 0 || i >= src.len() {
        Seq::empty()
    } else if is_space(src[i]) {
        proof {
            lemma_ends(src, i + 1);
        }
        scan_from(src, space_end(src, i))
    } else if src[i] == '#' {
        proof {
            lemma_ends(src, i + 1);
        }
        scan_from(src, line_end(src, i))
    } else {
        proof {
            lemma_lex_at_advances(src, i);
        }
        seq![lex_at(src, i).0] + scan_from(src, lex_at(src, i).1)
    }
}

/// The lexemes of a whole source text.
pub open spec fn spec_scan(src: Seq<char>) -> Seq<Lexed> {
    scan_from(src, 0)
}

/// Blanks (space, tab, newline, carriage return) between tokens are
/// skipped one by one: a blank changes nothing of what is read after it.
pub proof fn lemma_blank_skipped(src: Seq<char>, i: int)
    requires
        0 <= i < src.len(),
        src[i] == ' ' || src[i] == '\t' || src[i] == '\n' || src[i] == '\r',
    ensures
        scan_from(src, i) == scan_from(src, i + 1),
{
    lemma_ends(src, i + 1);
    if i + 1 < src.len() && is_space(src[i + 1]) {
        assert(space_end(src, i) == space_end(src, i + 1));
    } else {
        assert(space_end(src, i + 1) == i + 1);
    }
}

proof fn lemma_line_end_at(src: Seq<char>, k: int, j: int)
    requires
        0 <= k <= j <= src.len(),
        forall|m: int| k <= m < j ==> #[trigger] src[m] != '\n',
        j == src.len() || src[j] == '\n',
    ensures
        line_end(src, k) == j,
    decreases j - k,
{
    if k < j {
        lemma_line_end_at(src, k + 1, j);
    }
}

/// A `#` comment runs to the end of its line and yields no token: what is
/// read after it starts at the newline (or the end of the text).
pub proof fn lemma_comment_skipped(src: Seq<char>, i: int, j: int)
    requires
        0 <= i < j <= src.len(),
        src[i] == '#',
        forall|m: int| i <= m < j ==> #[trigger] src[m] != '\n',
        j == src.len() || src[j] == '\n',
    ensures
        scan_from(src, i) == scan_from(src, j),
{
    lemma_line_end_at(src, i, j);
}

proof fn lemma_string_scan_plain(src: Seq<char>, k: int, j: int)
    requires
        0 <= k <= j < src.len(),
        src[j] == '"',
        forall|m: int| k <= m < j ==> #[trigger] src[m] != '"' && src[m] != '\\',
    ensures
        string_scan(src, k) == (true, j + 1),
    decreases j - k,
{
    if k < j {
        lemma_string_scan_plain(src, k + 1, j);
    }
}

/// A string literal without escapes is the text between its quotes.
pub proof fn lemma_plain_string(src: Seq<char>, i: int, j: int)
    requires
        0 <= i < j < src.len(),
        src[i] == '"',
        src[j] == '"',
        forall|m: int| i < m < j ==> #[trigger] src[m] != '"' && src[m] != '\\',
    ensures
        lex_at(src, i) == (Lexed::Tok(Tok::Str(src.subrange(i + 1, j))), j + 1),
{
    lemma_string_scan_plain(src, i + 1, j);
}

/// The texts of the fraction literals among `ls`, in order.
pub open spec fn fraction_texts(ls: Seq<Lexed>) -> Seq<Seq<char>>
    decreases ls.len(),
{
    if ls.len() == 0 {
        Seq::empty()
    } else {
        fraction_texts(ls.drop_last()) + match ls.last() {
            Lexed::Fraction(t) => seq![t],
            Lexed::Tok(_) => Seq::empty(),
        }
    }
}

/// The tokens of `ls`, the fraction literals replaced in order by `bits`.
pub open spec fn resolved(ls: Seq<Lexed>, bits: Seq<u64>) -> Seq<Tok>
    decreases ls.len(),
{
    if ls.len() == 0 {
        Seq::empty()
    } else {
        let n = fraction_texts(ls.drop_last()).len();
        resolved(ls.drop_last(), bits) + seq![
            match ls.last() {
                Lexed::Fraction(_) => Tok::Fraction(bits[n as int]),
                Lexed::Tok(t) => t,
            },
        ]
    }
}

fn space_end_exec(src: &Vec<char>, i: usize) -> (res: usize)
    requires
        i <= src.len(),
    ensures
        res == space_end(src@, i as int),
{
    let mut j = i;
    while j < src.len() && (src[j] == ' ' || src[j] == '\t' || src[j] == '\n' || src[j] == '\r')
        invariant
            i <= j <= src.len(),
            space_end(src@, i as int) == space_end(src@, j as int),
        decreases src.len() - j,
    {
        j += 1;
    }
    j
}

fn line_end_exec(src: &Vec<char>, i: usize) -> (res: usize)
    requires
        i <= src.len(),
    ensures
        res == line_end(src@, i as int),
{
    let mut j = i;
    while j < src.len() && src[j] != '\n'
        invariant
            i <= j <= src.len(),
            line_end(src@, i as int) == line_end(src@, j as int),
        decreases src.len() - j,
    {
        j += 1;
    }
    j
}

fn ident_start_exec(c: char) -> (res: bool)
    ensures
        res == is_ident_start(c),
{
    ('a' <= c && c <= 'z') || ('A' <= c && c <= 'Z') || c == '_'
}

fn ident_char_exec(c: char) -> (res: bool)
    ensures
        res == is_ident_char(c),
{
    ident_start_exec(c) || ('0' <= c && c <= '9')
}

fn ident_end_exec(src: &Vec<char>, i: usize) -> (res: usize)
    requires
        i <= src.len(),
    ensures
        res == ident_end(src@, i as int),
{
    let mut j = i;
    while j < src.len() && ident_char_exec(src[j])
        invariant
            i <= j <= src.len(),
            ident_end(src@, i as int) == ident_end(src@, j as int),
        decreases src.len() - j,
    {
        j += 1;
    }
    j
}

fn digits_end_exec(src: &Vec<char>, i: usize) -> (res: usize)
    requires
        i <= src.len(),
    ensures
        res == digits_end(src@, i as int),
{
    let mut j = i;
    while j < src.len() && '0' <= src[j] && src[j] <= '9'
        invariant
            i <= j <= src.len(),
            digits_end(src@, i as int) == digits_end(src@, j as int),
        decreases src.len() - j,
    {
        j += 1;
    }
    j
}

fn string_scan_exec(src: &Vec<char>, j0: usize) -> (res: (bool, usize))
    requires
        j0 <= src.len(),
    ensures
        (res.0, res.1 as int) == string_scan(src@, j0 as int),
{
    let mut j = j0;
    while j < src.len()
        invariant
            j0 <= j <= src.len() + 1,
            string_scan(src@, j0 as int) == string_scan(src@, j as int),
        decreases src.len() + 1 - j,
    {
        if src[j] == '"' {
            return (true, j + 1);
        } else if src[j] == '\\' {
            if j + 1 < src.len() && (src[j + 1] == 't' || src[j + 1] == 'n' || src[j + 1] == '"') {
                j += 2;
            } else {
                return (false, j + 1);
            }
        } else {
            j += 1;
        }
    }
    (false, src.len())
}

proof fn lemma_digits_value_step(s: Seq<char>, k: int)
    requires
        0 <= k < s.len(),
    ensures
        digits_value(s.take(k + 1)) == digits_value(s.take(k)) * 10 + digit_value(s[k]) as nat,
{
    assert(s.take(k + 1).drop_last() =~= s.take(k));
}

proof fn lemma_digits_value_grows(s: Seq<char>, k: int)
    requires
        0 <= k <= s.len(),
        forall|m: int| 0 <= m < s.len() ==> is_digit(#[trigger] s[m]),
    ensures
        digits_value(s.take(k)) <= digits_value(s),
    decreases s.len() - k,
{
    if k < s.len() {
        lemma_digits_value_step(s, k);
        lemma_digits_value_grows(s, k + 1);
        assert(s.take(s.len() as int) =~= s);
    } else {
        assert(s.take(k) =~= s);
    }
}

proof fn lemma_digits_run(src: Seq<char>, i: int)
    requires
        0 <= i <= src.len(),
    ensures
        forall|m: int| i <= m < digits_end(src, i) ==> is_digit(#[trigger] src[m]),
    decreases src.len() - i,
{
    if i < src.len() && is_digit(src[i]) {
        lemma_digits_run(src, i + 1);
    }
}

/// The value of `src[i..e]` as a whole number, if it fits.
fn whole_value_exec(src: &Vec<char>, i: usize, e: usize) -> (res: Option<i64>)
    requires
        i < e <= src.len(),
        src@[i as int] == '-' ==> i + 1 < e,
        forall|m: int|
            (if src@[i as int] == '-' { i + 1 } else { i as int }) <= m < e ==> is_digit(
                #[trigger] src@[m],
            ),
    ensures
        res == whole_value(src@, i as int, e as int),
{
    let neg = src[i] == '-';
    let ds: usize = if neg { i + 1 } else { i };
    let ghost s = src@.subrange(ds as int, e as int);
    let mut acc: i64 = 0;
    let mut k: usize = ds;
    while k < e
        invariant
            ds <= k <= e,
            e <= src.len(),
            i < e,
            neg == (src@[i as int] == '-'),
            ds == if neg { i + 1 } else { i as int },
            s == src@.subrange(ds as int, e as int),
            forall|m: int| ds <= m < e ==> is_digit(#[trigger] src@[m]),
            acc as int == if neg {
                -(digits_value(s.take(k - ds)) as int)
            } else {
                digits_value(s.take(k - ds)) as int
            },
        decreases e - k,
    {
        let d = (src[k] as u32 - '0' as u32) as i64;
        proof {
            assert(s[k - ds] == src@[k as int]);
            assert(is_digit(src@[k as int]));
            lemma_digits_value_step(s, k - ds);
        }
        let step = acc.checked_mul(10);
        let next = match step {
            Some(t) => if neg {
                t.checked_sub(d)
            } else {
                t.checked_add(d)
            },
            None => None,
        };
        match next {
            Some(n) => {
                acc = n;
            },
            None => {
                proof {
                    assert forall|m: int| 0 <= m < s.len() implies is_digit(#[trigger] s[m]) by {
                        assert(s[m] == src@[ds + m]);
                    }
                    lemma_digits_value_grows(s, k - ds + 1);
                    let v1 = digits_value(s.take(k - ds + 1)) as int;
                    let full = digits_value(s) as int;
                    assert(v1 == (if neg { -acc } else { acc as int }) * 10 + d);
                    if neg {
                        assert(-v1 < i64::MIN);
                        assert(-full < i64::MIN);
                    } else {
                        assert(v1 > i64::MAX);
                        assert(full > i64::MAX);
                    }
                    assert(s == src@.subrange(ds as int, e as int));
                    assert(src@.subrange(if src@[i as int] == '-' { i + 1 } else { i as int }, e as int) == s);
                    assert(whole_value(src@, i as int, e as int) is None);
                }
                return None;
            },
        }
        k += 1;
    }
    assert(s.take(e - ds) =~= s);
    Some(acc)
}

fn char_text(src: &Vec<char>, i: usize, e: usize) -> (res: String)
    requires
        i <= e <= src.len(),
    ensures
        res@ == src@.subrange(i as int, e as int),
{
    string_from_chars(slice_subrange(src.as_slice(), i, e))
}

fn single_op_exec(c: char) -> (res: Option<Token>)
    ensures
        match res {
            Some(t) => single_op(c) == Some(t@),
            None => single_op(c) is None,
        },
{
    if c == '+' { Some(Token::Plus) }
    else if c == '-' { Some(Token::Minus) }
    else if c == '*' { Some(Token::Star) }
    else if c == '/' { Some(Token::Slash) }
    else if c == '%' { Some(Token::Percent) }
    else if c == '.' { Some(Token::Dot) }
    else if c == ',' { Some(Token::Comma) }
    else if c == '(' { Some(Token::LParen) }
    else if c == ')' { Some(Token::RParen) }
    else if c == '[' { Some(Token::LBracket) }
    else if c == ']' { Some(Token::RBracket) }
    else { None }
}

fn double_op_exec(c: char) -> (res: Option<(Token, char, Token)>)
    ensures
        match res {
            Some((a, s, b)) => double_op(c) == Some((a@, s, b@)),
            None => double_op(c) is None,
        },
{
    if c == '=' { Some((Token::Assign, '=', Token::Equal)) }
    else if c == '!' { Some((Token::Error, '=', Token::NotEqual)) }
    else if c == '>' { Some((Token::Greater, '=', Token::GreaterEqual)) }
    else if c == '<' { Some((Token::Less, '=', Token::LessEqual)) }
    else if c == ':' { Some((Token::Colon, ':', Token::DoubleColon)) }
    else { None }
}

fn lex_at_exec(src: &Vec<char>, i: usize) -> (res: (Lexeme, usize))
    requires
        i < src.len(),
    ensures
        (res.0@, res.1 as int) == lex_at(src@, i as int),
{
    proof {
        lemma_ends(src@, i as int);
        lemma_ends(src@, i as int + 1);
    }
    let c = src[i];
    if ident_start_exec(c) {
        let e = ident_end_exec(src, i);
        let w = char_text(src, i, e);
        match keyword_token(w.as_str()) {
            Some(k) => (Lexeme::Token(k), e),
            None => (Lexeme::Token(Token::Identifier(w)), e),
        }
    } else if ('0' <= c && c <= '9') || (c == '-' && i + 1 < src.len() && '0' <= src[i + 1]
        && src[i + 1] <= '9') {
        let ds: usize = if c == '-' { i + 1 } else { i };
        proof {
            lemma_ends(src@, ds as int);
            lemma_ends(src@, ds as int + 1);
            lemma_digits_run(src@, ds as int);
        }
        let de = digits_end_exec(src, ds);
        if de < src.len() && de + 1 < src.len() && src[de] == '.' && '0' <= src[de + 1] && src[de + 1] <= '9' {
            proof {
                lemma_ends(src@, de as int + 1);
            }
            let fe = digits_end_exec(src, de + 1);
            (Lexeme::Fraction(char_text(src, i, fe)), fe)
        } else {
            match whole_value_exec(src, i, de) {
                Some(v) => (Lexeme::Token(Token::Whole(v)), de),
                None => (Lexeme::Token(Token::Error), de),
            }
        }
    } else if c == '"' {
        let (closed, e) = string_scan_exec(src, i + 1);
        if closed {
            (Lexeme::Token(Token::String(char_text(src, i + 1, e - 1))), e)
        } else {
            (Lexeme::Token(Token::Error), e)
        }
    } else {
        match double_op_exec(c) {
            Some((one, second, two)) => {
                if i + 1 < src.len() && src[i + 1] == second {
                    (Lexeme::Token(two), i + 2)
                } else {
                    (Lexeme::Token(one), i + 1)
                }
            },
            None => match single_op_exec(c) {
                Some(t) => (Lexeme::Token(t), i + 1),
                None => (Lexeme::Token(Token::Error), i + 1),
            },
        }
    }
}

/// Splits a source text into lexemes.
pub fn scan(source: &str) -> (res: Vec<Lexeme>)
    ensures
        lexeds(res@) == spec_scan(source@),
{
    let src = chars_of(source);
    let mut out: Vec<Lexeme> = Vec::new();
    let mut i: usize = 0;
    while i < src.len()
        invariant
            0 <= i <= src.len(),
            src@ == source@,
            lexeds(out@) + scan_from(src@, i as int) == scan_from(src@, 0),
        decreases src.len() - i,
    {
        let c = src[i];
        proof {
            lemma_ends(src@, i as int + 1);
        }
        if c == ' ' || c == '\t' || c == '\n' || c == '\r' {
            i = space_end_exec(&src, i);
        } else if c == '#' {
            i = line_end_exec(&src, i);
        } else {
            proof {
                lemma_lex_at_advances(src@, i as int);
            }
            let (l, e) = lex_at_exec(&src, i);
            let ghost before = lexeds(out@);
            out.push(l);
            assert(lexeds(out@) =~= before.push(lex_at(src@, i as int).0));
            assert(lexeds(out@) + scan_from(src@, e as int) =~= before + scan_from(
                src@,
                i as int,
            ));
            i = e;
        }
    }
    assert(lexeds(out@) =~= lexeds(out@) + scan_from(src@, i as int));
    out
}

/// The texts of the fraction literals among the lexemes, in order.
pub fn fraction_literals(ls: &Vec<Lexeme>) -> (res: Vec<String>)
    ensures
        res@.map_values(|s: String| s@) == fraction_texts(lexeds(ls@)),
{
    let mut out: Vec<String> = Vec::new();
    let mut i: usize = 0;
    while i < ls.len()
        invariant
            0 <= i <= ls.len(),
            out@.map_values(|s: String| s@) == fraction_texts(lexeds(ls@).take(i as int)),
        decreases ls.len() - i,
    {
        let ghost before = out@;
        assert(lexeds(ls@).take(i as int + 1).drop_last() =~= lexeds(ls@).take(i as int));
        match &ls[i] {
            Lexeme::Fraction(t) => {
                out.push(t.clone());
                assert(out@.map_values(|s: String| s@) =~= before.map_values(|s: String| s@).push(
                    t@,
                ));
            },
            Lexeme::Token(_) => {
                assert(out@.map_values(|s: String| s@) =~= before.map_values(|s: String| s@)
                    + Seq::<Seq<char>>::empty());
            },
        }
        i += 1;
    }
    assert(lexeds(ls@).take(ls.len() as int) =~= lexeds(ls@));
    out
}

proof fn lemma_fraction_count(ls: Seq<Lexed>, k: int)
    requires
        0 <= k <= ls.len(),
    ensures
        fraction_texts(ls.take(k)).len() <= fraction_texts(ls).len(),
    decreases ls.len() - k,
{
    if k < ls.len() {
        lemma_fraction_count(ls, k + 1);
        assert(ls.take(k + 1).drop_last() =~= ls.take(k));
    } else {
        assert(ls.take(k) =~= ls);
    }
}

/// The tokens, each fraction literal replaced by the next of `bits`.
pub fn resolve(ls: Vec<Lexeme>, bits: &Vec<u64>) -> (res: Vec<Token>)
    requires
        bits.len() == fraction_texts(lexeds(ls@)).len(),
    ensures
        toks(res@) == resolved(lexeds(ls@), bits@),
{
    let mut out: Vec<Token> = Vec::new();
    let mut i: usize = 0;
    let mut n: usize = 0;
    let ghost all = lexeds(ls@);
    while i < ls.len()
        invariant
            0 <= i <= ls.len(),
            all == lexeds(ls@),
            bits.len() == fraction_texts(all).len(),
            n == fraction_texts(all.take(i as int)).len(),
            toks(out@) == resolved(all.take(i as int), bits@),
        decreases ls.len() - i,
    {
        let ghost before = toks(out@);
        assert(all.take(i as int + 1).drop_last() =~= all.take(i as int));
        proof {
            lemma_fraction_count(all, i as int + 1);
        }
        match &ls[i] {
            Lexeme::Fraction(_) => {
                out.push(Token::Fraction(bits[n]));
                n += 1;
            },
            Lexeme::Token(t) => {
                out.push(t.duplicate());
            },
        }
        assert(toks(out@) =~= resolved(all.take(i as int + 1), bits@));
        i += 1;
    }
    assert(all.take(ls.len() as int) =~= all);
    out
}

} // verus!
