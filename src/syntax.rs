use vstd::prelude::*;
use crate::token::{Token, LexError, LexErrorKind, reserved};

verus! {

/// Whitespace that separates lexemes: space, tab, newline, carriage return, form feed.
pub open spec fn is_blank(c: char) -> bool {
    c == ' ' || c == '\t' || c == '\n' || c == '\r' || c == '\x0C'
}

pub open spec fn is_digit(c: char) -> bool {
    '0' <= c && c <= '9'
}

/// The letters of the Cyrillic-based script: а..ш without й, and ђ ј љ њ ћ џ, in both cases.
pub open spec fn is_cyrillic_letter(c: char) -> bool {
    ('а' <= c && c <= 'ш' && c != 'й') || ('А' <= c && c <= 'Ш' && c != 'Й')
        || c == 'ђ' || c == 'ј' || c == 'љ' || c == 'њ' || c == 'ћ' || c == 'џ'
        || c == 'Ђ' || c == 'Ј' || c == 'Љ' || c == 'Њ' || c == 'Ћ' || c == 'Џ'
}

/// The letters of the Latin script: ASCII letters and đ ž š ć č, in both cases.
pub open spec fn is_latin_letter(c: char) -> bool {
    ('a' <= c && c <= 'z') || ('A' <= c && c <= 'Z')
        || c == 'đ' || c == 'ž' || c == 'š' || c == 'ć' || c == 'č'
        || c == 'Đ' || c == 'Ž' || c == 'Š' || c == 'Ć' || c == 'Č'
}

/// The character classes that the scanning rules repeat.
#[derive(Clone, Copy)]
pub enum CharClass {
    Blank,
    NotNewline,
    NotQuote,
    Digit,
    /// What may follow the first character of a Cyrillic identifier.
    CyrillicTail,
    /// What may follow the first character of a Latin identifier.
    LatinTail,
}

pub open spec fn class_has(k: CharClass, c: char) -> bool {
    match k {
        CharClass::Blank => is_blank(c),
        CharClass::NotNewline => c != '\n',
        CharClass::NotQuote => c != '"',
        CharClass::Digit => is_digit(c),
        CharClass::CyrillicTail => is_cyrillic_letter(c) || is_digit(c) || c == '_' || c == '-',
        CharClass::LatinTail => is_latin_letter(c) || is_digit(c) || c == '_',
    }
}

/// How many characters at the front of `s` belong to class `k`.
pub open spec fn run(s: Seq<char>, k: CharClass) -> nat
    decreases s.len(),
{
    if s.len() > 0 && class_has(k, s[0]) {
        1 + run(s.drop_first(), k)
    } else {
        0
    }
}

/// Length of the longest Cyrillic identifier at the front of `s` (0 if there is none).
pub open spec fn cyrillic_word_len(s: Seq<char>) -> nat {
    if s.len() > 0 && (is_cyrillic_letter(s[0]) || s[0] == '_') {
        1 + run(s.drop_first(), CharClass::CyrillicTail)
    } else {
        0
    }
}

/// Length of the longest Latin identifier at the front of `s` (0 if there is none).
pub open spec fn latin_word_len(s: Seq<char>) -> nat {
    if s.len() > 0 && (is_latin_letter(s[0]) || s[0] == '_') {
        1 + run(s.drop_first(), CharClass::LatinTail)
    } else {
        0
    }
}

/// Length of the longest identifier of either script at the front of `s`.
pub open spec fn word_len(s: Seq<char>) -> nat {
    if cyrillic_word_len(s) >= latin_word_len(s) {
        cyrillic_word_len(s)
    } else {
        latin_word_len(s)
    }
}

/// Whether `w` is, as a whole, an identifier of the Cyrillic script.
pub open spec fn is_cyrillic_identifier(w: Seq<char>) -> bool {
    &&& w.len() > 0
    &&& is_cyrillic_letter(w[0]) || w[0] == '_'
    &&& forall|i: int| 1 <= i < w.len() ==> class_has(CharClass::CyrillicTail, #[trigger] w[i])
}

/// Whether `w` is, as a whole, an identifier of the Latin script.
pub open spec fn is_latin_identifier(w: Seq<char>) -> bool {
    &&& w.len() > 0
    &&& is_latin_letter(w[0]) || w[0] == '_'
    &&& forall|i: int| 1 <= i < w.len() ==> class_has(CharClass::LatinTail, #[trigger] w[i])
}

/// The one-character punctuation and operators.
pub open spec fn single_token(c: char) -> Option<Token> {
    if c == '(' {
        Some(Token::LtParen)
    } else if c == ')' {
        Some(Token::RtParen)
    } else if c == '[' {
        Some(Token::LtBracket)
    } else if c == ']' {
        Some(Token::RtBracket)
    } else if c == '{' {
        Some(Token::LtBrace)
    } else if c == '}' {
        Some(Token::RtBrace)
    } else if c == ',' {
        Some(Token::Comma)
    } else if c == '.' {
        Some(Token::Dot)
    } else if c == '-' {
        Some(Token::Minus)
    } else if c == '+' {
        Some(Token::Plus)
    } else if c == '/' {
        Some(Token::Divide)
    } else if c == '*' {
        Some(Token::Multiply)
    } else if c == '=' {
        Some(Token::Assignment)
    } else if c == '>' {
        Some(Token::BiggerThan)
    } else if c == '<' {
        Some(Token::LessThan)
    } else if c == '!' {
        Some(Token::Negate)
    } else if c == ':' {
        Some(Token::ScopeResolution)
    } else {
        None
    }
}

/// The two-character operators.
pub open spec fn double_token(c: char, d: char) -> Option<Token> {
    if d != '=' {
        None
    } else if c == '=' {
        Some(Token::Equals)
    } else if c == '>' {
        Some(Token::GreaterOrEqualThan)
    } else if c == '<' {
        Some(Token::LesserOrEqualThan)
    } else {
        None
    }
}

pub open spec fn digit_value(c: char) -> int {
    (c as int) - ('0' as int)
}

/// The value of a string of decimal digits.
pub open spec fn decimal_value(d: Seq<char>) -> int
    decreases d.len(),
{
    if d.len() == 0 {
        0
    } else {
        10 * decimal_value(d.drop_last()) + digit_value(d.last())
    }
}

/// What a lexeme means, with its strings as character sequences.
pub enum Lexeme {
    /// A token without payload: punctuation, an operator, a keyword or a boolean literal.
    Fixed(Token),
    /// An identifier, spelled as in the source.
    Word(Seq<char>),
    /// A string literal's contents, without the quotes.
    Text(Seq<char>),
    /// An integer literal's value, which may exceed the range of `i64`.
    Int(int),
    /// A floating-point literal's spelling.
    Decimal(Seq<char>),
    /// Text that no rule matches.
    Unknown,
}

/// What the scanner takes from the front of the input: text to skip, or a lexeme.
pub enum Item {
    Skip,
    Lex(Lexeme),
}

/// A number literal at the front of `s`, which starts with a digit: the longest of an integer
/// (digits) and a floating-point literal (digits, a dot, digits).
pub open spec fn number_item(s: Seq<char>) -> (Item, nat) {
    let d = run(s, CharClass::Digit) as int;
    let f = if d < s.len() && s[d] == '.' {
        run(s.skip(d + 1), CharClass::Digit) as int
    } else {
        0
    };
    if f > 0 {
        (Item::Lex(Lexeme::Decimal(s.take(d + 1 + f))), (d + 1 + f) as nat)
    } else {
        (Item::Lex(Lexeme::Int(decimal_value(s.take(d)))), d as nat)
    }
}

/// A string literal at the front of `s`, which starts with a quote; without a closing quote
/// only the opening quote is taken, as unrecognized text.
pub open spec fn string_item(s: Seq<char>) -> (Item, nat) {
    let n = run(s.drop_first(), CharClass::NotQuote) as int;
    if n + 1 < s.len() {
        (Item::Lex(Lexeme::Text(s.subrange(1, n + 1))), (n + 2) as nat)
    } else {
        (Item::Lex(Lexeme::Unknown), 1)
    }
}

/// The item at the front of a non-empty `s`, and how many characters it takes.
///
/// At each position the longest match wins; a word that is spelled exactly as a reserved word
/// is that reserved word.
pub open spec fn item(s: Seq<char>) -> (Item, nat) {
    let c = s[0];
    if is_blank(c) {
        (Item::Skip, run(s, CharClass::Blank))
    } else if c == '/' && s.len() > 1 && s[1] == '/' {
        (Item::Skip, 2 + run(s.skip(2), CharClass::NotNewline))
    } else if word_len(s) > 0 {
        let w = s.take(word_len(s) as int);
        match reserved(w) {
            Some(t) => (Item::Lex(Lexeme::Fixed(t)), word_len(s)),
            None => (Item::Lex(Lexeme::Word(w)), word_len(s)),
        }
    } else if is_digit(c) {
        number_item(s)
    } else if c == '"' {
        string_item(s)
    } else if s.len() > 1 && double_token(c, s[1]) is Some {
        (Item::Lex(Lexeme::Fixed(double_token(c, s[1])->0)), 2)
    } else if single_token(c) is Some {
        (Item::Lex(Lexeme::Fixed(single_token(c)->0)), 1)
    } else {
        (Item::Lex(Lexeme::Unknown), 1)
    }
}

/// A run is no longer than the text it is taken from.
pub proof fn lemma_run_bound(s: Seq<char>, k: CharClass)
    ensures
        run(s, k) <= s.len(),
    decreases s.len(),
{
    if s.len() > 0 && class_has(k, s[0]) {
        lemma_run_bound(s.drop_first(), k);
    }
}

/// Every item takes at least one character, and no more than there are.
pub proof fn lemma_item_len(s: Seq<char>)
    requires
        s.len() > 0,
    ensures
        1 <= item(s).1 <= s.len(),
{
    lemma_run_bound(s, CharClass::Blank);
    lemma_run_bound(s.skip(2), CharClass::NotNewline);
    lemma_run_bound(s.drop_first(), CharClass::CyrillicTail);
    lemma_run_bound(s.drop_first(), CharClass::LatinTail);
    lemma_run_bound(s.drop_first(), CharClass::NotQuote);
    lemma_run_bound(s, CharClass::Digit);
    let d = run(s, CharClass::Digit) as int;
    if d < s.len() {
        lemma_run_bound(s.skip(d + 1), CharClass::Digit);
    }
    if is_blank(s[0]) {
        assert(run(s, CharClass::Blank) >= 1);
    }
    if is_digit(s[0]) {
        assert(d >= 1);
    }
}

#[via_fn]
proof fn lex_decreases(s: Seq<char>) {
    if s.len() > 0 {
        lemma_item_len(s);
    }
}

/// The lexemes of `s`, in order: what tokenizing `s` to its end yields.
pub open spec fn lex(s: Seq<char>) -> Seq<Lexeme>
    decreases s.len(),
    via lex_decreases
{
    if s.len() == 0 {
        seq![]
    } else {
        let rest = lex(s.skip(item(s).1 as int));
        match item(s).0 {
            Item::Skip => rest,
            Item::Lex(l) => seq![l] + rest,
        }
    }
}

#[via_fn]
proof fn next_lexeme_decreases(s: Seq<char>) {
    if s.len() > 0 {
        lemma_item_len(s);
    }
}

/// A found lexeme with its span moved `n` characters to the right.
pub open spec fn shifted(o: Option<(Lexeme, nat, nat)>, n: nat) -> Option<(Lexeme, nat, nat)> {
    match o {
        Some((l, a, b)) => Some((l, a + n, b + n)),
        None => None,
    }
}

/// The first lexeme of `s` with its span `start..end`, after the text that is skipped; `None`
/// where only skipped text is left.
pub open spec fn next_lexeme(s: Seq<char>) -> Option<(Lexeme, nat, nat)>
    decreases s.len(),
    via next_lexeme_decreases
{
    if s.len() == 0 {
        None
    } else {
        let n = item(s).1;
        match item(s).0 {
            Item::Lex(l) => Some((l, 0, n)),
            Item::Skip => shifted(next_lexeme(s.skip(n as int)), n),
        }
    }
}

#[via_fn]
proof fn lex_spans_decreases(s: Seq<char>, base: nat) {
    if s.len() > 0 {
        lemma_item_len(s);
    }
}

/// The spans of the lexemes of `s`, in order, counted from `base`.
pub open spec fn lex_spans(s: Seq<char>, base: nat) -> Seq<(nat, nat)>
    decreases s.len(),
    via lex_spans_decreases
{
    if s.len() == 0 {
        seq![]
    } else {
        let n = item(s).1;
        let rest = lex_spans(s.skip(n as int), base + n);
        match item(s).0 {
            Item::Skip => rest,
            Item::Lex(_) => seq![(base, base + n)] + rest,
        }
    }
}

/// The lexemes of `s` are its first lexeme followed by those of the text after it.
pub proof fn lemma_lex_next(s: Seq<char>, base: nat)
    ensures
        match next_lexeme(s) {
            None => lex(s) == Seq::<Lexeme>::empty() && lex_spans(s, base) == Seq::<(nat, nat)>::empty(),
            Some((l, a, b)) => {
                &&& a < b <= s.len()
                &&& lex(s) == seq![l] + lex(s.skip(b as int))
                &&& lex_spans(s, base) == seq![(base + a, base + b)] + lex_spans(s.skip(b as int), base + b)
            },
        },
    decreases s.len(),
{
    if s.len() > 0 {
        lemma_item_len(s);
        let n = item(s).1;
        if item(s).0 is Skip {
            lemma_lex_next(s.skip(n as int), base + n);
            match next_lexeme(s.skip(n as int)) {
                None => {},
                Some((l, a, b)) => {
                    assert(s.skip(n as int).skip(b as int) =~= s.skip((n + b) as int));
                },
            }
        }
    }
}

/// Whether `r` is what the scanner hands out for lexeme `l` found at `start..end`.
pub open spec fn denotes(r: Result<Token, LexError>, l: Lexeme, start: int, end: int) -> bool {
    match l {
        Lexeme::Fixed(t) => r == Ok::<Token, LexError>(t),
        Lexeme::Word(w) => r is Ok && r->Ok_0 is Identifier && r->Ok_0->Identifier_0@ == w,
        Lexeme::Text(w) => r is Ok && r->Ok_0 is String && r->Ok_0->String_0@ == w,
        Lexeme::Decimal(w) => r is Ok && r->Ok_0 is Float && r->Ok_0->Float_0@ == w,
        Lexeme::Int(n) => if n <= i64::MAX {
            r == Ok::<Token, LexError>(Token::Integer(n as i64))
        } else {
            r == Err::<Token, LexError>(
                LexError { kind: LexErrorKind::NumericOverflow, start: start as usize, end: end as usize },
            )
        },
        Lexeme::Unknown => r == Err::<Token, LexError>(
            LexError { kind: LexErrorKind::Unrecognized, start: start as usize, end: end as usize },
        ),
    }
}

} // verus!
