use vstd::prelude::*;
use vstd::std_specs::iter::IteratorSpec;
use vstd::string::StrSliceExecFns;
use vstd::string::StringExecFns;
use crate::syntax::{
    CharClass, Item, Lexeme, class_has, is_blank, is_digit, is_cyrillic_letter, is_latin_letter,
    single_token, double_token, digit_value, decimal_value, number_item, item, run,
    cyrillic_word_len, latin_word_len, next_lexeme, shifted, denotes, lemma_item_len,
    lemma_run_bound, lex, lex_spans, lemma_lex_next,
};
pub use crate::token::Token;
use crate::token::{LexError, LexErrorKind, reserved, reserved_at};

verus! {

fn blank(c: char) -> (r: bool)
    ensures
        r == is_blank(c),
{
    c == ' ' || c == '\t' || c == '\n' || c == '\r' || c == '\x0C'
}

fn digit(c: char) -> (r: bool)
    ensures
        r == is_digit(c),
{
    '0' <= c && c <= '9'
}

fn cyrillic_letter(c: char) -> (r: bool)
    ensures
        r == is_cyrillic_letter(c),
{
    ('а' <= c && c <= 'ш' && c != 'й') || ('А' <= c && c <= 'Ш' && c != 'Й')
        || c == 'ђ' || c == 'ј' || c == 'љ' || c == 'њ' || c == 'ћ' || c == 'џ'
        || c == 'Ђ' || c == 'Ј' || c == 'Љ' || c == 'Њ' || c == 'Ћ' || c == 'Џ'
}

fn latin_letter(c: char) -> (r: bool)
    ensures
        r == is_latin_letter(c),
{
    ('a' <= c && c <= 'z') || ('A' <= c && c <= 'Z')
        || c == 'đ' || c == 'ž' || c == 'š' || c == 'ć' || c == 'č'
        || c == 'Đ' || c == 'Ž' || c == 'Š' || c == 'Ć' || c == 'Č'
}

fn in_class(k: CharClass, c: char) -> (r: bool)
    ensures
        r == class_has(k, c),
{
    match k {
        CharClass::Blank => blank(c),
        CharClass::NotNewline => c != '\n',
        CharClass::NotQuote => c != '"',
        CharClass::Digit => digit(c),
        CharClass::CyrillicTail => cyrillic_letter(c) || digit(c) || c == '_' || c == '-',
        CharClass::LatinTail => latin_letter(c) || digit(c) || c == '_',
    }
}

fn single_of(c: char) -> (r: Option<Token>)
    ensures
        r == single_token(c),
{
    match c {
        '(' => Some(Token::LtParen),
        ')' => Some(Token::RtParen),
        '[' => Some(Token::LtBracket),
        ']' => Some(Token::RtBracket),
        '{' => Some(Token::LtBrace),
        '}' => Some(Token::RtBrace),
        ',' => Some(Token::Comma),
        '.' => Some(Token::Dot),
        '-' => Some(Token::Minus),
        '+' => Some(Token::Plus),
        '/' => Some(Token::Divide),
        '*' => Some(Token::Multiply),
        '=' => Some(Token::Assignment),
        '>' => Some(Token::BiggerThan),
        '<' => Some(Token::LessThan),
        '!' => Some(Token::Negate),
        ':' => Some(Token::ScopeResolution),
        _ => None,
    }
}

fn double_of(c: char, d: char) -> (r: Option<Token>)
    ensures
        r == double_token(c, d),
{
    if d != '=' {
        None
    } else if c == '=' {
        Some(Token::Equals)
    } else if c == '>' {
        Some(Token::GreaterOrEqualThan)
    } else if c == '<' {
        Some(Token::LesserOrEqualThan)
    } else {
        None
    }
}

/// How many characters of class `k` follow from index `i` on.
fn run_from(chars: &Vec<char>, i: usize, k: CharClass) -> (n: usize)
    requires
        i <= chars@.len(),
    ensures
        n == run(chars@.skip(i as int), k),
        i + n <= chars@.len(),
{
    let mut j: usize = i;
    while j < chars.len() && in_class(k, chars[j])
        invariant
            i <= j <= chars@.len(),
            run(chars@.skip(i as int), k) == (j - i) + run(chars@.skip(j as int), k),
        decreases chars@.len() - j,
    {
        assert(chars@.skip(j as int)[0] == chars@[j as int]);
        assert(chars@.skip(j as int).drop_first() =~= chars@.skip(j + 1));
        j = j + 1;
    }
    if j < chars.len() {
        assert(chars@.skip(j as int)[0] == chars@[j as int]);
    }
    j - i
}

/// Every character of a run belongs to its class.
pub proof fn lemma_run_members(s: Seq<char>, k: CharClass)
    ensures
        forall|m: int| 0 <= m < run(s, k) ==> class_has(k, #[trigger] s[m]),
    decreases s.len(),
{
    lemma_run_bound(s, k);
    if s.len() > 0 && class_has(k, s[0]) {
        lemma_run_members(s.drop_first(), k);
        assert forall|m: int| 0 <= m < run(s, k) implies class_has(k, #[trigger] s[m]) by {
            if m > 0 {
                assert(s[m] == s.drop_first()[m - 1]);
            }
        }
    }
}

/// A string of digits is worth no less than any of its prefixes, and never less than zero.
pub proof fn lemma_decimal_prefix(d: Seq<char>, m: int)
    requires
        0 <= m <= d.len(),
        forall|i: int| 0 <= i < d.len() ==> is_digit(#[trigger] d[i]),
    ensures
        0 <= decimal_value(d.take(m)) <= decimal_value(d),
    decreases d.len(),
{
    if m == d.len() {
        assert(d.take(m) =~= d);
        if d.len() > 0 {
            lemma_decimal_prefix(d.drop_last(), m - 1);
            assert(d.drop_last().take(m - 1) =~= d.drop_last());
        }
    } else {
        lemma_decimal_prefix(d.drop_last(), m);
        assert(d.drop_last().take(m) =~= d.take(m));
        assert(is_digit(d[d.len() - 1]));
    }
}

/// The value of the digits `chars[a..b]`, or `None` where it exceeds `i64::MAX`.
fn parse_decimal(chars: &Vec<char>, a: usize, b: usize) -> (r: Option<i64>)
    requires
        a <= b <= chars@.len(),
        forall|i: int| a <= i < b ==> is_digit(#[trigger] chars@[i]),
    ensures
        decimal_value(chars@.subrange(a as int, b as int)) <= i64::MAX ==> r == Some(
            decimal_value(chars@.subrange(a as int, b as int)) as i64,
        ),
        decimal_value(chars@.subrange(a as int, b as int)) > i64::MAX ==> r is None,
{
    let ghost d = chars@.subrange(a as int, b as int);
    let mut v: i64 = 0;
    let mut j: usize = a;
    assert(d.take(0) =~= seq![]);
    while j < b
        invariant
            a <= j <= b <= chars@.len(),
            d == chars@.subrange(a as int, b as int),
            forall|i: int| a <= i < b ==> is_digit(#[trigger] chars@[i]),
            0 <= v,
            v == decimal_value(d.take(j - a)),
        decreases b - j,
    {
        let c = chars[j];
        assert(is_digit(c));
        let x: i64 = (c as u32 - '0' as u32) as i64;
        assert(x == digit_value(c));
        assert(d.take(j + 1 - a).drop_last() =~= d.take(j - a));
        assert(d.take(j + 1 - a).last() == c);
        if v > (i64::MAX - x) / 10 {
            assert(10 * v + x > i64::MAX) by (nonlinear_arith)
                requires
                    v > (i64::MAX - x) / 10,
                    0 <= x <= 9,
            ;
            proof {
                assert forall|i: int| 0 <= i < d.len() implies is_digit(#[trigger] d[i]) by {
                    assert(d[i] == chars@[a + i]);
                }
                lemma_decimal_prefix(d, j + 1 - a);
            }
            return None;
        }
        v = v * 10 + x;
        j = j + 1;
    }
    assert(d.take(b - a) =~= d);
    Some(v)
}

/// A cursor over a source text that hands out its tokens one at a time.
pub struct Lexer<'a> {
    source: &'a str,
    chars: Vec<char>,
    pos: usize,
}

impl Token {
    /// A lexer positioned at the start of `source`.
    pub fn lexer(source: &str) -> (r: Lexer<'_>)
        ensures
            r.wf(),
            r.text() == source@,
            r.position() == 0,
    {
        let mut it = source.chars();
        let mut chars: Vec<char> = Vec::new();
        loop
            invariant
                it.obeys_prophetic_iter_laws(),
                chars@ + it.remaining() == source@,
                it.decrease() is Some,
            ensures
                chars@ == source@,
            decreases it.decrease()->0,
        {
            match it.next() {
                Some(c) => {
                    chars.push(c);
                },
                None => {
                    assert(chars@ =~= chars@ + it.remaining());
                    break;
                },
            }
        }
        Lexer { source, chars, pos: 0 }
    }
}

impl<'a> Lexer<'a> {
    /// The whole source text, as characters.
    pub closed spec fn text(&self) -> Seq<char> {
        self.chars@
    }

    /// Where the cursor stands, counted in characters.
    pub closed spec fn position(&self) -> nat {
        self.pos as nat
    }

    pub closed spec fn wf(&self) -> bool {
        &&& self.chars@ == self.source@
        &&& self.pos <= self.chars@.len()
    }

    /// The text that is not consumed yet.
    pub open spec fn rest(&self) -> Seq<char> {
        self.text().skip(self.position() as int)
    }

    /// The text `chars[a..b]` as a `String`.
    fn slice(&self, a: usize, b: usize) -> (r: String)
        requires
            self.wf(),
            a <= b <= self.chars@.len(),
        ensures
            r@ == self.chars@.subrange(a as int, b as int),
    {
        String::from_str(self.source.substring_char(a, b))
    }

    /// A word at `i`: a reserved word or an identifier.
    fn word_at(&self, i: usize, w: usize) -> (r: Result<Token, LexError>)
        requires
            self.wf(),
            i < i + w <= self.chars@.len(),
        ensures
            ({
                let s = self.chars@.subrange(i as int, i + w);
                match reserved(s) {
                    Some(t) => r == Ok::<Token, LexError>(t),
                    None => denotes(r, Lexeme::Word(s), i as int, i + w),
                }
            }),
    {
        let _len = self.chars.len();
        match reserved_at(&self.chars, i, i + w) {
            Some(t) => Ok(t),
            None => Ok(Token::Identifier(self.slice(i, i + w))),
        }
    }

    /// A number literal at `i`, which holds a digit.
    fn number_at(&self, i: usize) -> (r: (Result<Token, LexError>, usize))
        requires
            self.wf(),
            i < self.chars@.len(),
            is_digit(self.chars@[i as int]),
        ensures
            ({
                let (it, n) = number_item(self.chars@.skip(i as int));
                &&& r.1 == i + n
                &&& it matches Item::Lex(l) && denotes(r.0, l, i as int, i + n)
            }),
    {
        let ghost s = self.chars@.skip(i as int);
        let len = self.chars.len();
        let d = run_from(&self.chars, i, CharClass::Digit);
        let mut f: usize = 0;
        if i + d < len {
            assert(s[d as int] == self.chars@[i + d]);
            if self.chars[i + d] == '.' {
                f = run_from(&self.chars, i + d + 1, CharClass::Digit);
                assert(s.skip(d + 1) =~= self.chars@.skip(i + d + 1));
            }
        }
        if f > 0 {
            assert(s.take(d + 1 + f) =~= self.chars@.subrange(i as int, i + d + 1 + f));
            (Ok(Token::Float(self.slice(i, i + d + 1 + f))), i + d + 1 + f)
        } else {
            proof {
                lemma_run_members(s, CharClass::Digit);
                assert forall|m: int| i <= m < i + d implies is_digit(#[trigger] self.chars@[m]) by {
                    assert(self.chars@[m] == s[m - i]);
                }
                assert(s.take(d as int) =~= self.chars@.subrange(i as int, i + d));
            }
            match parse_decimal(&self.chars, i, i + d) {
                Some(v) => (Ok(Token::Integer(v)), i + d),
                None => (
                    Err(LexError { kind: LexErrorKind::NumericOverflow, start: i, end: i + d }),
                    i + d,
                ),
            }
        }
    }

    /// The item at `i`: `None` for text to skip, else the token or error; and where it ends.
    fn item_at(&self, i: usize) -> (r: (Option<Result<Token, LexError>>, usize))
        requires
            self.wf(),
            i < self.chars@.len(),
        ensures
            i < r.1 <= self.chars@.len(),
            ({
                let (it, n) = item(self.chars@.skip(i as int));
                &&& r.1 == i + n
                &&& match it {
                    Item::Skip => r.0 is None,
                    Item::Lex(l) => r.0 is Some && denotes(r.0->Some_0, l, i as int, i + n),
                }
            }),
    {
        let ghost s = self.chars@.skip(i as int);
        proof {
            lemma_item_len(s);
        }
        let len = self.chars.len();
        let c = self.chars[i];
        assert(s[0] == c);
        assert(s.drop_first() =~= self.chars@.skip(i + 1));
        if i + 1 < len {
            assert(s[1] == self.chars@[i + 1]);
        }
        if blank(c) {
            let n = run_from(&self.chars, i, CharClass::Blank);
            return (None, i + n);
        }
        if c == '/' && i + 1 < len && self.chars[i + 1] == '/' {
            let n = run_from(&self.chars, i + 2, CharClass::NotNewline);
            assert(s.skip(2) =~= self.chars@.skip(i + 2));
            return (None, i + 2 + n);
        }
        let cyr: usize = if cyrillic_letter(c) || c == '_' {
            1 + run_from(&self.chars, i + 1, CharClass::CyrillicTail)
        } else {
            0
        };
        let lat: usize = if latin_letter(c) || c == '_' {
            1 + run_from(&self.chars, i + 1, CharClass::LatinTail)
        } else {
            0
        };
        assert(cyr == cyrillic_word_len(s));
        assert(lat == latin_word_len(s));
        let w: usize = if cyr >= lat {
            cyr
        } else {
            lat
        };
        if w > 0 {
            assert(s.take(w as int) =~= self.chars@.subrange(i as int, i + w));
            return (Some(self.word_at(i, w)), i + w);
        }
        if digit(c) {
            let (t, e) = self.number_at(i);
            return (Some(t), e);
        }
        if c == '"' {
            let n = run_from(&self.chars, i + 1, CharClass::NotQuote);
            if i + 1 + n < len {
                assert(s.subrange(1, n + 1) =~= self.chars@.subrange(i + 1, i + 1 + n));
                return (Some(Ok(Token::String(self.slice(i + 1, i + 1 + n)))), i + n + 2);
            }
            return (
                Some(Err(LexError { kind: LexErrorKind::Unrecognized, start: i, end: i + 1 })),
                i + 1,
            );
        }
        if i + 1 < len {
            if let Some(t) = double_of(c, self.chars[i + 1]) {
                return (Some(Ok(t)), i + 2);
            }
        }
        if let Some(t) = single_of(c) {
            return (Some(Ok(t)), i + 1);
        }
        (Some(Err(LexError { kind: LexErrorKind::Unrecognized, start: i, end: i + 1 })), i + 1)
    }

    /// The next lexeme from the cursor on: the token or error, and where it ends.
    fn scan(&self) -> (r: (Option<Result<Token, LexError>>, usize))
        requires
            self.wf(),
        ensures
            r.1 <= self.chars@.len(),
            match next_lexeme(self.rest()) {
                None => r.0 is None && r.1 == self.chars@.len(),
                Some((l, a, b)) => {
                    &&& r.0 is Some
                    &&& denotes(r.0->Some_0, l, self.pos + a, self.pos + b)
                    &&& r.1 == self.pos + b
                },
            },
    {
        let mut i = self.pos;
        while i < self.chars.len()
            invariant
                self.wf(),
                self.pos <= i <= self.chars@.len(),
                next_lexeme(self.rest()) == shifted(
                    next_lexeme(self.chars@.skip(i as int)),
                    (i - self.pos) as nat,
                ),
            decreases self.chars@.len() - i,
        {
            let (r, j) = self.item_at(i);
            match r {
                Some(t) => {
                    return (Some(t), j);
                },
                None => {
                    assert(self.chars@.skip(i as int).skip(j - i) =~= self.chars@.skip(j as int));
                    i = j;
                },
            }
        }
        assert(self.chars@.skip(i as int).len() == 0);
        (None, i)
    }

    /// Hands out the next token, or the error at the next lexeme, and moves past it; `None`
    /// once only whitespace and comments are left.
    pub fn next(&mut self) -> (r: Option<Result<Token, LexError>>)
        requires
            old(self).wf(),
        ensures
            final(self).wf(),
            final(self).text() == old(self).text(),
            match next_lexeme(old(self).rest()) {
                None => r is None && final(self).position() == old(self).text().len(),
                Some((l, a, b)) => {
                    &&& r is Some
                    &&& denotes(
                        r->Some_0,
                        l,
                        (old(self).position() + a) as int,
                        (old(self).position() + b) as int,
                    )
                    &&& final(self).position() == old(self).position() + b
                },
            },
    {
        let (r, e) = self.scan();
        self.pos = e;
        r
    }

    /// What `next` would hand out, without moving the cursor.
    pub fn peek(&self) -> (r: Option<Result<Token, LexError>>)
        requires
            self.wf(),
        ensures
            match next_lexeme(self.rest()) {
                None => r is None,
                Some((l, a, b)) => r is Some && denotes(
                    r->Some_0,
                    l,
                    (self.position() + a) as int,
                    (self.position() + b) as int,
                ),
            },
    {
        self.scan().0
    }
}

/// Every token of `source`, with the error of each lexeme that no rule accepts, in order.
pub fn tokenize(source: &str) -> (r: Vec<Result<Token, LexError>>)
    ensures
        r@.len() == lex(source@).len(),
        forall|k: int|
            0 <= k < r@.len() ==> denotes(
                #[trigger] r@[k],
                lex(source@)[k],
                lex_spans(source@, 0)[k].0 as int,
                lex_spans(source@, 0)[k].1 as int,
            ),
{
    let mut lexer = Token::lexer(source);
    let mut r: Vec<Result<Token, LexError>> = Vec::new();
    let ghost done: Seq<Lexeme> = seq![];
    let ghost spans: Seq<(nat, nat)> = seq![];
    assert(lexer.rest() =~= source@);
    loop
        invariant
            lexer.wf(),
            lexer.text() == source@,
            lex(source@) == done + lex(lexer.rest()),
            lex_spans(source@, 0) == spans + lex_spans(lexer.rest(), lexer.position()),
            r@.len() == done.len(),
            spans.len() == done.len(),
            forall|k: int|
                0 <= k < r@.len() ==> denotes(
                    #[trigger] r@[k],
                    done[k],
                    spans[k].0 as int,
                    spans[k].1 as int,
                ),
        ensures
            r@.len() == lex(source@).len(),
            forall|k: int|
                0 <= k < r@.len() ==> denotes(
                    #[trigger] r@[k],
                    lex(source@)[k],
                    lex_spans(source@, 0)[k].0 as int,
                    lex_spans(source@, 0)[k].1 as int,
                ),
        decreases lexer.text().len() - lexer.position(),
    {
        let ghost before = lexer.rest();
        let ghost p = lexer.position();
        proof {
            lemma_lex_next(before, p);
        }
        match lexer.next() {
            Some(t) => {
                proof {
                    let (l, a, b) = next_lexeme(before)->0;
                    assert(before.skip(b as int) =~= lexer.rest());
                    done = done + seq![l];
                    spans = spans + seq![(p + a, p + b)];
                    assert(lex(source@) =~= done + lex(lexer.rest()));
                    assert(lex_spans(source@, 0) =~= spans + lex_spans(lexer.rest(), lexer.position()));
                }
                r.push(t);
            },
            None => {
                assert(lex(source@) =~= done);
                assert(lex_spans(source@, 0) =~= spans);
                break;
            },
        }
    }
    r
}

} // verus!
