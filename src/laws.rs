use vstd::prelude::*;
use crate::syntax::{
    CharClass, Item, Lexeme, class_has, is_blank, is_digit, is_latin_identifier,
    is_cyrillic_identifier, item, lex, lex_spans, run, word_len, lemma_run_bound, decimal_value,
};
use crate::token::{Token, reserved};

verus! {

/// A run of class `k` stops where the class stops.
pub proof fn lemma_run_within(x: Seq<char>, y: Seq<char>, k: CharClass)
    requires
        y.len() == 0 || !class_has(k, y[0]),
    ensures
        run(x + y, k) <= x.len(),
        (forall|i: int| 0 <= i < x.len() ==> class_has(k, #[trigger] x[i])) ==> run(x + y, k)
            == x.len(),
    decreases x.len(),
{
    if x.len() == 0 {
        assert(x + y =~= y);
    } else {
        assert((x + y).drop_first() =~= x.drop_first() + y);
        assert((x + y)[0] == x[0]);
        lemma_run_within(x.drop_first(), y, k);
        if forall|i: int| 0 <= i < x.len() ==> class_has(k, #[trigger] x[i]) {
            assert forall|i: int| 0 <= i < x.drop_first().len() implies class_has(
                k,
                #[trigger] x.drop_first()[i],
            ) by {
                assert(x.drop_first()[i] == x[i + 1]);
            }
        }
    }
}

/// A run that ends inside `x` is not changed by what follows `x`.
pub proof fn lemma_run_prefix(x: Seq<char>, y: Seq<char>, k: CharClass)
    requires
        run(x, k) < x.len(),
    ensures
        run(x + y, k) == run(x, k),
    decreases x.len(),
{
    assert((x + y)[0] == x[0]);
    if class_has(k, x[0]) {
        assert((x + y).drop_first() =~= x.drop_first() + y);
        lemma_run_prefix(x.drop_first(), y, k);
    }
}

/// A whole identifier followed by a blank or by nothing is taken as one word.
pub proof fn lemma_word_front(w: Seq<char>, y: Seq<char>)
    requires
        is_cyrillic_identifier(w) || is_latin_identifier(w),
        y.len() == 0 || is_blank(y[0]),
    ensures
        word_len(w + y) == w.len(),
{
    let s = w + y;
    assert(s[0] == w[0]);
    assert(s.drop_first() =~= w.drop_first() + y);
    lemma_run_within(w.drop_first(), y, CharClass::CyrillicTail);
    lemma_run_within(w.drop_first(), y, CharClass::LatinTail);
    if is_cyrillic_identifier(w) {
        assert forall|i: int| 0 <= i < w.drop_first().len() implies class_has(
            CharClass::CyrillicTail,
            #[trigger] w.drop_first()[i],
        ) by {
            assert(w.drop_first()[i] == w[i + 1]);
        }
    }
    if is_latin_identifier(w) {
        assert forall|i: int| 0 <= i < w.drop_first().len() implies class_has(
            CharClass::LatinTail,
            #[trigger] w.drop_first()[i],
        ) by {
            assert(w.drop_first()[i] == w[i + 1]);
        }
    }
}

/// Every reserved spelling is an identifier of its script.
pub proof fn lemma_reserved_is_identifier(w: Seq<char>)
    requires
        reserved(w) is Some,
    ensures
        is_cyrillic_identifier(w) || is_latin_identifier(w),
{
}

/// A word alone is one lexeme: its reserved meaning if it has one, else an identifier.
proof fn lemma_lone_word(w: Seq<char>)
    requires
        is_cyrillic_identifier(w) || is_latin_identifier(w),
    ensures
        lex(w) == seq![
            match reserved(w) {
                Some(t) => Lexeme::Fixed(t),
                None => Lexeme::Word(w),
            },
        ],
        lex_spans(w, 0) == seq![(0nat, w.len())],
{
    lemma_word_front(w, seq![]);
    assert(w + seq![] =~= w);
    assert(!is_blank(w[0]) && w[0] != '/');
    assert(w.take(w.len() as int) =~= w);
    assert(item(w).1 == w.len());
    assert(w.skip(w.len() as int) =~= Seq::<char>::empty());
    assert(lex(Seq::<char>::empty()) =~= Seq::<Lexeme>::empty());
    assert(lex_spans(Seq::<char>::empty(), w.len()) =~= Seq::<(nat, nat)>::empty());
    assert(lex(w) =~= seq![item(w).0->Lex_0]);
    assert(lex_spans(w, 0) =~= seq![(0nat, w.len())]);
}

/// A reserved spelling alone tokenizes to exactly its keyword or boolean literal, never to an
/// identifier.
pub proof fn reserved_spelling_is_one_token(w: Seq<char>)
    requires
        reserved(w) is Some,
    ensures
        lex(w) == seq![Lexeme::Fixed(reserved(w)->0)],
        lex_spans(w, 0) == seq![(0nat, w.len())],
{
    lemma_reserved_is_identifier(w);
    lemma_lone_word(w);
}

/// An identifier of either script that is not a reserved spelling tokenizes to exactly one
/// identifier, spelled as the input.
pub proof fn identifier_is_one_token(w: Seq<char>)
    requires
        is_cyrillic_identifier(w) || is_latin_identifier(w),
        reserved(w) is None,
    ensures
        lex(w) == seq![Lexeme::Word(w)],
        lex_spans(w, 0) == seq![(0nat, w.len())],
{
    lemma_lone_word(w);
}

/// A blank in front of a text changes none of its lexemes.
pub proof fn lemma_blank_prefix(b: char, r: Seq<char>)
    requires
        is_blank(b),
    ensures
        lex(seq![b] + r) == lex(r),
{
    let s = seq![b] + r;
    assert(s[0] == b);
    assert(s.drop_first() =~= r);
    lemma_run_bound(r, CharClass::Blank);
    let m = run(r, CharClass::Blank);
    assert(item(s) == (Item::Skip, m + 1));
    assert(s.skip((m + 1) as int) =~= r.skip(m as int));
    if m == 0 {
        assert(r.skip(0) =~= r);
    } else {
        assert(item(r) == (Item::Skip, m));
    }
}

/// A line comment gives no lexeme: tokenizing `//`, text without a newline, a newline and
/// then `rest` gives the lexemes of `rest`; a comment that ends the input gives none.
pub proof fn comment_line_is_skipped(c: Seq<char>, rest: Seq<char>)
    requires
        forall|i: int| 0 <= i < c.len() ==> c[i] != '\n',
    ensures
        lex(seq!['/', '/'] + c + seq!['\n'] + rest) == lex(rest),
        lex(seq!['/', '/'] + c) == Seq::<Lexeme>::empty(),
{
    let s = seq!['/', '/'] + c + seq!['\n'] + rest;
    assert(s[0] == '/' && s[1] == '/');
    assert(s.skip(2) =~= c + (seq!['\n'] + rest));
    lemma_run_within(c, seq!['\n'] + rest, CharClass::NotNewline);
    assert(s.skip((2 + c.len()) as int) =~= seq!['\n'] + rest);
    lemma_blank_prefix('\n', rest);

    let e = seq!['/', '/'] + c;
    assert(e[0] == '/' && e[1] == '/');
    assert(e.skip(2) =~= c + seq![]);
    lemma_run_within(c, seq![], CharClass::NotNewline);
    assert(e.skip((2 + c.len()) as int) =~= Seq::<char>::empty());
    assert(lex(Seq::<char>::empty()) =~= Seq::<Lexeme>::empty());
}

/// The canonical spelling of a token without text or number: punctuation as written, keywords
/// and boolean literals in the Latin script. Empty for the tokens that carry text or a number.
pub open spec fn fixed_spelling(t: Token) -> Seq<char> {
    match t {
        Token::LtParen => seq!['('],
        Token::RtParen => seq![')'],
        Token::LtBracket => seq!['['],
        Token::RtBracket => seq![']'],
        Token::LtBrace => seq!['{'],
        Token::RtBrace => seq!['}'],
        Token::Comma => seq![','],
        Token::Dot => seq!['.'],
        Token::Minus => seq!['-'],
        Token::Plus => seq!['+'],
        Token::Divide => seq!['/'],
        Token::Multiply => seq!['*'],
        Token::Assignment => seq!['='],
        Token::BiggerThan => seq!['>'],
        Token::LessThan => seq!['<'],
        Token::Negate => seq!['!'],
        Token::Equals => seq!['=', '='],
        Token::GreaterOrEqualThan => seq!['>', '='],
        Token::LesserOrEqualThan => seq!['<', '='],
        Token::ScopeResolution => seq![':'],
        Token::If => seq!['a', 'k', 'o'],
        Token::Else => seq!['i', 'n', 'a', 'č', 'e'],
        Token::Let => seq!['t', 'u', 'r', 'i'],
        Token::Function => seq!['p', 'o', 's', 'o'],
        Token::Print => seq!['b', 'e', 'k', 'n', 'i'],
        Token::Import => seq!['u', 'g', 'l', 'o', 'b', 'i'],
        Token::Return => seq!['v', 'r', 'n', 'i'],
        Token::Class => seq!['s', 'o', 'r', 't', 'a'],
        Token::Or => seq!['i', 'l', 'i'],
        Token::And => seq!['i'],
        Token::For => seq!['t', 'e', 'r', 'a', 'j'],
        Token::While => seq!['d', 'o', 'k'],
        Token::This => seq!['j', 'a'],
        Token::Super => seq!['t', 'a', 't', 'k', 'o'],
        Token::Main => seq!['g', 'a', 'z', 'd', 'a'],
        Token::Bool(true) => seq!['d', 'a', 'b', 'o', 'm', 'e'],
        Token::Bool(false) => seq!['j', 'o', 'k'],
        Token::Null => seq!['b', 'u', 'n', 'a', 'r'],
        _ => seq![],
    }
}

/// The digit that stands for `d`, for `d` from 0 to 9.
pub open spec fn digit_char(d: int) -> char {
    if d == 0 {
        '0'
    } else if d == 1 {
        '1'
    } else if d == 2 {
        '2'
    } else if d == 3 {
        '3'
    } else if d == 4 {
        '4'
    } else if d == 5 {
        '5'
    } else if d == 6 {
        '6'
    } else if d == 7 {
        '7'
    } else if d == 8 {
        '8'
    } else {
        '9'
    }
}

/// The decimal spelling of `n`, without leading zeros.
pub open spec fn decimal(n: nat) -> Seq<char>
    decreases n,
{
    if n < 10 {
        seq![digit_char(n as int)]
    } else {
        decimal(n / 10).push(digit_char((n % 10) as int))
    }
}

/// Whether `w` is spelled as a floating-point literal: digits, a dot, digits.
pub open spec fn is_decimal_spelling(w: Seq<char>) -> bool {
    let d = run(w, CharClass::Digit) as int;
    &&& 0 < d
    &&& d + 1 < w.len()
    &&& w[d] == '.'
    &&& forall|i: int| d < i < w.len() ==> is_digit(#[trigger] w[i])
}

/// Whether lexeme `l` can be written in source text that gives it back.
pub open spec fn spellable(l: Lexeme) -> bool {
    match l {
        Lexeme::Fixed(t) => fixed_spelling(t).len() > 0,
        Lexeme::Word(w) => (is_cyrillic_identifier(w) || is_latin_identifier(w)) && reserved(w) is None,
        Lexeme::Text(w) => forall|i: int| 0 <= i < w.len() ==> #[trigger] w[i] != '"',
        Lexeme::Int(n) => n >= 0,
        Lexeme::Decimal(w) => is_decimal_spelling(w),
        Lexeme::Unknown => false,
    }
}

/// How lexeme `l` is written in source text.
pub open spec fn spelling(l: Lexeme) -> Seq<char> {
    match l {
        Lexeme::Fixed(t) => fixed_spelling(t),
        Lexeme::Word(w) => w,
        Lexeme::Text(w) => seq!['"'] + w + seq!['"'],
        Lexeme::Int(n) => decimal(n as nat),
        Lexeme::Decimal(w) => w,
        Lexeme::Unknown => seq![],
    }
}

/// The spellings of `ls`, with one space between each two.
pub open spec fn spell_all(ls: Seq<Lexeme>) -> Seq<char>
    decreases ls.len(),
{
    if ls.len() == 0 {
        seq![]
    } else if ls.len() == 1 {
        spelling(ls[0])
    } else {
        spelling(ls[0]) + seq![' '] + spell_all(ls.drop_first())
    }
}

/// The decimal spelling of `n` is made of digits and is worth `n`.
pub proof fn lemma_decimal(n: nat)
    ensures
        decimal(n).len() > 0,
        forall|i: int| 0 <= i < decimal(n).len() ==> is_digit(#[trigger] decimal(n)[i]),
        decimal_value(decimal(n)) == n,
    decreases n,
{
    let s = decimal(n);
    if n < 10 {
        assert(s.drop_last() =~= Seq::<char>::empty());
        assert(decimal_value(Seq::<char>::empty()) == 0);
    } else {
        lemma_decimal(n / 10);
        assert(s.drop_last() =~= decimal(n / 10));
        assert forall|i: int| 0 <= i < s.len() implies is_digit(#[trigger] s[i]) by {
            if i < s.len() - 1 {
                assert(s[i] == decimal(n / 10)[i]);
            }
        }
    }
}

proof fn lemma_reserved_front(w: Seq<char>, y: Seq<char>)
    requires
        reserved(w) is Some,
        y.len() == 0 || y[0] == ' ',
    ensures
        item(w + y) == (Item::Lex(Lexeme::Fixed(reserved(w)->0)), w.len()),
{
    lemma_reserved_is_identifier(w);
    lemma_word_front(w, y);
    assert((w + y)[0] == w[0]);
    assert((w + y).take(w.len() as int) =~= w);
}

/// A spellable lexeme, followed by a space or by nothing, is read back as itself.
proof fn lemma_front(l: Lexeme, y: Seq<char>)
    requires
        spellable(l),
        y.len() == 0 || y[0] == ' ',
    ensures
        item(spelling(l) + y) == (Item::Lex(l), spelling(l).len()),
{
    let p = spelling(l);
    let s = p + y;
    match l {
        Lexeme::Fixed(t) => {
            assert(s[0] == p[0]);
            if p.len() > 1 {
                assert(s[1] == p[1]);
            } else if y.len() > 0 {
                assert(s[1] == y[0]);
            }
            match t {
                Token::LtParen => {},
                Token::RtParen => {},
                Token::LtBracket => {},
                Token::RtBracket => {},
                Token::LtBrace => {},
                Token::RtBrace => {},
                Token::Comma => {},
                Token::Dot => {},
                Token::Minus => {},
                Token::Plus => {},
                Token::Divide => {},
                Token::Multiply => {},
                Token::Assignment => {},
                Token::BiggerThan => {},
                Token::LessThan => {},
                Token::Negate => {},
                Token::Equals => {},
                Token::GreaterOrEqualThan => {},
                Token::LesserOrEqualThan => {},
                Token::ScopeResolution => {},
                Token::If => lemma_reserved_front(fixed_spelling(t), y),
                Token::Else => lemma_reserved_front(fixed_spelling(t), y),
                Token::Let => lemma_reserved_front(fixed_spelling(t), y),
                Token::Function => lemma_reserved_front(fixed_spelling(t), y),
                Token::Print => lemma_reserved_front(fixed_spelling(t), y),
                Token::Import => lemma_reserved_front(fixed_spelling(t), y),
                Token::Return => lemma_reserved_front(fixed_spelling(t), y),
                Token::Class => lemma_reserved_front(fixed_spelling(t), y),
                Token::Or => lemma_reserved_front(fixed_spelling(t), y),
                Token::And => lemma_reserved_front(fixed_spelling(t), y),
                Token::For => lemma_reserved_front(fixed_spelling(t), y),
                Token::While => lemma_reserved_front(fixed_spelling(t), y),
                Token::This => lemma_reserved_front(fixed_spelling(t), y),
                Token::Super => lemma_reserved_front(fixed_spelling(t), y),
                Token::Main => lemma_reserved_front(fixed_spelling(t), y),
                Token::Bool(true) => lemma_reserved_front(fixed_spelling(t), y),
                Token::Bool(false) => lemma_reserved_front(fixed_spelling(t), y),
                Token::Null => lemma_reserved_front(fixed_spelling(t), y),
                _ => {},
            }
        },
        Lexeme::Word(w) => {
            assert(s[0] == p[0]);
            lemma_word_front(w, y);
            assert(s.take(w.len() as int) =~= w);
        },
        Lexeme::Text(w) => {
            assert(s[0] == '"');
            assert(s.drop_first() =~= w + (seq!['"'] + y));
            lemma_run_within(w, seq!['"'] + y, CharClass::NotQuote);
            assert(s.subrange(1, (w.len() + 1) as int) =~= w);
        },
        Lexeme::Int(n) => {
            lemma_decimal(n as nat);
            assert(s[0] == p[0]);
            lemma_run_within(p, y, CharClass::Digit);
            if y.len() > 0 {
                assert(s[p.len() as int] == ' ');
            }
            assert(s.take(p.len() as int) =~= p);
        },
        Lexeme::Decimal(w) => {
            let d = run(w, CharClass::Digit) as int;
            assert(s[0] == p[0]);
            lemma_run_prefix(w, y, CharClass::Digit);
            assert(s[d] == w[d]);
            assert(s.skip(d + 1) =~= w.skip(d + 1) + y);
            assert forall|i: int| 0 <= i < w.skip(d + 1).len() implies class_has(
                CharClass::Digit,
                #[trigger] w.skip(d + 1)[i],
            ) by {
                assert(w.skip(d + 1)[i] == w[d + 1 + i]);
            }
            lemma_run_within(w.skip(d + 1), y, CharClass::Digit);
            assert(s.take(w.len() as int) =~= w);
        },
        Lexeme::Unknown => {},
    }
}

/// Spelling a sequence of lexemes with one space between each two, and tokenizing that text,
/// gives back the same lexemes.
pub proof fn spelled_lexemes_round_trip(ls: Seq<Lexeme>)
    requires
        forall|i: int| 0 <= i < ls.len() ==> spellable(#[trigger] ls[i]),
    ensures
        lex(spell_all(ls)) == ls,
    decreases ls.len(),
{
    if ls.len() == 0 {
        assert(lex(Seq::<char>::empty()) =~= ls);
    } else {
        let p = spelling(ls[0]);
        let rest = ls.drop_first();
        let y = if ls.len() == 1 {
            Seq::<char>::empty()
        } else {
            seq![' '] + spell_all(rest)
        };
        assert(spellable(ls[0]));
        assert(spell_all(ls) =~= p + y);
        if ls.len() > 1 {
            assert(y[0] == ' ');
        }
        lemma_front(ls[0], y);
        assert((p + y).skip(p.len() as int) =~= y);
        if ls.len() == 1 {
            assert(lex(Seq::<char>::empty()) =~= Seq::<Lexeme>::empty());
            assert(lex(p + y) =~= ls);
        } else {
            assert forall|i: int| 0 <= i < rest.len() implies spellable(#[trigger] rest[i]) by {
                assert(rest[i] == ls[i + 1]);
            }
            spelled_lexemes_round_trip(rest);
            lemma_blank_prefix(' ', spell_all(rest));
            assert(lex(p + y) =~= ls);
        }
    }
}

} // verus!
