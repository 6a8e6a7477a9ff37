use vstd::prelude::*;

verus! {

/// One classified lexeme of the language.
///
/// Punctuation, operators and keywords carry no payload; literals carry their decoded value.
/// A floating-point literal keeps its decimal spelling (digits, a dot, digits): turning it into
/// a binary floating-point number is left to the consumer.
#[derive(Debug, PartialEq)]
pub enum Token {
    Identifier(String),
    String(String),
    Integer(i64),
    Float(String),
    LtParen,
    RtParen,
    LtBracket,
    RtBracket,
    LtBrace,
    RtBrace,
    Comma,
    Dot,
    Minus,
    Plus,
    Divide,
    Multiply,
    Assignment,
    BiggerThan,
    LessThan,
    Negate,
    Equals,
    GreaterOrEqualThan,
    LesserOrEqualThan,
    ScopeResolution,
    If,
    Else,
    Let,
    Function,
    Print,
    Import,
    Return,
    Class,
    Or,
    And,
    For,
    While,
    This,
    Super,
    Main,
    Bool(bool),
    Null,
}

/// Why a lexeme was refused.
#[derive(Debug, PartialEq, Eq, Clone, Copy, Structural)]
pub enum LexErrorKind {
    /// No rule matches at the cursor (this includes a string literal without its closing quote).
    Unrecognized,
    /// An integer literal whose value does not fit in an `i64`.
    NumericOverflow,
}

/// A refused lexeme, with its span `start..end` counted in characters of the source.
#[derive(Debug, PartialEq, Eq, Clone, Copy, Structural)]
pub struct LexError {
    pub kind: LexErrorKind,
    pub start: usize,
    pub end: usize,
}

/// Whether `chars[start..end]` is spelled exactly as `lit`.
fn same_chars(chars: &Vec<char>, start: usize, end: usize, lit: &[char]) -> (r: bool)
    requires
        start <= end <= chars@.len(),
    ensures
        r == (chars@.subrange(start as int, end as int) == lit@),
        r ==> end - start == lit@.len(),
{
    if end - start != lit.len() {
        return false;
    }
    let mut k: usize = 0;
    while k < lit.len()
        invariant
            start <= end <= chars@.len(),
            end - start == lit@.len(),
            0 <= k <= lit@.len(),
            forall|m: int| 0 <= m < k ==> chars@[start + m] == lit@[m],
        decreases lit@.len() - k,
    {
        if chars[start + k] != lit[k] {
            return false;
        }
        k = k + 1;
    }
    assert(chars@.subrange(start as int, end as int) =~= lit@);
    true
}

/// The token that a reserved spelling stands for: a keyword, or a boolean literal.
pub open spec fn reserved(w: Seq<char>) -> Option<Token> {
    if w =~= seq!['а', 'к', 'о'] || w =~= seq!['a', 'k', 'o'] {
        Some(Token::If)
    } else if w =~= seq!['и', 'н', 'а', 'ч', 'е'] || w =~= seq!['i', 'n', 'a', 'č', 'e'] || w =~= seq!['i', 'n', 'a', 'c', 'e'] {
        Some(Token::Else)
    } else if w =~= seq!['т', 'у', 'р', 'и'] || w =~= seq!['t', 'u', 'r', 'i'] {
        Some(Token::Let)
    } else if w =~= seq!['п', 'о', 'с', 'о'] || w =~= seq!['p', 'o', 's', 'o'] {
        Some(Token::Function)
    } else if w =~= seq!['б', 'е', 'к', 'н', 'и'] || w =~= seq!['b', 'e', 'k', 'n', 'i'] {
        Some(Token::Print)
    } else if w =~= seq!['у', 'г', 'л', 'о', 'б', 'и'] || w =~= seq!['u', 'g', 'l', 'o', 'b', 'i'] {
        Some(Token::Import)
    } else if w =~= seq!['в', 'р', 'н', 'и'] || w =~= seq!['v', 'r', 'n', 'i'] {
        Some(Token::Return)
    } else if w =~= seq!['с', 'о', 'р', 'т', 'а'] || w =~= seq!['s', 'o', 'r', 't', 'a'] {
        Some(Token::Class)
    } else if w =~= seq!['и', 'л', 'и'] || w =~= seq!['i', 'l', 'i'] {
        Some(Token::Or)
    } else if w =~= seq!['и'] || w =~= seq!['i'] {
        Some(Token::And)
    } else if w =~= seq!['т', 'е', 'р', 'а', 'ј'] || w =~= seq!['t', 'e', 'r', 'a', 'j'] {
        Some(Token::For)
    } else if w =~= seq!['д', 'о', 'к'] || w =~= seq!['d', 'o', 'k'] {
        Some(Token::While)
    } else if w =~= seq!['ј', 'а'] || w =~= seq!['j', 'a'] {
        Some(Token::This)
    } else if w =~= seq!['т', 'а', 'т', 'к', 'о'] || w =~= seq!['t', 'a', 't', 'k', 'o'] {
        Some(Token::Super)
    } else if w =~= seq!['г', 'а', 'з', 'д', 'а'] || w =~= seq!['g', 'a', 'z', 'd', 'a'] {
        Some(Token::Main)
    } else if w =~= seq!['д', 'а', 'б', 'о', 'м', 'е'] || w =~= seq!['d', 'a', 'b', 'o', 'm', 'e'] {
        Some(Token::Bool(true))
    } else if w =~= seq!['ј', 'о', 'к'] || w =~= seq!['j', 'o', 'k'] {
        Some(Token::Bool(false))
    } else if w =~= seq!['б', 'у', 'н', 'а', 'р'] || w =~= seq!['b', 'u', 'n', 'a', 'r'] {
        Some(Token::Null)
    } else {
        None
    }
}

/// Looks up the spelling `chars[start..end]` among the reserved words.
pub fn reserved_at(chars: &Vec<char>, start: usize, end: usize) -> (r: Option<Token>)
    requires
        start <= end <= chars@.len(),
    ensures
        r == reserved(chars@.subrange(start as int, end as int)),
{
    if same_chars(chars, start, end, &['а', 'к', 'о']) {
        return Some(Token::If);
    }
    if same_chars(chars, start, end, &['a', 'k', 'o']) {
        return Some(Token::If);
    }
    if same_chars(chars, start, end, &['и', 'н', 'а', 'ч', 'е']) {
        return Some(Token::Else);
    }
    if same_chars(chars, start, end, &['i', 'n', 'a', 'č', 'e']) {
        return Some(Token::Else);
    }
    if same_chars(chars, start, end, &['i', 'n', 'a', 'c', 'e']) {
        return Some(Token::Else);
    }
    if same_chars(chars, start, end, &['т', 'у', 'р', 'и']) {
        return Some(Token::Let);
    }
    if same_chars(chars, start, end, &['t', 'u', 'r', 'i']) {
        return Some(Token::Let);
    }
    if same_chars(chars, start, end, &['п', 'о', 'с', 'о']) {
        return Some(Token::Function);
    }
    if same_chars(chars, start, end, &['p', 'o', 's', 'o']) {
        return Some(Token::Function);
    }
    if same_chars(chars, start, end, &['б', 'е', 'к', 'н', 'и']) {
        return Some(Token::Print);
    }
    if same_chars(chars, start, end, &['b', 'e', 'k', 'n', 'i']) {
        return Some(Token::Print);
    }
    if same_chars(chars, start, end, &['у', 'г', 'л', 'о', 'б', 'и']) {
        return Some(Token::Import);
    }
    if same_chars(chars, start, end, &['u', 'g', 'l', 'o', 'b', 'i']) {
        return Some(Token::Import);
    }
    if same_chars(chars, start, end, &['в', 'р', 'н', 'и']) {
        return Some(Token::Return);
    }
    if same_chars(chars, start, end, &['v', 'r', 'n', 'i']) {
        return Some(Token::Return);
    }
    if same_chars(chars, start, end, &['с', 'о', 'р', 'т', 'а']) {
        return Some(Token::Class);
    }
    if same_chars(chars, start, end, &['s', 'o', 'r', 't', 'a']) {
        return Some(Token::Class);
    }
    if same_chars(chars, start, end, &['и', 'л', 'и']) {
        return Some(Token::Or);
    }
    if same_chars(chars, start, end, &['i', 'l', 'i']) {
        return Some(Token::Or);
    }
    proof {
        let w = chars@.subrange(start as int, end as int);
        if w.len() == 1 {
            assert(w[0] == chars@[start as int]);
        }
    }
    if end - start == 1 && chars[start] == 'и' {
        return Some(Token::And);
    }
    if end - start == 1 && chars[start] == 'i' {
        return Some(Token::And);
    }
    if same_chars(chars, start, end, &['т', 'е', 'р', 'а', 'ј']) {
        return Some(Token::For);
    }
    if same_chars(chars, start, end, &['t', 'e', 'r', 'a', 'j']) {
        return Some(Token::For);
    }
    if same_chars(chars, start, end, &['д', 'о', 'к']) {
        return Some(Token::While);
    }
    if same_chars(chars, start, end, &['d', 'o', 'k']) {
        return Some(Token::While);
    }
    if same_chars(chars, start, end, &['ј', 'а']) {
        return Some(Token::This);
    }
    if same_chars(chars, start, end, &['j', 'a']) {
        return Some(Token::This);
    }
    if same_chars(chars, start, end, &['т', 'а', 'т', 'к', 'о']) {
        return Some(Token::Super);
    }
    if same_chars(chars, start, end, &['t', 'a', 't', 'k', 'o']) {
        return Some(Token::Super);
    }
    if same_chars(chars, start, end, &['г', 'а', 'з', 'д', 'а']) {
        return Some(Token::Main);
    }
    if same_chars(chars, start, end, &['g', 'a', 'z', 'd', 'a']) {
        return Some(Token::Main);
    }
    if same_chars(chars, start, end, &['д', 'а', 'б', 'о', 'м', 'е']) {
        return Some(Token::Bool(true));
    }
    if same_chars(chars, start, end, &['d', 'a', 'b', 'o', 'm', 'e']) {
        return Some(Token::Bool(true));
    }
    if same_chars(chars, start, end, &['ј', 'о', 'к']) {
        return Some(Token::Bool(false));
    }
    if same_chars(chars, start, end, &['j', 'o', 'k']) {
        return Some(Token::Bool(false));
    }
    if same_chars(chars, start, end, &['б', 'у', 'н', 'а', 'р']) {
        return Some(Token::Null);
    }
    if same_chars(chars, start, end, &['b', 'u', 'n', 'a', 'r']) {
        return Some(Token::Null);
    }
    None
}

} // verus!
