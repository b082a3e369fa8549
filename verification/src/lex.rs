//! The lexical grammar of one line, and a verified tokenizer for it.
//!
//! Tokens: unsigned decimal literals; identifiers (an ASCII letter or `_`,
//! followed by ASCII letters, digits or `_` — the naming rule of the
//! variable environment is deliberately not enforced here, it is re-checked
//! when a name is used); the operators `+ - * / ^`; parentheses; and `=`.
//! Spaces, tabs and line breaks are insignificant, and `#` starts a comment
//! running to the end of the line.

use vstd::prelude::*;
use crate::bigint::big_from_decimal;
use crate::bigint::dec_val;
use crate::bigint::is_digit;
use crate::bigint::Integer;
use crate::error::Expected;
use crate::error::ParseFailure;
use crate::sem::is_alpha;
use vstd::string::StrSliceExecFns;

verus! {

/// What one token is.
pub enum TokKind {
    /// An unsigned decimal literal, already resolved to its value.
    Num(Integer),
    /// An identifier.
    Ident(String),
    Plus,
    Minus,
    Star,
    Slash,
    Caret,
    LParen,
    RParen,
    Eq,
}

/// One token, with the character index at which it starts.
pub struct Token {
    pub kind: TokKind,
    pub at: usize,
}

/// The specification-level image of a [`TokKind`].
pub enum TokKV {
    Num(int),
    Ident(Seq<char>),
    Plus,
    Minus,
    Star,
    Slash,
    Caret,
    LParen,
    RParen,
    Eq,
}

/// The specification-level image of a [`Token`].
pub struct TokV {
    pub kind: TokKV,
    pub at: int,
}

impl View for TokKind {
    type V = TokKV;

    open spec fn view(&self) -> TokKV {
        match self {
            TokKind::Num(b) => TokKV::Num(b@),
            TokKind::Ident(s) => TokKV::Ident(s@),
            TokKind::Plus => TokKV::Plus,
            TokKind::Minus => TokKV::Minus,
            TokKind::Star => TokKV::Star,
            TokKind::Slash => TokKV::Slash,
            TokKind::Caret => TokKV::Caret,
            TokKind::LParen => TokKV::LParen,
            TokKind::RParen => TokKV::RParen,
            TokKind::Eq => TokKV::Eq,
        }
    }
}

impl View for Token {
    type V = TokV;

    open spec fn view(&self) -> TokV {
        TokV { kind: self.kind@, at: self.at as int }
    }
}

/// The image of a token sequence.
pub open spec fn toks_view(s: Seq<Token>) -> Seq<TokV> {
    Seq::new(s.len(), |i: int| s[i]@)
}

/// Whether a character is insignificant between tokens.
pub open spec fn is_ws(c: char) -> bool {
    c == ' ' || c == '\t' || c == '\r' || c == '\n'
}

/// Whether a character may start an identifier.
pub open spec fn is_ident_start(c: char) -> bool {
    is_alpha(c) || c == '_'
}

/// Whether a character may continue an identifier.
pub open spec fn is_ident_char(c: char) -> bool {
    is_alpha(c) || is_digit(c) || c == '_'
}

/// The single-character token starting with `c`, if any.
pub open spec fn punct_of(c: char) -> Option<TokKV> {
    if c == '+' {
        Some(TokKV::Plus)
    } else if c == '-' {
        Some(TokKV::Minus)
    } else if c == '*' {
        Some(TokKV::Star)
    } else if c == '/' {
        Some(TokKV::Slash)
    } else if c == '^' {
        Some(TokKV::Caret)
    } else if c == '(' {
        Some(TokKV::LParen)
    } else if c == ')' {
        Some(TokKV::RParen)
    } else if c == '=' {
        Some(TokKV::Eq)
    } else {
        None
    }
}

/// The end of the run of decimal digits starting at `i`.
pub open spec fn digits_end(s: Seq<char>, i: int) -> int
    decreases s.len() - i,
{
    if 0 <= i < s.len() && is_digit(s[i]) {
        digits_end(s, i + 1)
    } else {
        i
    }
}

/// The end of the run of identifier characters starting at `i`.
pub open spec fn ident_end(s: Seq<char>, i: int) -> int
    decreases s.len() - i,
{
    if 0 <= i < s.len() && is_ident_char(s[i]) {
        ident_end(s, i + 1)
    } else {
        i
    }
}

/// Bounds and contents of a digit run.
pub proof fn lemma_digits_end(s: Seq<char>, i: int)
    ensures
        i <= digits_end(s, i),
        i <= s.len() ==> digits_end(s, i) <= s.len(),
        forall|m: int| i <= m < digits_end(s, i) ==> is_digit(#[trigger] s[m]),
        0 <= digits_end(s, i) < s.len() ==> !is_digit(s[digits_end(s, i)]),
    decreases s.len() - i,
{
    if 0 <= i < s.len() && is_digit(s[i]) {
        lemma_digits_end(s, i + 1);
    }
}

/// Bounds and contents of an identifier run.
pub proof fn lemma_ident_end(s: Seq<char>, i: int)
    ensures
        i <= ident_end(s, i),
        i <= s.len() ==> ident_end(s, i) <= s.len(),
        forall|m: int| i <= m < ident_end(s, i) ==> is_ident_char(#[trigger] s[m]),
        0 <= ident_end(s, i) < s.len() ==> !is_ident_char(s[ident_end(s, i)]),
    decreases s.len() - i,
{
    if 0 <= i < s.len() && is_ident_char(s[i]) {
        lemma_ident_end(s, i + 1);
    }
}

/// The tokens of the line from character `i` on, or the index of the first
/// character at which no token starts.
pub open spec fn spec_lex(s: Seq<char>, i: int) -> Result<Seq<TokV>, int>
    decreases s.len() - i,
    via spec_lex_dec
{
    if i < 0 || i >= s.len() {
        Ok(Seq::empty())
    } else {
        let c = s[i];
        if is_ws(c) {
            spec_lex(s, i + 1)
        } else if c == '#' {
            Ok(Seq::empty())
        } else if is_digit(c) {
            let j = digits_end(s, i + 1);
            match spec_lex(s, j) {
                Ok(rest) => Ok(
                    seq![TokV { kind: TokKV::Num(dec_val(s.subrange(i, j))), at: i }] + rest,
                ),
                Err(e) => Err(e),
            }
        } else if is_ident_start(c) {
            let j = ident_end(s, i + 1);
            match spec_lex(s, j) {
                Ok(rest) => Ok(seq![TokV { kind: TokKV::Ident(s.subrange(i, j)), at: i }] + rest),
                Err(e) => Err(e),
            }
        } else {
            match punct_of(c) {
                Some(k) => match spec_lex(s, i + 1) {
                    Ok(rest) => Ok(seq![TokV { kind: k, at: i }] + rest),
                    Err(e) => Err(e),
                },
                None => Err(i),
            }
        }
    }
}

#[via_fn]
proof fn spec_lex_dec(s: Seq<char>, i: int) {
    lemma_digits_end(s, i + 1);
    lemma_ident_end(s, i + 1);
}

/// Joins already-produced tokens with the outcome of lexing the rest.
pub open spec fn lex_join(done: Seq<TokV>, rest: Result<Seq<TokV>, int>) -> Result<
    Seq<TokV>,
    int,
> {
    match rest {
        Ok(r) => Ok(done + r),
        Err(e) => Err(e),
    }
}

/// Tokenizes one line.
pub fn lex_line(s: &str) -> (r: Result<Vec<Token>, ParseFailure>)
    ensures
        match spec_lex(s@, 0) {
            Ok(tv) => r matches Ok(toks) && toks_view(toks@) == tv,
            Err(at) => r matches Err(f) && f@.at == at && f.expected == Expected::Token,
        },
{
    let n = s.unicode_len();
    let mut toks: Vec<Token> = Vec::new();
    let mut i: usize = 0;
    loop
        invariant
            i <= n,
            n == s@.len(),
            spec_lex(s@, 0) == lex_join(toks_view(toks@), spec_lex(s@, i as int)),
        ensures
            i == n,
            spec_lex(s@, 0) == lex_join(toks_view(toks@), spec_lex(s@, i as int)),
        decreases n - i,
    {
        if i >= n {
            break ;
        }
        let ghost i0 = i as int;
        let c = s.get_char(i);
        let u = c as u32;
        if u == 32 || u == 9 || u == 13 || u == 10 {
            i = i + 1;
            proof {
                assert(spec_lex(s@, i0) == spec_lex(s@, i as int));
            }
        } else if u == 35 {
            // a comment runs to the end of the line
            proof {
                assert(spec_lex(s@, i0) == Ok::<Seq<TokV>, int>(Seq::empty()));
                assert(toks_view(toks@) + Seq::<TokV>::empty() =~= toks_view(toks@));
            }
            return Ok(toks);
        } else if 48 <= u && u <= 57 {
            let mut j: usize = i + 1;
            loop
                invariant
                    i < j <= n,
                    n == s@.len(),
                    digits_end(s@, i0 + 1) == digits_end(s@, j as int),
                    forall|m: int| i0 + 1 <= m < j ==> is_digit(#[trigger] s@[m]),
                    i0 == i as int,
                    is_digit(s@[i0]),
                ensures
                    i < j <= n,
                    j as int == digits_end(s@, i0 + 1),
                    forall|m: int| i0 + 1 <= m < j ==> is_digit(#[trigger] s@[m]),
                decreases n - j,
            {
                if j >= n {
                    proof {
                        assert(digits_end(s@, j as int) == j as int);
                    }
                    break ;
                }
                let d = s.get_char(j);
                let du = d as u32;
                if 48 <= du && du <= 57 {
                    j = j + 1;
                } else {
                    proof {
                        assert(!is_digit(s@[j as int]));
                        assert(digits_end(s@, j as int) == j as int);
                    }
                    break ;
                }
            }
            let sub = s.substring_char(i, j);
            let v = big_from_decimal(sub);
            let ghost before = toks_view(toks@);
            toks.push(Token { kind: TokKind::Num(v), at: i });
            proof {
                assert(toks_view(toks@) =~= before + seq![
                    TokV { kind: TokKV::Num(dec_val(s@.subrange(i0, j as int))), at: i0 },
                ]);
                lemma_lex_join_shift();
            }
            i = j;
        } else if (65 <= u && u <= 90) || (97 <= u && u <= 122) || u == 95 {
            let mut j: usize = i + 1;
            loop
                invariant
                    i < j <= n,
                    n == s@.len(),
                    ident_end(s@, i0 + 1) == ident_end(s@, j as int),
                    i0 == i as int,
                ensures
                    i < j <= n,
                    j as int == ident_end(s@, i0 + 1),
                decreases n - j,
            {
                if j >= n {
                    proof {
                        assert(ident_end(s@, j as int) == j as int);
                    }
                    break ;
                }
                let d = s.get_char(j);
                let du = d as u32;
                if (65 <= du && du <= 90) || (97 <= du && du <= 122) || (48 <= du && du <= 57)
                    || du == 95 {
                    j = j + 1;
                } else {
                    proof {
                        assert(!is_ident_char(s@[j as int]));
                        assert(ident_end(s@, j as int) == j as int);
                    }
                    break ;
                }
            }
            let sub = s.substring_char(i, j);
            let name = sub.to_owned();
            let ghost before = toks_view(toks@);
            toks.push(Token { kind: TokKind::Ident(name), at: i });
            proof {
                assert(toks_view(toks@) =~= before + seq![
                    TokV { kind: TokKV::Ident(s@.subrange(i0, j as int)), at: i0 },
                ]);
                lemma_lex_join_shift();
            }
            i = j;
        } else {
            let kind = if u == 43 {
                Some(TokKind::Plus)
            } else if u == 45 {
                Some(TokKind::Minus)
            } else if u == 42 {
                Some(TokKind::Star)
            } else if u == 47 {
                Some(TokKind::Slash)
            } else if u == 94 {
                Some(TokKind::Caret)
            } else if u == 40 {
                Some(TokKind::LParen)
            } else if u == 41 {
                Some(TokKind::RParen)
            } else if u == 61 {
                Some(TokKind::Eq)
            } else {
                None
            };
            match kind {
                Some(k) => {
                    let ghost before = toks_view(toks@);
                    let ghost kv = k@;
                    toks.push(Token { kind: k, at: i });
                    proof {
                        assert(punct_of(s@[i0]) == Some(kv));
                        assert(toks_view(toks@) =~= before + seq![TokV { kind: kv, at: i0 }]);
                        lemma_lex_join_shift();
                    }
                    i = i + 1;
                },
                None => {
                    proof {
                        assert(punct_of(s@[i0]) is None);
                        assert(spec_lex(s@, i0) == Err::<Seq<TokV>, int>(i0));
                    }
                    return Err(ParseFailure { at: i, expected: Expected::Token });
                },
            }
        }
    }
    proof {
        assert(spec_lex(s@, i as int) == Ok::<Seq<TokV>, int>(Seq::empty()));
        assert(toks_view(toks@) + Seq::<TokV>::empty() =~= toks_view(toks@));
    }
    Ok(toks)
}

/// Consing one produced token onto the joined rest keeps the join equal.
proof fn lemma_lex_join_shift()
    ensures
        forall|d1: Seq<TokV>, d2: Seq<TokV>, rest: Result<Seq<TokV>, int>|
            lex_join(d1 + d2, rest) == lex_join(
                d1,
                match rest {
                    Ok(rr) => Ok::<Seq<TokV>, int>(d2 + rr),
                    Err(e) => Err(e),
                },
            ),
{
    assert forall|d1: Seq<TokV>, d2: Seq<TokV>, rest: Result<Seq<TokV>, int>|
        lex_join(d1 + d2, rest) == lex_join(
            d1,
            match rest {
                Ok(rr) => Ok::<Seq<TokV>, int>(d2 + rr),
                Err(e) => Err(e),
            },
        ) by {
        match rest {
            Ok(rr) => {
                assert((d1 + d2) + rr =~= d1 + (d2 + rr));
            },
            Err(_) => {},
        }
    }
}

} // verus!
