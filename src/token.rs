//! The assembler's tokens, and the line splitter that produces them.
use vstd::prelude::*;
use crate::parser::chars_eq;

verus! {

/// Reads float literals. Floating point lies outside this library: a
/// program that assembles source supplies an implementation, which gives
/// the literal's bit pattern, or `None` when `text` is no float literal.
pub trait FloatSyntax {
    fn parse_float(&self, text: &[char]) -> Option<u64>;
}

/// A token of the assembler. Float literals hold their bit pattern.
#[derive(Debug)]
pub enum Token {
    FUNC,
    DEFINE,
    INCLUDE,
    ENDFUNC,
    INT(i64),
    DECIMAL(u64),
    STRING(Vec<char>),
    IDENT(Vec<char>),
    LABEL(Vec<char>),
    ATTR(Vec<char>),
    PLUS,
    MINUS,
    OFFSET(Vec<char>),
}

/// The value of digit `c` in base `radix`, if it is one.
pub open spec fn digit_value(c: char, radix: u32) -> Option<int> {
    let v: int = if '0' <= c <= '9' {
        c as int - '0' as int
    } else if 'a' <= c <= 'z' {
        c as int - 'a' as int + 10
    } else if 'A' <= c <= 'Z' {
        c as int - 'A' as int + 10
    } else {
        radix as int
    };
    if v < radix {
        Some(v)
    } else {
        None
    }
}

/// Whether every character of `s` is a digit in base `radix`.
pub open spec fn all_digits(s: Seq<char>, radix: u32) -> bool {
    forall|k: int| 0 <= k < s.len() ==> digit_value(#[trigger] s[k], radix) is Some
}

/// The number that the digits `s` write in base `radix`.
pub open spec fn digits_value(s: Seq<char>, radix: u32) -> int
    decreases s.len(),
{
    if s.len() == 0 {
        0
    } else {
        digits_value(s.drop_last(), radix) * radix + digit_value(s.last(), radix)->Some_0
    }
}

/// The integer that `s` writes in base `radix`: an optional sign, then one
/// or more digits, the value within `i64`.
pub open spec fn parse_radix(s: Seq<char>, radix: u32) -> Option<i64> {
    let neg = s.len() > 0 && s[0] == '-';
    let digits = if s.len() > 0 && (s[0] == '-' || s[0] == '+') {
        s.drop_first()
    } else {
        s
    };
    let v = if neg {
        -digits_value(digits, radix)
    } else {
        digits_value(digits, radix)
    };
    if digits.len() > 0 && all_digits(digits, radix) && i64::MIN <= v <= i64::MAX {
        Some(v as i64)
    } else {
        None
    }
}

/// Above every magnitude that fits in an `i64`.
const CAP: u128 = 0x8000_0000_0000_0001;

proof fn lemma_digits_nonneg(s: Seq<char>, radix: u32)
    requires
        2 <= radix <= 36,
        all_digits(s, radix),
    ensures
        digits_value(s, radix) >= 0,
    decreases s.len(),
{
    if s.len() > 0 {
        assert(all_digits(s.drop_last(), radix)) by {
            assert forall|k: int| 0 <= k < s.drop_last().len() implies digit_value(
                #[trigger] s.drop_last()[k],
                radix,
            ) is Some by {
                assert(s.drop_last()[k] == s[k]);
            }
        }
        lemma_digits_nonneg(s.drop_last(), radix);
        assert(digit_value(s[s.len() - 1], radix) is Some);
        let p = digits_value(s.drop_last(), radix);
        assert(p * radix >= 0) by (nonlinear_arith)
            requires
                p >= 0,
                radix >= 2,
        ;
    }
}

/// Reads `s` as an integer in base `radix`, as `i64::from_str_radix` does.
pub fn parse_int(s: &[char], radix: u32) -> (r: Option<i64>)
    requires
        2 <= radix <= 36,
    ensures
        r == parse_radix(s@, radix),
{
    let n = s.len();
    let neg = n > 0 && s[0] == '-';
    let start: usize = if n > 0 && (s[0] == '-' || s[0] == '+') {
        1
    } else {
        0
    };
    let ghost digits = s@.subrange(start as int, n as int);
    assert(digits =~= if s@.len() > 0 && (s@[0] == '-' || s@[0] == '+') {
        s@.drop_first()
    } else {
        s@
    });
    if start == n {
        return None;
    }
    let mut acc: u128 = 0;
    let mut i: usize = start;
    while i < n
        invariant
            start <= i <= n,
            n == s@.len(),
            digits == s@.subrange(start as int, n as int),
            digits == if s@.len() > 0 && (s@[0] == '-' || s@[0] == '+') {
                s@.drop_first()
            } else {
                s@
            },
            2 <= radix <= 36,
            all_digits(s@.subrange(start as int, i as int), radix),
            acc <= CAP,
            acc == if digits_value(s@.subrange(start as int, i as int), radix) < CAP {
                digits_value(s@.subrange(start as int, i as int), radix)
            } else {
                CAP as int
            },
        decreases n - i,
    {
        let c = s[i];
        let v: u32 = if '0' <= c && c <= '9' {
            (c as u32) - ('0' as u32)
        } else if 'a' <= c && c <= 'z' {
            (c as u32) - ('a' as u32) + 10
        } else if 'A' <= c && c <= 'Z' {
            (c as u32) - ('A' as u32) + 10
        } else {
            radix
        };
        let ghost pre = s@.subrange(start as int, i as int);
        let ghost next = s@.subrange(start as int, i + 1);
        assert(next.drop_last() =~= pre);
        assert(next.last() == c);
        if v >= radix {
            assert(digits[i - start] == c);
            assert(!all_digits(digits, radix));
            return None;
        }
        proof {
            lemma_digits_nonneg(pre, radix);
            assert(all_digits(next, radix)) by {
                assert forall|k: int| 0 <= k < next.len() implies digit_value(#[trigger] next[k], radix) is Some by {
                    if k < pre.len() {
                        assert(next[k] == pre[k]);
                    }
                }
            }
        }
        let ghost pv = digits_value(pre, radix);
        if acc >= CAP {
            assert(pv >= CAP);
            assert(pv * radix + v >= CAP) by (nonlinear_arith)
                requires
                    pv >= CAP,
                    radix >= 2,
                    v >= 0,
            ;
        } else {
            assert(acc * (radix as u128) + (v as u128) < 0x1_0000_0000_0000_0000_0000u128) by (nonlinear_arith)
                requires
                    acc < CAP,
                    radix <= 36,
                    v < 36,
            ;
            let w = acc * (radix as u128) + (v as u128);
            acc = if w >= CAP {
                CAP
            } else {
                w
            };
        }
        i = i + 1;
    }
    assert(s@.subrange(start as int, n as int) =~= digits);
    if neg {
        if acc <= 0x8000_0000_0000_0000 {
            if acc == 0x8000_0000_0000_0000 {
                Some(i64::MIN)
            } else {
                Some(-(acc as i64))
            }
        } else {
            None
        }
    } else {
        if acc <= 0x7fff_ffff_ffff_ffff {
            Some(acc as i64)
        } else {
            None
        }
    }
}

/// What the text of a token makes.
pub enum Shape {
    Int(i64),
    Str(Seq<char>),
    Attr(Seq<char>),
    Offset(Seq<char>),
    Label(Seq<char>),
    Func,
    End,
    Define,
    Include,
    /// A float literal or an identifier: which, the float syntax decides.
    Word,
}

/// The shape of the token text `t`, or the error it gives.
pub open spec fn token_shape(t: Seq<char>) -> Result<Shape, Seq<char>> {
    if t.len() == 0 {
        Err("Empty token"@)
    } else if t.len() >= 2 && t[0] == '0' && t[1] == 'x' {
        match parse_radix(t.subrange(2, t.len() as int), 16) {
            Some(v) => Ok(Shape::Int(v)),
            None => Err("Malformed hexadecimal integer"@),
        }
    } else if t.len() >= 2 && t[0] == '0' && t[1] == 'b' {
        match parse_radix(t.subrange(2, t.len() as int), 2) {
            Some(v) => Ok(Shape::Int(v)),
            None => Err("Malformed binary integer"@),
        }
    } else if t[0] == '\'' || t[0] == '"' {
        Ok(Shape::Str(t.drop_first()))
    } else if t[0] == '.' {
        Ok(Shape::Attr(t.drop_first()))
    } else if t[0] == '[' {
        Ok(Shape::Offset(t.drop_first()))
    } else if t.last() == ':' {
        Ok(Shape::Label(t.drop_last()))
    } else if t == "func"@ {
        Ok(Shape::Func)
    } else if t == "end"@ {
        Ok(Shape::End)
    } else if t == "define"@ {
        Ok(Shape::Define)
    } else if t == "include"@ {
        Ok(Shape::Include)
    } else {
        match parse_radix(t, 10) {
            Some(v) => Ok(Shape::Int(v)),
            None => Ok(Shape::Word),
        }
    }
}

/// A character that may stand in a float literal's number.
pub open spec fn numeric_char(c: char) -> bool {
    ('0' <= c <= '9') || c == '.' || c == 'e' || c == 'E' || c == '+' || c == '-'
}

/// Whether `t` spells `lo` with each letter in lower or upper case.
pub open spec fn ci_eq(t: Seq<char>, lo: Seq<char>, up: Seq<char>) -> bool {
    t.len() == lo.len() && t.len() == up.len() && forall|i: int| 0 <= i < t.len() ==> t[i] == lo[i] || t[i] == up[i]
}

/// `t` without a leading sign.
pub open spec fn unsigned_part(t: Seq<char>) -> Seq<char> {
    if t.len() > 0 && (t[0] == '+' || t[0] == '-') {
        t.drop_first()
    } else {
        t
    }
}

/// Whether `t` may be a float literal: only digits, points, exponent
/// letters and signs with at least one digit, or a signed `inf`,
/// `infinity` or `nan` in any case. Every float literal is such a text.
pub open spec fn float_candidate(t: Seq<char>) -> bool {
    let w = unsigned_part(t);
    ||| (forall|i: int| 0 <= i < t.len() ==> numeric_char(#[trigger] t[i])) && exists|i: int|
        0 <= i < t.len() && '0' <= #[trigger] t[i] <= '9'
    ||| ci_eq(w, "inf"@, "INF"@)
    ||| ci_eq(w, "infinity"@, "INFINITY"@)
    ||| ci_eq(w, "nan"@, "NAN"@)
}

/// Whether `t` spells `lo` with each letter in lower or upper case.
fn chars_ci_eq(t: &[char], lo: &str, up: &str) -> (r: bool)
    ensures
        r == ci_eq(t@, lo@, up@),
{
    let n = lo.unicode_len();
    if t.len() != n || up.unicode_len() != n {
        return false;
    }
    let mut i: usize = 0;
    while i < n
        invariant
            i <= n,
            n == lo@.len(),
            n == up@.len(),
            t@.len() == n,
            forall|j: int| 0 <= j < i ==> t@[j] == lo@[j] || t@[j] == up@[j],
        decreases n - i,
    {
        if t[i] != lo.get_char(i) && t[i] != up.get_char(i) {
            return false;
        }
        i = i + 1;
    }
    true
}

/// Whether `t` may be a float literal.
pub fn is_float_candidate(t: &[char]) -> (r: bool)
    ensures
        r == float_candidate(t@),
{
    let n = t.len();
    let mut all = true;
    let mut digit = false;
    let mut i: usize = 0;
    while i < n
        invariant
            i <= n == t@.len(),
            all == forall|j: int| 0 <= j < i ==> numeric_char(#[trigger] t@[j]),
            digit == exists|j: int| 0 <= j < i && '0' <= #[trigger] t@[j] <= '9',
        decreases n - i,
    {
        let c = t[i];
        if !(('0' <= c && c <= '9') || c == '.' || c == 'e' || c == 'E' || c == '+' || c == '-') {
            all = false;
        }
        if '0' <= c && c <= '9' {
            digit = true;
        }
        proof {
            if !all {
                if numeric_char(c) {
                    let j = choose|j: int| 0 <= j < i && !numeric_char(#[trigger] t@[j]);
                    assert(!numeric_char(t@[j]));
                }
            }
            if !digit {
                assert forall|j: int| 0 <= j < i + 1 implies !('0' <= #[trigger] t@[j] <= '9') by {}
            }
        }
        i = i + 1;
    }
    if all && digit {
        return true;
    }
    let start: usize = if n > 0 && (t[0] == '+' || t[0] == '-') {
        1
    } else {
        0
    };
    let w = copy_chars(t, start, n);
    assert(w@ =~= unsigned_part(t@));
    chars_ci_eq(w.as_slice(), "inf", "INF") || chars_ci_eq(w.as_slice(), "infinity", "INFINITY")
        || chars_ci_eq(w.as_slice(), "nan", "NAN")
}

/// Whether `tok` is what `Token::new` may make of the text `t`.
pub open spec fn fits(tok: Token, t: Seq<char>) -> bool {
    match token_shape(t) {
        Err(_) => false,
        Ok(shape) => match shape {
            Shape::Int(v) => tok is INT && tok->INT_0 == v,
            Shape::Str(x) => tok is STRING && tok->STRING_0@ == x,
            Shape::Attr(x) => tok is ATTR && tok->ATTR_0@ == x,
            Shape::Offset(x) => tok is OFFSET && tok->OFFSET_0@ == x,
            Shape::Label(x) => tok is LABEL && tok->LABEL_0@ == x,
            Shape::Func => tok is FUNC,
            Shape::End => tok is ENDFUNC,
            Shape::Define => tok is DEFINE,
            Shape::Include => tok is INCLUDE,
            Shape::Word => if float_candidate(t) {
                tok is DECIMAL || (tok is IDENT && tok->IDENT_0@ == t)
            } else {
                tok is IDENT && tok->IDENT_0@ == t
            },
        },
    }
}

/// The characters `s[from..to]`.
pub fn copy_chars(s: &[char], from: usize, to: usize) -> (r: Vec<char>)
    requires
        from <= to <= s@.len(),
    ensures
        r@ == s@.subrange(from as int, to as int),
{
    let mut v: Vec<char> = Vec::new();
    let mut i = from;
    while i < to
        invariant
            from <= i <= to <= s@.len(),
            v@ =~= s@.subrange(from as int, i as int),
        decreases to - i,
    {
        v.push(s[i]);
        i = i + 1;
    }
    v
}

impl Token {
    /// Makes a token of the text `token`: a hexadecimal (`0x`) or binary
    /// (`0b`) integer, a string (opening quote), an attribute (`.`), an
    /// offset (`[`), a label (closing `:`), a keyword, a decimal integer, a
    /// float literal as `floats` reads it, or else an identifier. Only a
    /// text that may be a float literal is shown to `floats`; every other
    /// word is an identifier.
    pub fn new<F: FloatSyntax>(token: &[char], floats: &F) -> (r: Result<Token, &'static str>)
        ensures
            r is Ok <==> token_shape(token@) is Ok,
            r is Ok ==> fits(r->Ok_0, token@),
            r is Err ==> r->Err_0@ == token_shape(token@)->Err_0,
    {
        let n = token.len();
        if n == 0 {
            return Err("Empty token");
        }
        if n >= 2 && token[0] == '0' && token[1] == 'x' {
            let digits = copy_chars(token, 2, n);
            return match parse_int(digits.as_slice(), 16) {
                Some(v) => Ok(Token::INT(v)),
                None => Err("Malformed hexadecimal integer"),
            };
        }
        if n >= 2 && token[0] == '0' && token[1] == 'b' {
            let digits = copy_chars(token, 2, n);
            return match parse_int(digits.as_slice(), 2) {
                Some(v) => Ok(Token::INT(v)),
                None => Err("Malformed binary integer"),
            };
        }
        let first = token[0];
        if first == '\'' || first == '"' {
            return Ok(Token::STRING(copy_chars(token, 1, n)));
        }
        if first == '.' {
            return Ok(Token::ATTR(copy_chars(token, 1, n)));
        }
        if first == '[' {
            return Ok(Token::OFFSET(copy_chars(token, 1, n)));
        }
        if token[n - 1] == ':' {
            return Ok(Token::LABEL(copy_chars(token, 0, n - 1)));
        }
        if chars_eq(token, "func") {
            return Ok(Token::FUNC);
        }
        if chars_eq(token, "end") {
            return Ok(Token::ENDFUNC);
        }
        if chars_eq(token, "define") {
            return Ok(Token::DEFINE);
        }
        if chars_eq(token, "include") {
            return Ok(Token::INCLUDE);
        }
        assert(token@.subrange(0, n as int) =~= token@);
        match parse_int(token, 10) {
            Some(v) => Ok(Token::INT(v)),
            None => if is_float_candidate(token) {
                match floats.parse_float(token) {
                    Some(bits) => Ok(Token::DECIMAL(bits)),
                    None => Ok(Token::IDENT(copy_chars(token, 0, n))),
                }
            } else {
                Ok(Token::IDENT(copy_chars(token, 0, n)))
            },
        }
    }
}

/// A piece of a split line: the text of a token, or a sign.
pub enum Piece {
    Text(Seq<char>),
    Plus,
    Minus,
}

/// The state of the line splitter.
pub struct Split {
    pub pieces: Seq<Piece>,
    /// Inside a string literal.
    pub instr: bool,
    /// After a first `/`.
    pub comm: bool,
    /// Reading an attribute name.
    pub attr: bool,
    /// Inside `[...]`.
    pub inexpr: bool,
    pub buf: Seq<char>,
    /// 0 reading, 1 stopped at the end of the line, 2 stopped at a comment,
    /// 3 stopped on the error `err`.
    pub stop: u8,
    pub err: Seq<char>,
}

pub open spec fn split_start() -> Split {
    Split {
        pieces: Seq::empty(),
        instr: false,
        comm: false,
        attr: false,
        inexpr: false,
        buf: Seq::empty(),
        stop: 0,
        err: Seq::empty(),
    }
}

pub open spec fn split_fail(st: Split, msg: Seq<char>) -> Split {
    Split { stop: 3, err: msg, ..st }
}

/// The splitter after handing the text `t` on as a token.
pub open spec fn push_text(st: Split, t: Seq<char>) -> Split {
    match token_shape(t) {
        Err(msg) => split_fail(st, msg),
        Ok(_) => Split { pieces: st.pieces.push(Piece::Text(t)), ..st },
    }
}

/// The text in the buffer, if any, handed on as a token.
pub open spec fn flush(st: Split) -> Split {
    if st.buf.len() == 0 {
        st
    } else {
        push_text(st, st.buf)
    }
}

/// One character through the splitter.
pub open spec fn split_step(st: Split, c: char) -> Split {
    if c == ' ' || c == '\n' {
        if c == ' ' && st.attr {
            if st.buf.len() == 0 {
                split_fail(st, "Attribute name expected"@)
            } else {
                let t = push_text(st, st.buf);
                if t.stop == 3 {
                    t
                } else {
                    Split { attr: false, buf: Seq::empty(), ..t }
                }
            }
        } else if st.buf.len() == 0 {
            if c == ' ' {
                st
            } else {
                Split { stop: 1, ..st }
            }
        } else if st.instr || st.inexpr {
            Split { buf: st.buf.push(c), ..st }
        } else {
            let t = push_text(st, st.buf);
            if t.stop == 3 {
                t
            } else if c == '\n' {
                Split { stop: 1, ..t }
            } else {
                Split { buf: Seq::empty(), ..t }
            }
        }
    } else if c == '.' {
        if st.buf.len() != 0 {
            Split { buf: st.buf.push(c), ..st }
        } else {
            Split { buf: st.buf.push(c), attr: true, ..st }
        }
    } else if c == '[' {
        if st.inexpr {
            split_fail(st, "Nested offsets are not allowed"@)
        } else {
            let t = flush(st);
            if t.stop == 3 {
                t
            } else {
                Split { inexpr: true, buf: t.buf.push(c), ..t }
            }
        }
    } else if c == '+' || c == '-' {
        if st.inexpr {
            Split { buf: st.buf.push(c), ..st }
        } else {
            let t = flush(st);
            if t.stop == 3 {
                t
            } else {
                Split {
                    pieces: t.pieces.push(
                        if c == '+' {
                            Piece::Plus
                        } else {
                            Piece::Minus
                        },
                    ),
                    ..t
                }
            }
        }
    } else if c == ']' {
        if st.buf.len() == 0 {
            split_fail(st, "Empty offset"@)
        } else {
            let t = push_text(Split { inexpr: false, ..st }, st.buf);
            if t.stop == 3 {
                t
            } else {
                Split { buf: Seq::empty(), ..t }
            }
        }
    } else if c == '/' {
        if st.comm {
            let t = flush(st);
            if t.stop == 3 {
                t
            } else {
                Split { stop: 2, ..t }
            }
        } else {
            Split { comm: true, ..st }
        }
    } else if c == '\'' || c == '"' {
        if st.instr {
            let t = push_text(st, st.buf);
            if t.stop == 3 {
                t
            } else {
                Split { buf: Seq::empty(), instr: false, ..t }
            }
        } else {
            Split { instr: true, buf: st.buf.push(c), ..st }
        }
    } else if c == ';' || c == ',' {
        st
    } else {
        Split { buf: st.buf.push(c), ..st }
    }
}

/// The splitter after the bytes `s`, each read as a character.
pub open spec fn split_run(s: Seq<u8>) -> Split
    decreases s.len(),
{
    if s.len() == 0 {
        split_start()
    } else {
        let st = split_run(s.drop_last());
        if st.stop != 0 {
            st
        } else {
            split_step(st, s.last() as char)
        }
    }
}

/// What splitting the line `s` gives: its pieces, or an error message.
pub open spec fn split_result(s: Seq<u8>) -> Result<Seq<Piece>, Seq<char>> {
    let st = split_run(s);
    if st.stop == 3 {
        Err(st.err)
    } else if st.stop == 2 {
        Ok(st.pieces)
    } else if st.instr {
        Err("Unclosed string literal"@)
    } else if st.comm {
        Err("Unclosed comment"@)
    } else if st.inexpr {
        Err("Unclosed offset"@)
    } else {
        Ok(st.pieces)
    }
}

/// Whether `tok` is what the splitter may make of the piece `p`.
pub open spec fn piece_fits(tok: Token, p: Piece) -> bool {
    match p {
        Piece::Text(t) => fits(tok, t),
        Piece::Plus => tok is PLUS,
        Piece::Minus => tok is MINUS,
    }
}

proof fn lemma_split_stopped(s: Seq<u8>, i: int)
    requires
        0 <= i <= s.len(),
        split_run(s.subrange(0, i)).stop != 0,
    ensures
        split_run(s) == split_run(s.subrange(0, i)),
    decreases s.len() - i,
{
    if i < s.len() {
        assert(s.subrange(0, i + 1).drop_last() =~= s.subrange(0, i));
        lemma_split_stopped(s, i + 1);
    } else {
        assert(s.subrange(0, i) =~= s);
    }
}

/// The tokens handed on so far all fit their pieces.
pub open spec fn tokens_fit(ret: Seq<Token>, pieces: Seq<Piece>) -> bool {
    ret.len() == pieces.len() && forall|k: int| 0 <= k < ret.len() ==> piece_fits(#[trigger] ret[k], pieces[k])
}

fn push_token<F: FloatSyntax>(ret: &mut Vec<Token>, buf: &Vec<char>, floats: &F) -> (r: Result<(), &'static str>)
    ensures
        r is Ok <==> token_shape(buf@) is Ok,
        r is Err ==> r->Err_0@ == token_shape(buf@)->Err_0 && final(ret)@ == old(ret)@,
        r is Ok ==> final(ret)@.len() == old(ret)@.len() + 1 && final(ret)@.drop_last() == old(ret)@ && fits(final(ret)@.last(), buf@),
{
    let t = Token::new(buf.as_slice(), floats)?;
    ret.push(t);
    assert(ret@.drop_last() =~= old(ret)@);
    Ok(())
}

/// Splits a line into tokens: words end at spaces, `[...]` is one offset
/// token, quotes open and close strings, `+` and `-` stand alone, `//`
/// ends the line, `;` and `,` are dropped, and a newline stops the split.
pub fn line_split<F: FloatSyntax>(string: &[u8], floats: &F) -> (r: Result<Vec<Token>, &'static str>)
    ensures
        r is Ok <==> split_result(string@) is Ok,
        r is Ok ==> tokens_fit(r->Ok_0@, split_result(string@)->Ok_0),
        r is Err ==> r->Err_0@ == split_result(string@)->Err_0,
{
    let mut ret: Vec<Token> = Vec::new();
    let mut instr = false;
    let mut comm = false;
    let mut attr = false;
    let mut inexpr = false;
    let mut buf: Vec<char> = Vec::new();
    let n = string.len();
    let mut i: usize = 0;
    assert(string@.subrange(0, 0) =~= Seq::<u8>::empty());
    while i < n
        invariant
            i <= n == string@.len(),
            ({
                let st = split_run(string@.subrange(0, i as int));
                &&& st.stop == 0
                &&& st.instr == instr
                &&& st.comm == comm
                &&& st.attr == attr
                &&& st.inexpr == inexpr
                &&& st.buf == buf@
                &&& tokens_fit(ret@, st.pieces)
            }),
        decreases n - i,
    {
        let ghost st = split_run(string@.subrange(0, i as int));
        let ghost ret0 = ret@;
        let c = string[i] as char;
        assert(string@.subrange(0, i + 1).drop_last() =~= string@.subrange(0, i as int));
        assert(string@.subrange(0, i + 1).last() as char == c);
        let ghost nx = split_step(st, c);
        assert(split_run(string@.subrange(0, i + 1)) == nx);
        let mut stop: u8 = 0;
        if c == ' ' || c == '\n' {
            if c == ' ' && attr {
                if buf.len() == 0 {
                    proof { lemma_split_stopped(string@, i + 1); }
                    return Err("Attribute name expected");
                }
                match push_token(&mut ret, &buf, floats) {
                    Err(e) => {
                        proof { lemma_split_stopped(string@, i + 1); }
                        return Err(e);
                    },
                    Ok(()) => {},
                }
                attr = false;
                buf = Vec::new();
            } else if buf.len() == 0 {
                if c != ' ' {
                    stop = 1;
                }
            } else if instr || inexpr {
                buf.push(c);
            } else {
                match push_token(&mut ret, &buf, floats) {
                    Err(e) => {
                        proof { lemma_split_stopped(string@, i + 1); }
                        return Err(e);
                    },
                    Ok(()) => {},
                }
                if c == '\n' {
                    stop = 1;
                } else {
                    buf = Vec::new();
                }
            }
        } else if c == '.' {
            if buf.len() == 0 {
                attr = true;
            }
            buf.push(c);
        } else if c == '[' {
            if inexpr {
                proof { lemma_split_stopped(string@, i + 1); }
                return Err("Nested offsets are not allowed");
            }
            if buf.len() != 0 {
                match push_token(&mut ret, &buf, floats) {
                    Err(e) => {
                        proof { lemma_split_stopped(string@, i + 1); }
                        return Err(e);
                    },
                    Ok(()) => {},
                }
            }
            inexpr = true;
            buf.push(c);
        } else if c == '+' || c == '-' {
            if inexpr {
                buf.push(c);
            } else {
                if buf.len() != 0 {
                    match push_token(&mut ret, &buf, floats) {
                        Err(e) => {
                            proof { lemma_split_stopped(string@, i + 1); }
                            return Err(e);
                        },
                        Ok(()) => {},
                    }
                }
                let ghost ret1 = ret@;
                if c == '+' {
                    ret.push(Token::PLUS);
                } else {
                    ret.push(Token::MINUS);
                }
                assert(ret@.drop_last() == ret1);
            }
        } else if c == ']' {
            inexpr = false;
            if buf.len() == 0 {
                proof { lemma_split_stopped(string@, i + 1); }
                return Err("Empty offset");
            }
            match push_token(&mut ret, &buf, floats) {
                Err(e) => {
                    proof { lemma_split_stopped(string@, i + 1); }
                    return Err(e);
                },
                Ok(()) => {},
            }
            buf = Vec::new();
        } else if c == '/' {
            if comm {
                if buf.len() != 0 {
                    match push_token(&mut ret, &buf, floats) {
                        Err(e) => {
                            proof { lemma_split_stopped(string@, i + 1); }
                            return Err(e);
                        },
                        Ok(()) => {},
                    }
                }
                proof {
                    lemma_split_stopped(string@, i + 1);
                    assert(tokens_fit(ret@, nx.pieces)) by {
                        assert forall|k: int| 0 <= k < ret@.len() implies piece_fits(#[trigger] ret@[k], nx.pieces[k]) by {
                            if k < ret0.len() {
                                assert(ret@[k] == ret0[k]);
                            }
                        }
                    }
                }
                return Ok(ret);
            }
            comm = true;
        } else if c == '\'' || c == '"' {
            if instr {
                match push_token(&mut ret, &buf, floats) {
                    Err(e) => {
                        proof { lemma_split_stopped(string@, i + 1); }
                        return Err(e);
                    },
                    Ok(()) => {},
                }
                buf = Vec::new();
                instr = false;
            } else {
                instr = true;
                buf.push(c);
            }
        } else if c == ';' || c == ',' {
        } else {
            buf.push(c);
        }
        proof {
            assert(buf@ =~= nx.buf);
            assert forall|k: int| 0 <= k < ret@.len() implies piece_fits(#[trigger] ret@[k], nx.pieces[k]) by {
                if k < ret0.len() {
                    assert(ret@[k] == ret0[k]);
                }
            }
        }
        if stop == 1 {
            proof { lemma_split_stopped(string@, i + 1); }
            return finish(ret, instr, comm, inexpr);
        }
        i = i + 1;
    }
    assert(string@.subrange(0, n as int) =~= string@);
    finish(ret, instr, comm, inexpr)
}

fn finish(ret: Vec<Token>, instr: bool, comm: bool, inexpr: bool) -> (r: Result<Vec<Token>, &'static str>)
    ensures
        instr ==> r is Err && r->Err_0@ == "Unclosed string literal"@,
        !instr && comm ==> r is Err && r->Err_0@ == "Unclosed comment"@,
        !instr && !comm && inexpr ==> r is Err && r->Err_0@ == "Unclosed offset"@,
        !instr && !comm && !inexpr ==> r is Ok && r->Ok_0@ == ret@,
{
    if instr {
        return Err("Unclosed string literal");
    }
    if comm {
        return Err("Unclosed comment");
    }
    if inexpr {
        return Err("Unclosed offset");
    }
    Ok(ret)
}

} // verus!
