use vstd::prelude::*;
use crate::syntax::{Pos, Label, Macro, Token, Error};

verus! {

/// ASCII whitespace: the separator between lexemes.
pub open spec fn is_space(c: char) -> bool {
    c == ' ' || c == '\t' || c == '\n' || c == '\r' || c == '\x0C'
}

/// The spans `[start, end)` of the maximal runs of non-whitespace characters of `s`,
/// left to right.
pub open spec fn spans(s: Seq<char>) -> Seq<(int, int)>
    decreases s.len(),
{
    if s.len() == 0 {
        seq![]
    } else {
        let before = spans(s.drop_last());
        let i = s.len() - 1;
        if is_space(s[i]) {
            before
        } else if i > 0 && !is_space(s[i - 1]) {
            before.update(before.len() - 1, (before.last().0, i + 1))
        } else {
            before.push((i, i + 1))
        }
    }
}

/// The whitespace-separated lexemes of `s`.
pub open spec fn lexemes(s: Seq<char>) -> Seq<Seq<char>> {
    spans(s).map_values(|p: (int, int)| s.subrange(p.0, p.1))
}

fn is_space_char(c: char) -> (r: bool)
    ensures
        r == is_space(c),
{
    c == ' ' || c == '\t' || c == '\n' || c == '\r' || c == '\x0C'
}

/// The characters of a string.
pub fn chars_of(s: &str) -> (r: Vec<char>)
    ensures
        r@ == s@,
{
    let mut r: Vec<char> = Vec::new();
    for c in it: s.chars()
        invariant
            r@ == it.seq().take(it.index() as int),
    {
        r.push(c);
        assert(it.seq().take(it.index() + 1) =~= it.seq().take(it.index() as int).push(c));
    }
    assert(r@ =~= s@);
    r
}

proof fn lemma_spans_tail(s: Seq<char>)
    ensures
        s.len() > 0 && !is_space(s.last()) ==> spans(s).len() > 0 && spans(s).last().1 == s.len(),
        forall|k: int| 0 <= k < spans(s).len() ==> 0 <= #[trigger] spans(s)[k].0 < spans(s)[k].1 <= s.len(),
    decreases s.len(),
{
    if s.len() > 0 {
        let b = s.drop_last();
        lemma_spans_tail(b);
        let i = s.len() - 1;
        if i > 0 {
            assert(b.last() == s[i - 1]);
        }
        let before = spans(b);
        assert forall|k: int| 0 <= k < spans(s).len() implies 0 <= #[trigger] spans(s)[k].0 < spans(s)[k].1
            <= s.len() by {
            if k < before.len() {
                assert(0 <= before[k].0 < before[k].1 <= b.len());
            }
        }
    }
}

/// Splits the characters of a source text into the spans of its lexemes.
pub fn split_spans(s: &Vec<char>) -> (r: Vec<(usize, usize)>)
    ensures
        r@.len() == spans(s@).len(),
        forall|k: int| 0 <= k < r@.len() ==> #[trigger] spans(s@)[k] == (r@[k].0 as int, r@[k].1 as int),
{
    let mut done: Vec<(usize, usize)> = Vec::new();
    let mut start: usize = 0;
    let mut inside = false;
    let mut i: usize = 0;
    while i < s.len()
        invariant
            i <= s.len(),
            inside ==> start < i && i > 0 && !is_space(s@[i - 1]),
            !inside ==> (i == 0 || is_space(s@[i - 1])),
            inside ==> spans(s@.take(i as int)) =~= done@.map_values(|p: (usize, usize)| (p.0 as int, p.1 as int)).push((start as int, i as int)),
            !inside ==> spans(s@.take(i as int)) =~= done@.map_values(|p: (usize, usize)| (p.0 as int, p.1 as int)),
        decreases s.len() - i,
    {
        assert(s@.take(i + 1).drop_last() =~= s@.take(i as int));
        if is_space_char(s[i]) {
            if inside {
                done.push((start, i));
                inside = false;
            }
        } else if !inside {
            start = i;
            inside = true;
        }
        i = i + 1;
    }
    if inside {
        done.push((start, i));
    }
    assert(s@.take(i as int) =~= s@);
    proof {
        let m = done@.map_values(|p: (usize, usize)| (p.0 as int, p.1 as int));
        assert forall|k: int| 0 <= k < done@.len() implies #[trigger] spans(s@)[k] == (done@[k].0 as int, done@[k].1 as int) by {
            assert(m[k] == (done@[k].0 as int, done@[k].1 as int));
        }
    }
    done
}

/// The outcome of reading a hexadecimal literal.
#[derive(Clone, Copy, PartialEq, Eq, Structural, Debug)]
pub enum Hex {
    Value(u8),
    Empty,
    InvalidDigit,
    OutOfRange,
}

pub open spec fn hex_digit(c: char) -> Option<nat> {
    if '0' <= c && c <= '9' {
        Some((c as nat - '0' as nat) as nat)
    } else if 'a' <= c && c <= 'f' {
        Some((c as nat - 'a' as nat + 10) as nat)
    } else if 'A' <= c && c <= 'F' {
        Some((c as nat - 'A' as nat + 10) as nat)
    } else {
        None
    }
}

/// Reads digits left to right onto `acc`, failing at the first non-digit or as soon as
/// the value exceeds a byte.
pub open spec fn hex_digits(s: Seq<char>, acc: nat) -> Hex
    decreases s.len(),
{
    if s.len() == 0 {
        Hex::Value(acc as u8)
    } else {
        match hex_digit(s[0]) {
            None => Hex::InvalidDigit,
            Some(d) => if acc * 16 + d > 255 {
                Hex::OutOfRange
            } else {
                hex_digits(s.drop_first(), acc * 16 + d)
            },
        }
    }
}

/// A hexadecimal literal: one or more digits, optionally after a `+` sign, worth at most 255.
pub open spec fn hex_value(s: Seq<char>) -> Hex {
    if s.len() == 0 {
        Hex::Empty
    } else if s[0] == '+' {
        if s.len() == 1 {
            Hex::InvalidDigit
        } else {
            hex_digits(s.drop_first(), 0)
        }
    } else {
        hex_digits(s, 0)
    }
}

fn digit_of(c: char) -> (r: Option<u8>)
    ensures
        r matches Some(d) ==> hex_digit(c) == Some(d as nat) && d < 16,
        r is None ==> hex_digit(c) is None,
{
    if '0' <= c && c <= '9' {
        Some((c as u32 - '0' as u32) as u8)
    } else if 'a' <= c && c <= 'f' {
        Some((c as u32 - 'a' as u32 + 10) as u8)
    } else if 'A' <= c && c <= 'F' {
        Some((c as u32 - 'A' as u32 + 10) as u8)
    } else {
        None
    }
}

/// Reads the hexadecimal literal held by `s[from..to]`.
pub fn parse_hex(s: &Vec<char>, from: usize, to: usize) -> (r: Hex)
    requires
        from <= to <= s@.len(),
    ensures
        r == hex_value(s@.subrange(from as int, to as int)),
{
    let ghost t = s@.subrange(from as int, to as int);
    if from == to {
        return Hex::Empty;
    }
    let mut i = from;
    if s[from] == '+' {
        if to - from == 1 {
            return Hex::InvalidDigit;
        }
        i = from + 1;
        assert(t.drop_first() =~= s@.subrange(i as int, to as int));
    } else {
        assert(t =~= s@.subrange(i as int, to as int));
    }
    let mut acc: u16 = 0;
    while i < to
        invariant
            from < i <= to || (i == from && s@[from as int] != '+'),
            to <= s@.len(),
            acc <= 255,
            t == s@.subrange(from as int, to as int),
            hex_value(t) == hex_digits(s@.subrange(i as int, to as int), acc as nat),
        decreases to - i,
    {
        let ghost rest = s@.subrange(i as int, to as int);
        assert(rest.drop_first() =~= s@.subrange(i + 1, to as int));
        assert(rest[0] == s@[i as int]);
        match digit_of(s[i]) {
            None => {
                return Hex::InvalidDigit;
            },
            Some(d) => {
                let next: u16 = acc * 16 + d as u16;
                if next > 255 {
                    return Hex::OutOfRange;
                }
                acc = next;
            },
        }
        i = i + 1;
    }
    assert(s@.subrange(i as int, to as int) =~= Seq::<char>::empty());
    Hex::Value(acc as u8)
}


/// Whether `p` is a prefix of `s`.
pub open spec fn starts_with(s: Seq<char>, p: Seq<char>) -> bool {
    p.len() <= s.len() && s.take(p.len() as int) == p
}

/// The byte a hexadecimal literal starting at `k` in `lex` stands for; zero when it is malformed.
pub open spec fn payload(lex: Seq<char>, k: int) -> u8 {
    match hex_value(lex.skip(k)) {
        Hex::Value(v) => v,
        _ => 0,
    }
}

/// The arithmetic and logic mnemonics, bare or with a size suffix, in the order they are tried;
/// with the token, where its hexadecimal operand starts, if it has one.
pub open spec fn arith_word(lex: Seq<char>) -> Option<(Token, Option<int>)> {
    if lex == "add"@ {
        Some((Token::Add, None))
    } else if lex == "adc"@ {
        Some((Token::Adc, None))
    } else if starts_with(lex, "add"@) {
        Some((Token::AddS(payload(lex, "add"@.len() as int)), Some("add"@.len() as int)))
    } else if starts_with(lex, "adc"@) {
        Some((Token::AdcS(payload(lex, "adc"@.len() as int)), Some("adc"@.len() as int)))
    } else if lex == "sub"@ {
        Some((Token::Sub, None))
    } else if lex == "sbc"@ {
        Some((Token::Sbc, None))
    } else if starts_with(lex, "sub"@) {
        Some((Token::SubS(payload(lex, "sub"@.len() as int)), Some("sub"@.len() as int)))
    } else if starts_with(lex, "sbc"@) {
        Some((Token::SbcS(payload(lex, "sbc"@.len() as int)), Some("sbc"@.len() as int)))
    } else if lex == "shf"@ {
        Some((Token::Shf, None))
    } else if starts_with(lex, "shf"@) {
        Some((Token::ShfS(payload(lex, "shf"@.len() as int)), Some("shf"@.len() as int)))
    } else if lex == "shc"@ {
        Some((Token::Sfc, None))
    } else if starts_with(lex, "sfc"@) {
        Some((Token::SfcS(payload(lex, "sfc"@.len() as int)), Some("sfc"@.len() as int)))
    } else if lex == "rot"@ {
        Some((Token::Rot, None))
    } else if starts_with(lex, "rot"@) {
        Some((Token::RotS(payload(lex, "rot"@.len() as int)), Some("rot"@.len() as int)))
    } else if lex == "iff"@ {
        Some((Token::Iff, None))
    } else if starts_with(lex, "iff"@) {
        Some((Token::IffS(payload(lex, "iff"@.len() as int)), Some("iff"@.len() as int)))
    } else if lex == "orr"@ {
        Some((Token::Orr, None))
    } else if starts_with(lex, "orr"@) {
        Some((Token::OrrS(payload(lex, "orr"@.len() as int)), Some("orr"@.len() as int)))
    } else if lex == "and"@ {
        Some((Token::And, None))
    } else if starts_with(lex, "and"@) {
        Some((Token::AndS(payload(lex, "and"@.len() as int)), Some("and"@.len() as int)))
    } else if lex == "xor"@ {
        Some((Token::Xor, None))
    } else if starts_with(lex, "xor"@) {
        Some((Token::XorS(payload(lex, "xor"@.len() as int)), Some("xor"@.len() as int)))
    } else if lex == "xnd"@ {
        Some((Token::Xnd, None))
    } else if starts_with(lex, "xnd"@) {
        Some((Token::XndS(payload(lex, "xnd"@.len() as int)), Some("xnd"@.len() as int)))
    } else {
        None
    }
}

/// The operand-free mnemonics, then the data, push and offset forms, in the order they are tried.
pub open spec fn other_word(lex: Seq<char>) -> Option<(Token, Option<int>)> {
    if lex == "adn"@ {
        Some((Token::Adn, None))
    } else if lex == "sbn"@ {
        Some((Token::Sbn, None))
    } else if lex == "inc"@ {
        Some((Token::Inc, None))
    } else if lex == "dec"@ {
        Some((Token::Dec, None))
    } else if lex == "neg"@ {
        Some((Token::Neg, None))
    } else if lex == "not"@ {
        Some((Token::Not, None))
    } else if lex == "buf"@ {
        Some((Token::Buf, None))
    } else if lex == "nop"@ {
        Some((Token::Nop, None))
    } else if lex == "clc"@ {
        Some((Token::Clc, None))
    } else if lex == "sec"@ {
        Some((Token::Sec, None))
    } else if lex == "flc"@ {
        Some((Token::Flc, None))
    } else if lex == "swp"@ {
        Some((Token::Swp, None))
    } else if lex == "pop"@ {
        Some((Token::Pop, None))
    } else if lex == "lda"@ {
        Some((Token::Lda, None))
    } else if lex == "sta"@ {
        Some((Token::Sta, None))
    } else if lex == "ldi"@ {
        Some((Token::Ldi, None))
    } else if lex == "sti"@ {
        Some((Token::Sti, None))
    } else if lex == "lds"@ {
        Some((Token::Lds, None))
    } else if lex == "sts"@ {
        Some((Token::Sts, None))
    } else if starts_with(lex, "d"@) {
        Some((Token::DDD(payload(lex, "d"@.len() as int)), Some("d"@.len() as int)))
    } else if starts_with(lex, "x"@) {
        Some((Token::XXX(payload(lex, "x"@.len() as int)), Some("x"@.len() as int)))
    } else if starts_with(lex, "ld"@) {
        Some((Token::LdO(payload(lex, "ld"@.len() as int)), Some("ld"@.len() as int)))
    } else if starts_with(lex, "st"@) {
        Some((Token::StO(payload(lex, "st"@.len() as int)), Some("st"@.len() as int)))
    } else {
        None
    }
}

/// The token of a lexeme that is neither a label nor a macro, with where its hexadecimal
/// operand starts, if it has one; `None` for an unknown lexeme.
pub open spec fn word(lex: Seq<char>) -> Option<(Token, Option<int>)> {
    if lex == "@const"@ {
        Some((Token::AtConst, None))
    } else if lex == "@dyn"@ {
        Some((Token::AtDyn, None))
    } else if lex == "@org"@ {
        Some((Token::AtOrg, None))
    } else {
        match arith_word(lex) {
            Some(w) => Some(w),
            None => other_word(lex),
        }
    }
}

/// Whether an executable classification result agrees with its specification.
pub open spec fn word_matches(r: Option<(Token, Option<usize>)>, w: Option<(Token, Option<int>)>) -> bool {
    match (r, w) {
        (None, None) => true,
        (Some((t, None)), Some((u, None))) => t == u,
        (Some((t, Some(k))), Some((u, Some(j)))) => t == u && k as int == j,
        _ => false,
    }
}

fn is_word(s: &Vec<char>, a: usize, b: usize, w: &str) -> (r: bool)
    requires
        a <= b <= s@.len(),
    ensures
        r == (s@.subrange(a as int, b as int) == w@),
{
    let n = w.unicode_len();
    if n != b - a {
        return false;
    }
    let mut i: usize = 0;
    while i < n
        invariant
            i <= n,
            n == b - a == w@.len(),
            b <= s@.len(),
            forall|j: int| 0 <= j < i ==> s@[a + j] == w@[j],
        decreases n - i,
    {
        if s[a + i] != w.get_char(i) {
            assert(s@.subrange(a as int, b as int)[i as int] != w@[i as int]);
            return false;
        }
        i = i + 1;
    }
    assert(s@.subrange(a as int, b as int) =~= w@);
    true
}

fn has_prefix(s: &Vec<char>, a: usize, b: usize, w: &str) -> (r: Option<usize>)
    requires
        a <= b <= s@.len(),
    ensures
        r matches Some(k) ==> k == w@.len() && starts_with(s@.subrange(a as int, b as int), w@),
        r is None ==> !starts_with(s@.subrange(a as int, b as int), w@),
{
    let n = w.unicode_len();
    if n > b - a {
        return None;
    }
    let ghost lex = s@.subrange(a as int, b as int);
    let mut i: usize = 0;
    while i < n
        invariant
            i <= n,
            n == w@.len(),
            n <= b - a,
            b <= s@.len(),
            lex == s@.subrange(a as int, b as int),
            forall|j: int| 0 <= j < i ==> s@[a + j] == w@[j],
        decreases n - i,
    {
        if s[a + i] != w.get_char(i) {
            assert(lex.take(n as int)[i as int] != w@[i as int]);
            return None;
        }
        i = i + 1;
    }
    assert(lex.take(n as int) =~= w@);
    Some(n)
}

fn payload_of(s: &Vec<char>, a: usize, b: usize, k: usize) -> (r: u8)
    requires
        a <= b <= s@.len(),
        k <= b - a,
    ensures
        r == payload(s@.subrange(a as int, b as int), k as int),
{
    assert(s@.subrange(a as int, b as int).skip(k as int) =~= s@.subrange(a + k, b as int));
    match parse_hex(s, a + k, b) {
        Hex::Value(v) => v,
        _ => 0,
    }
}

fn arith_word_of(s: &Vec<char>, a: usize, b: usize) -> (r: Option<(Token, Option<usize>)>)
    requires
        a < b <= s@.len(),
    ensures
        word_matches(r, arith_word(s@.subrange(a as int, b as int))),
        r matches Some((_, Some(k))) ==> k <= b - a,
{
    if is_word(s, a, b, "add") {
        Some((Token::Add, None))
    } else if is_word(s, a, b, "adc") {
        Some((Token::Adc, None))
    } else if let Some(k) = has_prefix(s, a, b, "add") {
        Some((Token::AddS(payload_of(s, a, b, k)), Some(k)))
    } else if let Some(k) = has_prefix(s, a, b, "adc") {
        Some((Token::AdcS(payload_of(s, a, b, k)), Some(k)))
    } else if is_word(s, a, b, "sub") {
        Some((Token::Sub, None))
    } else if is_word(s, a, b, "sbc") {
        Some((Token::Sbc, None))
    } else if let Some(k) = has_prefix(s, a, b, "sub") {
        Some((Token::SubS(payload_of(s, a, b, k)), Some(k)))
    } else if let Some(k) = has_prefix(s, a, b, "sbc") {
        Some((Token::SbcS(payload_of(s, a, b, k)), Some(k)))
    } else if is_word(s, a, b, "shf") {
        Some((Token::Shf, None))
    } else if let Some(k) = has_prefix(s, a, b, "shf") {
        Some((Token::ShfS(payload_of(s, a, b, k)), Some(k)))
    } else if is_word(s, a, b, "shc") {
        Some((Token::Sfc, None))
    } else if let Some(k) = has_prefix(s, a, b, "sfc") {
        Some((Token::SfcS(payload_of(s, a, b, k)), Some(k)))
    } else if is_word(s, a, b, "rot") {
        Some((Token::Rot, None))
    } else if let Some(k) = has_prefix(s, a, b, "rot") {
        Some((Token::RotS(payload_of(s, a, b, k)), Some(k)))
    } else if is_word(s, a, b, "iff") {
        Some((Token::Iff, None))
    } else if let Some(k) = has_prefix(s, a, b, "iff") {
        Some((Token::IffS(payload_of(s, a, b, k)), Some(k)))
    } else if is_word(s, a, b, "orr") {
        Some((Token::Orr, None))
    } else if let Some(k) = has_prefix(s, a, b, "orr") {
        Some((Token::OrrS(payload_of(s, a, b, k)), Some(k)))
    } else if is_word(s, a, b, "and") {
        Some((Token::And, None))
    } else if let Some(k) = has_prefix(s, a, b, "and") {
        Some((Token::AndS(payload_of(s, a, b, k)), Some(k)))
    } else if is_word(s, a, b, "xor") {
        Some((Token::Xor, None))
    } else if let Some(k) = has_prefix(s, a, b, "xor") {
        Some((Token::XorS(payload_of(s, a, b, k)), Some(k)))
    } else if is_word(s, a, b, "xnd") {
        Some((Token::Xnd, None))
    } else if let Some(k) = has_prefix(s, a, b, "xnd") {
        Some((Token::XndS(payload_of(s, a, b, k)), Some(k)))
    } else {
        None
    }
}

fn other_word_of(s: &Vec<char>, a: usize, b: usize) -> (r: Option<(Token, Option<usize>)>)
    requires
        a < b <= s@.len(),
    ensures
        word_matches(r, other_word(s@.subrange(a as int, b as int))),
        r matches Some((_, Some(k))) ==> k <= b - a,
{
    if is_word(s, a, b, "adn") {
        Some((Token::Adn, None))
    } else if is_word(s, a, b, "sbn") {
        Some((Token::Sbn, None))
    } else if is_word(s, a, b, "inc") {
        Some((Token::Inc, None))
    } else if is_word(s, a, b, "dec") {
        Some((Token::Dec, None))
    } else if is_word(s, a, b, "neg") {
        Some((Token::Neg, None))
    } else if is_word(s, a, b, "not") {
        Some((Token::Not, None))
    } else if is_word(s, a, b, "buf") {
        Some((Token::Buf, None))
    } else if is_word(s, a, b, "nop") {
        Some((Token::Nop, None))
    } else if is_word(s, a, b, "clc") {
        Some((Token::Clc, None))
    } else if is_word(s, a, b, "sec") {
        Some((Token::Sec, None))
    } else if is_word(s, a, b, "flc") {
        Some((Token::Flc, None))
    } else if is_word(s, a, b, "swp") {
        Some((Token::Swp, None))
    } else if is_word(s, a, b, "pop") {
        Some((Token::Pop, None))
    } else if is_word(s, a, b, "lda") {
        Some((Token::Lda, None))
    } else if is_word(s, a, b, "sta") {
        Some((Token::Sta, None))
    } else if is_word(s, a, b, "ldi") {
        Some((Token::Ldi, None))
    } else if is_word(s, a, b, "sti") {
        Some((Token::Sti, None))
    } else if is_word(s, a, b, "lds") {
        Some((Token::Lds, None))
    } else if is_word(s, a, b, "sts") {
        Some((Token::Sts, None))
    } else if let Some(k) = has_prefix(s, a, b, "d") {
        Some((Token::DDD(payload_of(s, a, b, k)), Some(k)))
    } else if let Some(k) = has_prefix(s, a, b, "x") {
        Some((Token::XXX(payload_of(s, a, b, k)), Some(k)))
    } else if let Some(k) = has_prefix(s, a, b, "ld") {
        Some((Token::LdO(payload_of(s, a, b, k)), Some(k)))
    } else if let Some(k) = has_prefix(s, a, b, "st") {
        Some((Token::StO(payload_of(s, a, b, k)), Some(k)))
    } else {
        None
    }
}

fn word_of(s: &Vec<char>, a: usize, b: usize) -> (r: Option<(Token, Option<usize>)>)
    requires
        a < b <= s@.len(),
    ensures
        word_matches(r, word(s@.subrange(a as int, b as int))),
        r matches Some((_, Some(k))) ==> k <= b - a,
{
    if is_word(s, a, b, "@const") {
        Some((Token::AtConst, None))
    } else if is_word(s, a, b, "@dyn") {
        Some((Token::AtDyn, None))
    } else if is_word(s, a, b, "@org") {
        Some((Token::AtOrg, None))
    } else {
        match arith_word_of(s, a, b) {
            Some(w) => Some(w),
            None => other_word_of(s, a, b),
        }
    }
}

/// Whether `t` is a label token of the given kind, scope and name.
pub open spec fn label_token(t: Token, def: bool, scope_id: Option<usize>, name: Seq<char>) -> bool {
    match t {
        Token::LabelDef(l) => def && l.scope_id == scope_id && l.identifier@ == name,
        Token::LabelRef(l) => !def && l.scope_id == scope_id && l.identifier@ == name,
        _ => false,
    }
}

/// Whether `t` is a macro token of the given kind and name.
pub open spec fn macro_token(t: Token, def: bool, name: Seq<char>) -> bool {
    match t {
        Token::MacroDef(m) => def && m.0@ == name,
        Token::MacroRef(m) => !def && m.0@ == name,
        _ => false,
    }
}

/// The token a lexeme is read as. The first matching form wins: a trailing `:`, a leading `:`,
/// a trailing `.`, a leading `.` (local labels, with the placeholder scope 0), a trailing `!`,
/// a leading `!`, then the words; an unknown lexeme becomes a `nop`.
pub open spec fn lexes_to(lex: Seq<char>, t: Token) -> bool {
    if lex.len() > 0 && lex.last() == ':' {
        label_token(t, true, None, lex.drop_last())
    } else if lex.len() > 0 && lex[0] == ':' {
        label_token(t, false, None, lex.drop_first())
    } else if lex.len() > 0 && lex.last() == '.' {
        label_token(t, true, Some(0), lex.drop_last())
    } else if lex.len() > 0 && lex[0] == '.' {
        label_token(t, false, Some(0), lex.drop_first())
    } else if lex.len() > 0 && lex.last() == '!' {
        macro_token(t, true, lex.drop_last())
    } else if lex.len() > 0 && lex[0] == '!' {
        macro_token(t, false, lex.drop_first())
    } else {
        match word(lex) {
            Some((u, _)) => t == u,
            None => t == Token::Nop,
        }
    }
}

/// Whether a lexeme is read without a diagnostic.
pub open spec fn lexeme_ok(lex: Seq<char>) -> bool {
    if lex.len() > 0 && (lex.last() == ':' || lex[0] == ':' || lex.last() == '.' || lex[0] == '.'
        || lex.last() == '!' || lex[0] == '!') {
        true
    } else {
        match word(lex) {
            Some((_, Some(k))) => hex_value(lex.skip(k)) is Value,
            Some((_, None)) => true,
            None => false,
        }
    }
}

/// The number of lexemes read with a diagnostic.
pub open spec fn bad_lexemes(ls: Seq<Seq<char>>) -> nat
    decreases ls.len(),
{
    if ls.len() == 0 {
        0
    } else {
        bad_lexemes(ls.drop_last()) + if lexeme_ok(ls.last()) {
            0nat
        } else {
            1nat
        }
    }
}

/// The characters `a..b` of `src`, as a string.
pub(crate) fn text(src: &str, a: usize, b: usize) -> (r: String)
    requires
        a <= b <= src@.len(),
    ensures
        r@ == src@.subrange(a as int, b as int),
{
    String::from_str(src.substring_char(a, b))
}

/// Reads the lexeme `s[a..b]` of the source `src` as a token, reporting a malformed operand or
/// an unknown lexeme.
fn lex_token(src: &str, s: &Vec<char>, a: usize, b: usize, pos: &Pos, errors: &mut Vec<(Pos, Error)>) -> (r: Token)
    requires
        s@ == src@,
        a < b <= s@.len(),
    ensures
        lexes_to(s@.subrange(a as int, b as int), r),
        lexeme_ok(s@.subrange(a as int, b as int)) ==> final(errors)@ == old(errors)@,
        !lexeme_ok(s@.subrange(a as int, b as int)) ==> final(errors)@.len() == old(errors)@.len() + 1
            && final(errors)@.drop_last() == old(errors)@,
{
    let ghost lex = s@.subrange(a as int, b as int);
    assert(lex.last() == s@[b - 1]);
    assert(lex[0] == s@[a as int]);
    assert(lex.drop_last() =~= s@.subrange(a as int, b - 1));
    assert(lex.drop_first() =~= s@.subrange(a + 1, b as int));
    let last = s[b - 1];
    let first = s[a];
    if last == ':' {
        Token::LabelDef(Label { scope_id: None, identifier: text(src, a, b - 1) })
    } else if first == ':' {
        Token::LabelRef(Label { scope_id: None, identifier: text(src, a + 1, b) })
    } else if last == '.' {
        Token::LabelDef(Label { scope_id: Some(0), identifier: text(src, a, b - 1) })
    } else if first == '.' {
        Token::LabelRef(Label { scope_id: Some(0), identifier: text(src, a + 1, b) })
    } else if last == '!' {
        Token::MacroDef(Macro(text(src, a, b - 1)))
    } else if first == '!' {
        Token::MacroRef(Macro(text(src, a + 1, b)))
    } else {
        match word_of(s, a, b) {
            Some((t, None)) => t,
            Some((t, Some(k))) => {
                assert(lex.skip(k as int) =~= s@.subrange(a + k, b as int));
                match parse_hex(s, a + k, b) {
                    Hex::Value(_) => {},
                    Hex::Empty => errors.push((pos.copy(), Error::EmptyHex)),
                    Hex::InvalidDigit => errors.push((pos.copy(), Error::InvalidHexDigits(text(src, a + k, b)))),
                    Hex::OutOfRange => errors.push((pos.copy(), Error::HexOutOfRange(text(src, a + k, b)))),
                }
                t
            },
            None => {
                errors.push((pos.copy(), Error::UnexpectedToken(text(src, a, b))));
                Token::Nop
            },
        }
    }
}

proof fn lemma_lexemes(s: Seq<char>)
    ensures
        lexemes(s).len() == spans(s).len(),
        forall|k: int| 0 <= k < spans(s).len() ==> #[trigger] lexemes(s)[k] == s.subrange(spans(s)[k].0, spans(s)[k].1),
{
}

/// Splits a source text on ASCII whitespace and reads each lexeme as a token, positioned by
/// its index in the token stream. Each malformed operand or unknown lexeme adds one diagnostic.
pub fn tokenize(source: String, errors: &mut Vec<(Pos, Error)>) -> (r: Vec<(Pos, Token)>)
    ensures
        r@.len() == lexemes(source@).len(),
        forall|k: int| 0 <= k < r@.len() ==> (#[trigger] r@[k]).0.index == k && r@[k].0.scope@ == "[token stream]"@
            && lexes_to(lexemes(source@)[k], r@[k].1),
        final(errors)@.len() == old(errors)@.len() + bad_lexemes(lexemes(source@)),
        final(errors)@.take(old(errors)@.len() as int) == old(errors)@,
{
    let src = source.as_str();
    let s = chars_of(src);
    let bounds = split_spans(&s);
    proof {
        lemma_lexemes(s@);
        lemma_spans_tail(s@);
    }
    let ghost ls = lexemes(s@);
    let ghost base = errors@;
    let mut r: Vec<(Pos, Token)> = Vec::new();
    let mut i: usize = 0;
    while i < bounds.len()
        invariant
            i <= bounds@.len(),
            s@ == src@,
            src@ == source@,
            ls == lexemes(s@),
            bounds@.len() == spans(s@).len() == ls.len(),
            forall|k: int| 0 <= k < bounds@.len() ==> #[trigger] spans(s@)[k] == (bounds@[k].0 as int, bounds@[k].1 as int),
            forall|k: int| 0 <= k < spans(s@).len() ==> 0 <= #[trigger] spans(s@)[k].0 < spans(s@)[k].1 <= s@.len(),
            forall|k: int| 0 <= k < spans(s@).len() ==> #[trigger] ls[k] == s@.subrange(spans(s@)[k].0, spans(s@)[k].1),
            r@.len() == i,
            forall|k: int| 0 <= k < i ==> (#[trigger] r@[k]).0.index == k && r@[k].0.scope@ == "[token stream]"@
                && lexes_to(ls[k], r@[k].1),
            errors@.len() == base.len() + bad_lexemes(ls.take(i as int)),
            errors@.take(base.len() as int) == base,
        decreases bounds@.len() - i,
    {
        let (a, b) = bounds[i];
        assert(spans(s@)[i as int] == (a as int, b as int));
        let pos = Pos { scope: String::from_str("[token stream]"), index: i };
        let ghost before = errors@;
        let t = lex_token(src, &s, a, b, &pos, errors);
        assert(ls.take(i + 1).drop_last() =~= ls.take(i as int));
        assert(errors@.take(base.len() as int) =~= base) by {
            if errors@.len() > before.len() {
                assert(errors@.drop_last() == before);
                assert(errors@.take(base.len() as int) =~= before.take(base.len() as int));
            }
        }
        r.push((pos, t));
        i = i + 1;
    }
    assert(ls.take(i as int) =~= ls);
    r
}

} // verus!
