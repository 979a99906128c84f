//! The operator-expression grammar: a string scalar of the shape
//! `((name arg...))`, parsed as a whole, with ordered choice between the
//! alternatives and greedy repetition.

use vstd::prelude::*;
use crate::text::{
    CharClass, run_end, char_at, ascii_lower, scan, has_char_at, is_alpha,
    chars_of, text_of, text_all,
};

verus! {

/// The name of the operator that an expression calls.
#[derive(Debug, PartialEq, Clone)]
pub struct OperatorName(pub String);

/// A quoted string argument; it holds ASCII letters and digits only.
#[derive(Debug, PartialEq, Clone)]
pub struct StringLiteral(pub String);

/// A `&a.b.c` argument: the dotted segments, in order.
#[derive(Debug, PartialEq, Clone)]
pub struct Reference(pub Vec<String>);

/// A number argument, tagged with its radix. `Float` holds the normalised
/// decimal text (`3` gives `3.0`, `.5` gives `0.5`); the others hold their
/// digits without the prefix, hexadecimal ones in lowercase.
#[derive(Debug, PartialEq, Clone)]
pub enum NumberLiteral {
    Float(String),
    Hex(String),
    Oct(String),
    Bin(String),
}

/// An argument of a call.
#[derive(Debug, PartialEq, Clone)]
pub enum Argument {
    StringLiteral(StringLiteral),
    NumberLiteral(NumberLiteral),
    Reference(Reference),
}

/// An operator call: a name and its arguments, in order.
#[derive(Debug, PartialEq, Clone)]
pub struct Expr {
    pub name: OperatorName,
    pub arguments: Vec<Argument>,
}

/// The mathematical form of a `NumberLiteral`.
pub enum NumberModel {
    Float(Seq<char>),
    Hex(Seq<char>),
    Oct(Seq<char>),
    Bin(Seq<char>),
}

/// The mathematical form of an `Argument`.
pub enum ArgModel {
    Str(Seq<char>),
    Num(NumberModel),
    Ref(Seq<Seq<char>>),
}

/// The mathematical form of an `Expr`.
pub struct ExprModel {
    pub name: Seq<char>,
    pub args: Seq<ArgModel>,
}

pub open spec fn texts_view(v: Seq<String>) -> Seq<Seq<char>> {
    v.map_values(|t: String| t@)
}

impl View for Reference {
    type V = Seq<Seq<char>>;

    open spec fn view(&self) -> Seq<Seq<char>> {
        texts_view(self.0@)
    }
}

impl View for NumberLiteral {
    type V = NumberModel;

    open spec fn view(&self) -> NumberModel {
        match self {
            NumberLiteral::Float(t) => NumberModel::Float(t@),
            NumberLiteral::Hex(t) => NumberModel::Hex(t@),
            NumberLiteral::Oct(t) => NumberModel::Oct(t@),
            NumberLiteral::Bin(t) => NumberModel::Bin(t@),
        }
    }
}

impl View for Argument {
    type V = ArgModel;

    open spec fn view(&self) -> ArgModel {
        match self {
            Argument::StringLiteral(t) => ArgModel::Str(t.0@),
            Argument::NumberLiteral(n) => ArgModel::Num(n@),
            Argument::Reference(r) => ArgModel::Ref(r@),
        }
    }
}

impl View for Expr {
    type V = ExprModel;

    open spec fn view(&self) -> ExprModel {
        ExprModel { name: self.name.0@, args: self.arguments@.map_values(|a: Argument| a@) }
    }
}

// ---------------------------------------------------------------------------
// The grammar, as functions from an input and a position to what is read there
// and the position after it.
pub open spec fn name_at(s: Seq<char>, i: int) -> Option<(Seq<char>, int)> {
    let e = run_end(s, i + 1, CharClass::AlphaNumeric);
    if 0 <= i < s.len() && crate::text::is_ascii_alpha(s[i]) {
        Some((s.subrange(i, e), e))
    } else {
        None
    }
}

/// `0`, then `lower` or `upper`, then at least one digit of `cls`.
pub open spec fn prefixed_digits_at(
    s: Seq<char>,
    i: int,
    lower: char,
    upper: char,
    cls: CharClass,
) -> Option<(Seq<char>, int)> {
    let e = run_end(s, i + 2, cls);
    if char_at(s, i, '0') && (char_at(s, i + 1, lower) || char_at(s, i + 1, upper)) && e > i + 2 {
        Some((s.subrange(i + 2, e), e))
    } else {
        None
    }
}

pub open spec fn lowercase(t: Seq<char>) -> Seq<char> {
    t.map_values(|c: char| ascii_lower(c))
}

pub open spec fn hex_at(s: Seq<char>, i: int) -> Option<(NumberModel, int)> {
    match prefixed_digits_at(s, i, 'x', 'X', CharClass::HexDigit) {
        Some((d, e)) => Some((NumberModel::Hex(lowercase(d)), e)),
        None => None,
    }
}

pub open spec fn oct_at(s: Seq<char>, i: int) -> Option<(NumberModel, int)> {
    match prefixed_digits_at(s, i, 'o', 'O', CharClass::OctDigit) {
        Some((d, e)) => Some((NumberModel::Oct(d), e)),
        None => None,
    }
}

pub open spec fn bin_at(s: Seq<char>, i: int) -> Option<(NumberModel, int)> {
    match prefixed_digits_at(s, i, 'b', 'B', CharClass::BinDigit) {
        Some((d, e)) => Some((NumberModel::Bin(d), e)),
        None => None,
    }
}

/// `digits . digits`, kept as written.
pub open spec fn float_whole_fraction_at(s: Seq<char>, i: int) -> Option<(NumberModel, int)> {
    let e1 = run_end(s, i, CharClass::Digit);
    let e2 = run_end(s, e1 + 1, CharClass::Digit);
    if 0 <= i && e1 > i && char_at(s, e1, '.') && e2 > e1 + 1 {
        Some((NumberModel::Float(s.subrange(i, e2)), e2))
    } else {
        None
    }
}

/// `. digits`, read as `0. digits`.
pub open spec fn float_fraction_at(s: Seq<char>, i: int) -> Option<(NumberModel, int)> {
    let e = run_end(s, i + 1, CharClass::Digit);
    if char_at(s, i, '.') && e > i + 1 {
        Some((NumberModel::Float(seq!['0'] + s.subrange(i, e)), e))
    } else {
        None
    }
}

/// `digits`, with an optional trailing `.`, read as `digits.0`.
pub open spec fn float_whole_at(s: Seq<char>, i: int) -> Option<(NumberModel, int)> {
    let e = run_end(s, i, CharClass::Digit);
    if 0 <= i && e > i {
        Some(
            (
                NumberModel::Float(s.subrange(i, e) + seq!['.', '0']),
                if char_at(s, e, '.') {
                    e + 1
                } else {
                    e
                },
            ),
        )
    } else {
        None
    }
}

pub open spec fn number_at(s: Seq<char>, i: int) -> Option<(NumberModel, int)> {
    if bin_at(s, i) is Some {
        bin_at(s, i)
    } else if oct_at(s, i) is Some {
        oct_at(s, i)
    } else if hex_at(s, i) is Some {
        hex_at(s, i)
    } else if float_whole_fraction_at(s, i) is Some {
        float_whole_fraction_at(s, i)
    } else if float_fraction_at(s, i) is Some {
        float_fraction_at(s, i)
    } else {
        float_whole_at(s, i)
    }
}

/// `"` letters and digits `"`.
pub open spec fn string_literal_at(s: Seq<char>, i: int) -> Option<(Seq<char>, int)> {
    let e = run_end(s, i + 1, CharClass::AlphaNumeric);
    if char_at(s, i, '"') && char_at(s, e, '"') {
        Some((s.subrange(i + 1, e), e + 1))
    } else {
        None
    }
}

/// Zero or more `. segment` after the first segment of a reference.
pub open spec fn segments_at(s: Seq<char>, i: int) -> (Seq<Seq<char>>, int)
    decreases s.len() - i,
{
    let e = run_end(s, i + 1, CharClass::AlphaNumeric);
    if char_at(s, i, '.') && e > i + 1 && e <= s.len() {
        let (rest, j) = segments_at(s, e);
        (seq![s.subrange(i + 1, e)] + rest, j)
    } else {
        (Seq::empty(), i)
    }
}

pub open spec fn reference_at(s: Seq<char>, i: int) -> Option<(Seq<Seq<char>>, int)> {
    let e = run_end(s, i + 1, CharClass::AlphaNumeric);
    if char_at(s, i, '&') && e > i + 1 {
        let (rest, j) = segments_at(s, e);
        Some((seq![s.subrange(i + 1, e)] + rest, j))
    } else {
        None
    }
}

pub open spec fn argument_at(s: Seq<char>, i: int) -> Option<(ArgModel, int)> {
    match number_at(s, i) {
        Some((n, e)) => Some((ArgModel::Num(n), e)),
        None => match string_literal_at(s, i) {
            Some((t, e)) => Some((ArgModel::Str(t), e)),
            None => match reference_at(s, i) {
                Some((r, e)) => Some((ArgModel::Ref(r), e)),
                None => None,
            },
        },
    }
}

/// Zero or more arguments, each after at least one whitespace character.
pub open spec fn arguments_at(s: Seq<char>, i: int) -> (Seq<ArgModel>, int)
    decreases s.len() - i,
{
    let w = run_end(s, i, CharClass::Whitespace);
    if w > i {
        match argument_at(s, w) {
            Some((a, j)) => if i < j <= s.len() {
                let (rest, k) = arguments_at(s, j);
                (seq![a] + rest, k)
            } else {
                (Seq::empty(), i)
            },
            None => (Seq::empty(), i),
        }
    } else {
        (Seq::empty(), i)
    }
}

pub open spec fn two_at(s: Seq<char>, i: int, c: char) -> bool {
    char_at(s, i, c) && char_at(s, i + 1, c)
}

/// The call that `s` spells as a whole, if it spells one.
pub open spec fn expr_of(s: Seq<char>) -> Option<ExprModel> {
    let p0 = run_end(s, 0, CharClass::Whitespace);
    let p1 = run_end(s, p0 + 2, CharClass::Whitespace);
    match name_at(s, p1) {
        Some((name, p2)) => {
            let (args, p3) = arguments_at(s, p2);
            let p4 = run_end(s, p3, CharClass::Whitespace);
            let p5 = run_end(s, p4 + 2, CharClass::Whitespace);
            if two_at(s, p0, '(') && two_at(s, p4, ')') && p5 == s.len() {
                Some(ExprModel { name, args })
            } else {
                None
            }
        },
        None => None,
    }
}

/// What a reader that must consume the whole input returns.
pub open spec fn whole<T>(s: Seq<char>, r: Option<(T, int)>) -> Option<T> {
    match r {
        Some((v, e)) => if e == s.len() {
            Some(v)
        } else {
            None
        },
        None => None,
    }
}

// ---------------------------------------------------------------------------
// The readers. Each reads at position `i` of the characters of the input and
// returns what it read with the position after it, exactly as the grammar above.

fn lower_char(c: char) -> (r: char)
    ensures
        r == ascii_lower(c),
{
    if 'A' as u32 <= c as u32 && c as u32 <= 'Z' as u32 {
        ((c as u32) + 32) as u8 as char
    } else {
        c
    }
}

/// Appends the characters of `s` from `start` up to `end` to `out`.
fn push_range(s: &Vec<char>, start: usize, end: usize, out: &mut Vec<char>)
    requires
        start <= end <= s.len(),
    ensures
        final(out)@ == old(out)@ + s@.subrange(start as int, end as int),
{
    let mut k: usize = start;
    while k < end
        invariant
            start <= k <= end <= s.len(),
            out@ == old(out)@ + s@.subrange(start as int, k as int),
        decreases end - k,
    {
        out.push(s[k]);
        k = k + 1;
        assert(out@ =~= old(out)@ + s@.subrange(start as int, k as int));
    }
}

fn read_name(s: &Vec<char>, i: usize) -> (r: Option<(OperatorName, usize)>)
    requires
        i <= s.len(),
    ensures
        match r {
            Some((n, e)) => name_at(s@, i as int) == Some((n.0@, e as int)) && i < e <= s.len(),
            None => name_at(s@, i as int) is None,
        },
{
    if i < s.len() && is_alpha(s[i]) {
        let e = scan(s, i + 1, CharClass::AlphaNumeric);
        Some((OperatorName(text_of(s, i, e)), e))
    } else {
        None
    }
}

/// The end of the digits of `0x..`-like literals, or `None`.
fn read_prefixed(s: &Vec<char>, i: usize, lower: char, upper: char, cls: CharClass) -> (r: Option<
    usize,
>)
    requires
        i <= s.len(),
    ensures
        match r {
            Some(e) => prefixed_digits_at(s@, i as int, lower, upper, cls) == Some(
                (s@.subrange(i + 2, e as int), e as int),
            ) && i + 2 < e <= s.len(),
            None => prefixed_digits_at(s@, i as int, lower, upper, cls) is None,
        },
{
    if has_char_at(s, i, '0') && (has_char_at(s, i + 1, lower) || has_char_at(s, i + 1, upper)) {
        let e = scan(s, i + 2, cls);
        if e > i + 2 {
            return Some(e);
        }
    }
    None
}

fn read_hex(s: &Vec<char>, i: usize) -> (r: Option<(NumberLiteral, usize)>)
    requires
        i <= s.len(),
    ensures
        match r {
            Some((n, e)) => hex_at(s@, i as int) == Some((n@, e as int)) && i < e <= s.len(),
            None => hex_at(s@, i as int) is None,
        },
{
    match read_prefixed(s, i, 'x', 'X', CharClass::HexDigit) {
        Some(e) => {
            let mut digits: Vec<char> = Vec::new();
            let mut k: usize = i + 2;
            while k < e
                invariant
                    i + 2 <= k <= e <= s.len(),
                    digits@ == lowercase(s@.subrange(i + 2, k as int)),
                decreases e - k,
            {
                digits.push(lower_char(s[k]));
                k = k + 1;
                assert(digits@ =~= lowercase(s@.subrange(i + 2, k as int)));
            }
            Some((NumberLiteral::Hex(text_all(&digits)), e))
        },
        None => None,
    }
}

fn read_oct(s: &Vec<char>, i: usize) -> (r: Option<(NumberLiteral, usize)>)
    requires
        i <= s.len(),
    ensures
        match r {
            Some((n, e)) => oct_at(s@, i as int) == Some((n@, e as int)) && i < e <= s.len(),
            None => oct_at(s@, i as int) is None,
        },
{
    match read_prefixed(s, i, 'o', 'O', CharClass::OctDigit) {
        Some(e) => Some((NumberLiteral::Oct(text_of(s, i + 2, e)), e)),
        None => None,
    }
}

fn read_bin(s: &Vec<char>, i: usize) -> (r: Option<(NumberLiteral, usize)>)
    requires
        i <= s.len(),
    ensures
        match r {
            Some((n, e)) => bin_at(s@, i as int) == Some((n@, e as int)) && i < e <= s.len(),
            None => bin_at(s@, i as int) is None,
        },
{
    match read_prefixed(s, i, 'b', 'B', CharClass::BinDigit) {
        Some(e) => Some((NumberLiteral::Bin(text_of(s, i + 2, e)), e)),
        None => None,
    }
}

fn read_float_whole_fraction(s: &Vec<char>, i: usize) -> (r: Option<(NumberLiteral, usize)>)
    requires
        i <= s.len(),
    ensures
        match r {
            Some((n, e)) => float_whole_fraction_at(s@, i as int) == Some((n@, e as int)) && i < e
                <= s.len(),
            None => float_whole_fraction_at(s@, i as int) is None,
        },
{
    let e1 = scan(s, i, CharClass::Digit);
    if e1 > i && has_char_at(s, e1, '.') {
        let e2 = scan(s, e1 + 1, CharClass::Digit);
        if e2 > e1 + 1 {
            return Some((NumberLiteral::Float(text_of(s, i, e2)), e2));
        }
    }
    None
}

fn read_float_fraction(s: &Vec<char>, i: usize) -> (r: Option<(NumberLiteral, usize)>)
    requires
        i <= s.len(),
    ensures
        match r {
            Some((n, e)) => float_fraction_at(s@, i as int) == Some((n@, e as int)) && i < e
                <= s.len(),
            None => float_fraction_at(s@, i as int) is None,
        },
{
    if has_char_at(s, i, '.') {
        let e = scan(s, i + 1, CharClass::Digit);
        if e > i + 1 {
            let mut t: Vec<char> = Vec::new();
            t.push('0');
            push_range(s, i, e, &mut t);
            assert(t@ =~= seq!['0'] + s@.subrange(i as int, e as int));
            return Some((NumberLiteral::Float(text_all(&t)), e));
        }
    }
    None
}

fn read_float_whole(s: &Vec<char>, i: usize) -> (r: Option<(NumberLiteral, usize)>)
    requires
        i <= s.len(),
    ensures
        match r {
            Some((n, e)) => float_whole_at(s@, i as int) == Some((n@, e as int)) && i < e
                <= s.len(),
            None => float_whole_at(s@, i as int) is None,
        },
{
    let e = scan(s, i, CharClass::Digit);
    if e > i {
        let mut t: Vec<char> = Vec::new();
        push_range(s, i, e, &mut t);
        t.push('.');
        t.push('0');
        assert(t@ =~= s@.subrange(i as int, e as int) + seq!['.', '0']);
        let end = if has_char_at(s, e, '.') {
            e + 1
        } else {
            e
        };
        Some((NumberLiteral::Float(text_all(&t)), end))
    } else {
        None
    }
}

fn read_number(s: &Vec<char>, i: usize) -> (r: Option<(NumberLiteral, usize)>)
    requires
        i <= s.len(),
    ensures
        match r {
            Some((n, e)) => number_at(s@, i as int) == Some((n@, e as int)) && i < e <= s.len(),
            None => number_at(s@, i as int) is None,
        },
{
    let r = read_bin(s, i);
    if r.is_some() {
        return r;
    }
    let r = read_oct(s, i);
    if r.is_some() {
        return r;
    }
    let r = read_hex(s, i);
    if r.is_some() {
        return r;
    }
    let r = read_float_whole_fraction(s, i);
    if r.is_some() {
        return r;
    }
    let r = read_float_fraction(s, i);
    if r.is_some() {
        return r;
    }
    read_float_whole(s, i)
}

fn read_string_literal(s: &Vec<char>, i: usize) -> (r: Option<(StringLiteral, usize)>)
    requires
        i <= s.len(),
    ensures
        match r {
            Some((t, e)) => string_literal_at(s@, i as int) == Some((t.0@, e as int)) && i < e
                <= s.len(),
            None => string_literal_at(s@, i as int) is None,
        },
{
    if has_char_at(s, i, '"') {
        let e = scan(s, i + 1, CharClass::AlphaNumeric);
        if has_char_at(s, e, '"') {
            return Some((StringLiteral(text_of(s, i + 1, e)), e + 1));
        }
    }
    None
}

fn read_segments(s: &Vec<char>, i: usize) -> (r: (Vec<String>, usize))
    requires
        i <= s.len(),
    ensures
        segments_at(s@, i as int) == (texts_view(r.0@), r.1 as int),
        i <= r.1 <= s.len(),
    decreases s.len() - i,
{
    if has_char_at(s, i, '.') {
        let e = scan(s, i + 1, CharClass::AlphaNumeric);
        if e > i + 1 {
            let (mut rest, j) = read_segments(s, e);
            let ghost old_rest = rest@;
            rest.insert(0, text_of(s, i + 1, e));
            assert(texts_view(rest@) =~= seq![s@.subrange(i + 1, e as int)] + texts_view(
                old_rest,
            ));
            return (rest, j);
        }
    }
    let none: Vec<String> = Vec::new();
    assert(texts_view(none@) =~= Seq::<Seq<char>>::empty());
    (none, i)
}

fn read_reference(s: &Vec<char>, i: usize) -> (r: Option<(Reference, usize)>)
    requires
        i <= s.len(),
    ensures
        match r {
            Some((t, e)) => reference_at(s@, i as int) == Some((t@, e as int)) && i < e <= s.len(),
            None => reference_at(s@, i as int) is None,
        },
{
    if has_char_at(s, i, '&') {
        let e = scan(s, i + 1, CharClass::AlphaNumeric);
        if e > i + 1 {
            let (mut rest, j) = read_segments(s, e);
            let ghost old_rest = rest@;
            rest.insert(0, text_of(s, i + 1, e));
            assert(texts_view(rest@) =~= seq![s@.subrange(i + 1, e as int)] + texts_view(
                old_rest,
            ));
            return Some((Reference(rest), j));
        }
    }
    None
}

fn read_argument(s: &Vec<char>, i: usize) -> (r: Option<(Argument, usize)>)
    requires
        i <= s.len(),
    ensures
        match r {
            Some((a, e)) => argument_at(s@, i as int) == Some((a@, e as int)) && i < e <= s.len(),
            None => argument_at(s@, i as int) is None,
        },
{
    match read_number(s, i) {
        Some((n, e)) => Some((Argument::NumberLiteral(n), e)),
        None => match read_string_literal(s, i) {
            Some((t, e)) => Some((Argument::StringLiteral(t), e)),
            None => match read_reference(s, i) {
                Some((t, e)) => Some((Argument::Reference(t), e)),
                None => None,
            },
        },
    }
}

pub open spec fn arguments_view(v: Seq<Argument>) -> Seq<ArgModel> {
    v.map_values(|a: Argument| a@)
}

fn read_arguments(s: &Vec<char>, i: usize) -> (r: (Vec<Argument>, usize))
    requires
        i <= s.len(),
    ensures
        arguments_at(s@, i as int) == (arguments_view(r.0@), r.1 as int),
        i <= r.1 <= s.len(),
    decreases s.len() - i,
{
    let w = scan(s, i, CharClass::Whitespace);
    if w > i {
        if let Some((a, j)) = read_argument(s, w) {
            let (mut rest, k) = read_arguments(s, j);
            let ghost old_rest = rest@;
            let ghost av = a@;
            rest.insert(0, a);
            assert(arguments_view(rest@) =~= seq![av] + arguments_view(old_rest));
            return (rest, k);
        }
    }
    let none: Vec<Argument> = Vec::new();
    assert(arguments_view(none@) =~= Seq::<ArgModel>::empty());
    (none, i)
}

fn has_two_at(s: &Vec<char>, i: usize, c: char) -> (r: bool)
    requires
        i <= s.len(),
    ensures
        r == two_at(s@, i as int, c),
{
    has_char_at(s, i, c) && has_char_at(s, i + 1, c)
}

impl Expr {
    /// The call that `input` spells as a whole, surrounding whitespace aside;
    /// `None` where it spells none, which leaves the string a plain string.
    pub fn try_parse(input: &str) -> (r: Option<Expr>)
        ensures
            match r {
                Some(e) => expr_of(input@) == Some(e@),
                None => expr_of(input@) is None,
            },
    {
        let s = chars_of(input);
        let p0 = scan(&s, 0, CharClass::Whitespace);
        if !has_two_at(&s, p0, '(') {
            return None;
        }
        let p1 = scan(&s, p0 + 2, CharClass::Whitespace);
        match read_name(&s, p1) {
            None => None,
            Some((name, p2)) => {
                let (arguments, p3) = read_arguments(&s, p2);
                let p4 = scan(&s, p3, CharClass::Whitespace);
                if !has_two_at(&s, p4, ')') {
                    return None;
                }
                let p5 = scan(&s, p4 + 2, CharClass::Whitespace);
                if p5 == s.len() {
                    let e = Expr { name, arguments };
                    assert(e@.args =~= arguments_view(e.arguments@));
                    Some(e)
                } else {
                    None
                }
            },
        }
    }
}

/// The operator name that `input` is, as a whole.
pub fn parse_operator_name(input: &str) -> (r: Option<OperatorName>)
    ensures
        match r {
            Some(n) => whole(input@, name_at(input@, 0)) == Some(n.0@),
            None => whole(input@, name_at(input@, 0)) is None,
        },
{
    let s = chars_of(input);
    match read_name(&s, 0) {
        Some((n, e)) => if e == s.len() {
            Some(n)
        } else {
            None
        },
        None => None,
    }
}

/// The number literal that `input` is, as a whole.
pub fn parse_number_literal(input: &str) -> (r: Option<NumberLiteral>)
    ensures
        match r {
            Some(n) => whole(input@, number_at(input@, 0)) == Some(n@),
            None => whole(input@, number_at(input@, 0)) is None,
        },
{
    let s = chars_of(input);
    match read_number(&s, 0) {
        Some((n, e)) => if e == s.len() {
            Some(n)
        } else {
            None
        },
        None => None,
    }
}

/// The hexadecimal literal (`0x` or `0X`, then digits) that `input` is, as a whole.
pub fn parse_hex_integer(input: &str) -> (r: Option<NumberLiteral>)
    ensures
        match r {
            Some(n) => whole(input@, hex_at(input@, 0)) == Some(n@),
            None => whole(input@, hex_at(input@, 0)) is None,
        },
{
    let s = chars_of(input);
    match read_hex(&s, 0) {
        Some((n, e)) => if e == s.len() {
            Some(n)
        } else {
            None
        },
        None => None,
    }
}

/// The octal literal (`0o` or `0O`, then digits) that `input` is, as a whole.
pub fn parse_oct_integer(input: &str) -> (r: Option<NumberLiteral>)
    ensures
        match r {
            Some(n) => whole(input@, oct_at(input@, 0)) == Some(n@),
            None => whole(input@, oct_at(input@, 0)) is None,
        },
{
    let s = chars_of(input);
    match read_oct(&s, 0) {
        Some((n, e)) => if e == s.len() {
            Some(n)
        } else {
            None
        },
        None => None,
    }
}

/// The binary literal (`0b` or `0B`, then digits) that `input` is, as a whole.
pub fn parse_bin_integer(input: &str) -> (r: Option<NumberLiteral>)
    ensures
        match r {
            Some(n) => whole(input@, bin_at(input@, 0)) == Some(n@),
            None => whole(input@, bin_at(input@, 0)) is None,
        },
{
    let s = chars_of(input);
    match read_bin(&s, 0) {
        Some((n, e)) => if e == s.len() {
            Some(n)
        } else {
            None
        },
        None => None,
    }
}

} // verus!
