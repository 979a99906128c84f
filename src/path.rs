//! Keys and paths: the dotted textual notation of a path, the reading of a
//! key as a sequence index, and the display of a path.

use vstd::prelude::*;
use crate::data::{DataKey, DataKeyPath, keys_view};
use crate::expr::Reference;
use crate::text::{chars_of, text_all, is_ascii_digit, is_digit};

verus! {

/// Why a key or a path could not be read.
#[derive(Debug, Clone, Copy, PartialEq, Eq, Structural)]
pub enum PathError {
    /// The text ended inside a quoted segment.
    UnterminatedQuote,
    /// The key is not a non-negative integer that fits in `usize`.
    NotANumber,
}

/// The segments of a dotted path, read from position `i` on: `quoted` tells
/// whether a quoted segment is open, `cur` is the segment being read and `done`
/// holds those already read. A `"` opens or closes a quoted segment and is not
/// kept; a `.` outside quotes ends a segment; the last segment is kept even if
/// empty. `None` where the text ends inside quotes.
pub open spec fn split_path(
    s: Seq<char>,
    i: int,
    quoted: bool,
    cur: Seq<char>,
    done: Seq<Seq<char>>,
) -> Option<Seq<Seq<char>>>
    decreases s.len() - i,
{
    if i < 0 || i >= s.len() {
        if quoted {
            None
        } else {
            Some(done.push(cur))
        }
    } else if s[i] == '"' {
        split_path(s, i + 1, !quoted, cur, done)
    } else if s[i] == '.' && !quoted {
        split_path(s, i + 1, false, Seq::empty(), done.push(cur))
    } else {
        split_path(s, i + 1, quoted, cur.push(s[i]), done)
    }
}

/// The path that the dotted text `s` denotes.
pub open spec fn path_of(s: Seq<char>) -> Option<Seq<Seq<char>>> {
    split_path(s, 0, false, Seq::empty(), Seq::empty())
}

pub open spec fn digit_value(c: char) -> nat {
    ((c as u32) as int - ('0' as u32) as int) as nat
}

/// The number that the decimal digits `d` spell.
pub open spec fn digits_value(d: Seq<char>) -> nat
    decreases d.len(),
{
    if d.len() == 0 {
        0
    } else {
        digits_value(d.drop_last()) * 10 + digit_value(d.last())
    }
}

/// `t` without one leading `+`.
pub open spec fn unsigned_part(t: Seq<char>) -> Seq<char> {
    if t.len() > 0 && t[0] == '+' {
        t.drop_first()
    } else {
        t
    }
}

/// The sequence index that a key spells: an optional `+`, then at least one
/// decimal digit, with a value that fits in `usize`.
pub open spec fn index_value(t: Seq<char>) -> Option<nat> {
    let d = unsigned_part(t);
    if d.len() > 0 && (forall|i: int| 0 <= i < d.len() ==> is_ascii_digit(#[trigger] d[i]))
        && digits_value(d) <= usize::MAX {
        Some(digits_value(d))
    } else {
        None
    }
}

pub open spec fn digit_char(n: nat) -> char {
    (('0' as u32) + n) as char
}

/// The decimal digits of `n`.
pub open spec fn decimal(n: nat) -> Seq<char>
    decreases n,
{
    if n < 10 {
        seq![digit_char(n)]
    } else {
        decimal(n / 10).push(digit_char(n % 10))
    }
}

/// The segments joined by `"."`.
pub open spec fn joined(ks: Seq<Seq<char>>) -> Seq<char>
    decreases ks.len(),
{
    if ks.len() == 0 {
        Seq::empty()
    } else if ks.len() == 1 {
        ks[0]
    } else {
        joined(ks.drop_last()) + seq!['"', '.', '"'] + ks.last()
    }
}

/// How a path is shown: each key in double quotes, separated by dots.
pub open spec fn display(ks: Seq<Seq<char>>) -> Seq<char> {
    seq!['"'] + joined(ks) + seq!['"']
}

proof fn lemma_digits_value_prefix(d: Seq<char>, k: int)
    requires
        0 <= k <= d.len(),
    ensures
        digits_value(d.subrange(0, k)) <= digits_value(d),
    decreases d.len() - k,
{
    if k < d.len() {
        lemma_digits_value_prefix(d, k + 1);
        assert(d.subrange(0, k + 1).drop_last() =~= d.subrange(0, k));
    }
    assert(d.subrange(0, d.len() as int) =~= d);
}

fn push_decimal(n: usize, out: &mut Vec<char>)
    ensures
        final(out)@ == old(out)@ + decimal(n as nat),
    decreases n,
{
    if n >= 10 {
        push_decimal(n / 10, out);
    }
    let c = ((n % 10) as u8 + 48) as char;
    assert(c == digit_char((n % 10) as nat));
    out.push(c);
    if n < 10 {
        assert(final(out)@ =~= old(out)@ + decimal(n as nat));
    } else {
        assert(final(out)@ =~= old(out)@ + decimal(n as nat));
    }
}

impl DataKey {
    /// The key whose text is `text`.
    pub fn from_text(text: &str) -> (r: DataKey)
        ensures
            r@ == text@,
    {
        DataKey(text_all(&chars_of(text)))
    }

    /// The key that addresses index `n` of a sequence: its decimal digits.
    pub fn from_index(n: usize) -> (r: DataKey)
        ensures
            r@ == decimal(n as nat),
    {
        let mut cs: Vec<char> = Vec::new();
        push_decimal(n, &mut cs);
        assert(cs@ =~= decimal(n as nat));
        DataKey(text_all(&cs))
    }

    /// The sequence index that this key spells.
    pub fn to_index(&self) -> (r: Result<usize, PathError>)
        ensures
            match r {
                Ok(n) => index_value(self@) == Some(n as nat),
                Err(e) => e == PathError::NotANumber && index_value(self@) is None,
            },
    {
        let t = chars_of(self.0.as_str());
        let start: usize = if t.len() > 0 && t[0] == '+' {
            1
        } else {
            0
        };
        let ghost d = unsigned_part(t@);
        assert(d =~= t@.subrange(start as int, t.len() as int));
        if start >= t.len() {
            return Err(PathError::NotANumber);
        }
        let mut v: usize = 0;
        let mut k: usize = start;
        while k < t.len()
            invariant
                start <= k <= t.len(),
                d == t@.subrange(start as int, t.len() as int),
                t@ == self@,
                d == unsigned_part(self@),
                forall|i: int| start <= i < k ==> is_ascii_digit(#[trigger] t@[i]),
                v as nat == digits_value(t@.subrange(start as int, k as int)),
            decreases t.len() - k,
        {
            let c = t[k];
            if !is_digit(c) {
                assert(d[k - start] == c);
                return Err(PathError::NotANumber);
            }
            let dv: usize = (c as u32 - '0' as u32) as usize;
            assert(t@.subrange(start as int, k + 1).drop_last() =~= t@.subrange(
                start as int,
                k as int,
            ));
            if v > (usize::MAX - dv) / 10 {
                assert(v * 10 + dv > usize::MAX) by (nonlinear_arith)
                    requires
                        v > (usize::MAX - dv) / 10,
                        dv <= 9,
                ;
                proof {
                    lemma_digits_value_prefix(d, k + 1 - start);
                    assert(d.subrange(0, k + 1 - start) =~= t@.subrange(start as int, k + 1));
                }
                return Err(PathError::NotANumber);
            }
            assert(v * 10 + dv <= usize::MAX) by (nonlinear_arith)
                requires
                    v <= (usize::MAX - dv) / 10,
                    dv <= 9,
            ;
            v = v * 10 + dv;
            k = k + 1;
        }
        assert(t@.subrange(start as int, t.len() as int) =~= d);
        Ok(v)
    }
}

impl DataKeyPath {
    /// The path of one key.
    pub fn from_key(key: DataKey) -> (r: DataKeyPath)
        ensures
            r@ == seq![key@],
    {
        let mut v: Vec<DataKey> = Vec::new();
        v.push(key);
        let r = DataKeyPath(v);
        assert(r@ =~= seq![key@]);
        r
    }

    /// The path whose keys are the segments of a reference.
    pub fn from_reference(reference: &Reference) -> (r: DataKeyPath)
        ensures
            r@ == reference@,
    {
        let mut v: Vec<DataKey> = Vec::new();
        let mut i: usize = 0;
        while i < reference.0.len()
            invariant
                i <= reference.0.len(),
                v@.len() == i,
                forall|j: int| 0 <= j < i ==> #[trigger] v@[j]@ == reference.0@[j]@,
            decreases reference.0.len() - i,
        {
            v.push(DataKey(reference.0[i].clone()));
            i = i + 1;
        }
        let r = DataKeyPath(v);
        assert(r@ =~= reference@);
        r
    }

    /// The path that a dotted text denotes, double quotes grouping a segment
    /// that holds dots. There is no escape for a quote inside a segment.
    pub fn parse(text: &str) -> (r: Result<DataKeyPath, PathError>)
        ensures
            match r {
                Ok(p) => path_of(text@) == Some(p@),
                Err(e) => e == PathError::UnterminatedQuote && path_of(text@) is None,
            },
    {
        let s = chars_of(text);
        let mut quoted = false;
        let mut cur: Vec<char> = Vec::new();
        let mut done: Vec<DataKey> = Vec::new();
        let mut i: usize = 0;
        assert(keys_view(done@) =~= Seq::<Seq<char>>::empty());
        assert(cur@ =~= Seq::<char>::empty());
        while i < s.len()
            invariant
                i <= s.len(),
                path_of(s@) == split_path(s@, i as int, quoted, cur@, keys_view(done@)),
            decreases s.len() - i,
        {
            let c = s[i];
            if c == '"' {
                quoted = !quoted;
            } else if c == '.' && !quoted {
                let ghost before = done@;
                done.push(DataKey(text_all(&cur)));
                assert(keys_view(done@) =~= keys_view(before).push(cur@));
                cur = Vec::new();
                assert(cur@ =~= Seq::<char>::empty());
            } else {
                cur.push(c);
            }
            i = i + 1;
        }
        if quoted {
            Err(PathError::UnterminatedQuote)
        } else {
            let ghost before = done@;
            done.push(DataKey(text_all(&cur)));
            assert(keys_view(done@) =~= keys_view(before).push(cur@));
            Ok(DataKeyPath(done))
        }
    }

    /// The path shown as its keys in double quotes, separated by dots:
    /// `"a"."b"`.
    pub fn to_string(&self) -> (r: String)
        ensures
            r@ == display(self@),
    {
        let mut out: Vec<char> = Vec::new();
        out.push('"');
        let mut i: usize = 0;
        while i < self.0.len()
            invariant
                i <= self.0.len(),
                out@ == seq!['"'] + joined(keys_view(self.0@).subrange(0, i as int)),
            decreases self.0.len() - i,
        {
            let ghost ks = keys_view(self.0@).subrange(0, i + 1);
            assert(ks.drop_last() =~= keys_view(self.0@).subrange(0, i as int));
            if i > 0 {
                out.push('"');
                out.push('.');
                out.push('"');
            }
            let cs = chars_of(self.0[i].0.as_str());
            let mut j: usize = 0;
            let ghost mid = out@;
            while j < cs.len()
                invariant
                    j <= cs.len(),
                    out@ == mid + cs@.subrange(0, j as int),
                decreases cs.len() - j,
            {
                out.push(cs[j]);
                j = j + 1;
                assert(out@ =~= mid + cs@.subrange(0, j as int));
            }
            assert(cs@.subrange(0, cs.len() as int) =~= cs@);
            if i == 0 {
                assert(out@ =~= seq!['"'] + joined(ks));
            } else {
                assert(out@ =~= seq!['"'] + joined(ks));
            }
            i = i + 1;
        }
        out.push('"');
        assert(keys_view(self.0@).subrange(0, self.0.len() as int) =~= keys_view(self.0@));
        assert(out@ =~= display(self@));
        text_all(&out)
    }
}

} // verus!
