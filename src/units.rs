//! Lengths of text in UTF-8 bytes or UTF-16 code units.

use vstd::prelude::*;

verus! {

/// The unit in which offsets into a text are counted.
#[derive(Debug, Clone, Copy, PartialEq, Eq)]
pub enum Unit {
    Utf8,
    Utf16,
}

/// Number of units that one `char` takes.
pub open spec fn char_units(c: char, u: Unit) -> nat {
    match u {
        Unit::Utf8 => if (c as u32) < 0x80 {
            1
        } else if (c as u32) < 0x800 {
            2
        } else if (c as u32) < 0x10000 {
            3
        } else {
            4
        },
        Unit::Utf16 => if (c as u32) < 0x10000 {
            1
        } else {
            2
        },
    }
}

/// Number of units that a text takes.
pub open spec fn units(s: Seq<char>, u: Unit) -> nat
    decreases s.len(),
{
    if s.len() == 0 {
        0
    } else {
        units(s.drop_last(), u) + char_units(s.last(), u)
    }
}

/// Units add up over concatenation.
pub proof fn lemma_units_concat(a: Seq<char>, b: Seq<char>, u: Unit)
    ensures
        units(a + b, u) == units(a, u) + units(b, u),
    decreases b.len(),
{
    if b.len() == 0 {
        assert(a + b =~= a);
    } else {
        lemma_units_concat(a, b.drop_last(), u);
        assert((a + b).drop_last() =~= a + b.drop_last());
    }
}

/// Taking one more char adds its units.
pub proof fn lemma_units_take_step(s: Seq<char>, k: int, u: Unit)
    requires
        0 <= k < s.len(),
    ensures
        units(s.take(k + 1), u) == units(s.take(k), u) + char_units(s[k], u),
{
    assert(s.take(k + 1).drop_last() =~= s.take(k));
}

/// A prefix takes no more units than the whole text.
pub proof fn lemma_units_take_le(s: Seq<char>, k: int, u: Unit)
    requires
        0 <= k <= s.len(),
    ensures
        units(s.take(k), u) <= units(s, u),
{
    lemma_units_concat(s.take(k), s.skip(k), u);
    assert(s.take(k) + s.skip(k) =~= s);
}

/// Units strictly grow with every `char` taken.
pub proof fn lemma_units_take_increasing(s: Seq<char>, j: int, k: int, u: Unit)
    requires
        0 <= j < k <= s.len(),
    ensures
        units(s.take(j), u) < units(s.take(k), u),
    decreases k - j,
{
    lemma_units_take_step(s, k - 1, u);
    if j < k - 1 {
        lemma_units_take_increasing(s, j, k - 1, u);
    }
}

/// A text takes no more UTF-16 code units than UTF-8 bytes.
pub proof fn lemma_utf16_le_utf8(s: Seq<char>)
    ensures
        units(s, Unit::Utf16) <= units(s, Unit::Utf8),
    decreases s.len(),
{
    if s.len() > 0 {
        lemma_utf16_le_utf8(s.drop_last());
    }
}

/// Number of units that one `char` takes.
pub fn char_len(c: char, u: Unit) -> (r: usize)
    ensures
        r == char_units(c, u),
{
    let v = c as u32;
    match u {
        Unit::Utf8 => if v < 0x80 {
            1
        } else if v < 0x800 {
            2
        } else if v < 0x10000 {
            3
        } else {
            4
        },
        Unit::Utf16 => if v < 0x10000 {
            1
        } else {
            2
        },
    }
}

/// The length of `s` in units, or `None` where it does not fit in `usize`.
pub fn unit_len(s: &str, u: Unit) -> (r: Option<usize>)
    ensures
        r == (if units(s@, u) <= usize::MAX {
            Some(units(s@, u) as usize)
        } else {
            None::<usize>
        }),
{
    let chars = chars_of(s);
    let mut total: usize = 0;
    let mut k: usize = 0;
    while k < chars.len()
        invariant
            k <= chars@.len(),
            chars@ == s@,
            total == units(s@.take(k as int), u),
        decreases chars@.len() - k,
    {
        let w = char_len(chars[k], u);
        proof {
            lemma_units_take_step(s@, k as int, u);
            lemma_units_take_le(s@, k as int + 1, u);
        }
        if total > usize::MAX - w {
            return None;
        }
        total = total + w;
        k = k + 1;
    }
    proof {
        assert(s@.take(k as int) =~= s@);
    }
    Some(total)
}

/// The `char`s of a text.
pub fn chars_of(s: &str) -> (r: Vec<char>)
    ensures
        r@ == s@,
{
    let mut out: Vec<char> = Vec::new();
    for c in it: s.chars()
        invariant
            out@ == it.seq().take(it.index() as int),
    {
        out.push(c);
    }
    out
}

} // verus!
