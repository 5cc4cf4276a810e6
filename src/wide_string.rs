//! UTF-16 text for the speech engine, and conversions between UTF-8 and
//! UTF-16 offsets into the same text.

use crate::units::{
    char_len, chars_of, lemma_units_take_increasing, lemma_units_take_le, lemma_units_take_step,
    lemma_utf16_le_utf8, unit_len, units, Unit,
};
use vstd::string::StrSliceExecFns;
use std::ops::Range;
use vstd::prelude::*;

verus! {

/// The text that a sequence of UTF-16 code units encodes, with U+FFFD for
/// each unpaired surrogate.
pub uninterp spec fn utf16_lossy(code_units: Seq<u16>) -> Seq<char>;

/// Relies on String::from_utf16_lossy: decodes the code units, putting
/// U+FFFD for each unpaired surrogate.
#[verifier::external_body]
fn decode_utf16_lossy(v: &Vec<u16>, from: usize, to: usize) -> (r: String)
    requires
        from <= to <= v@.len(),
    ensures
        r@ == utf16_lossy(v@.subrange(from as int, to as int)),
{
    String::from_utf16_lossy(&v[from..to])
}

/// The UTF-16 code units of one char.
pub open spec fn utf16_of(c: char) -> Seq<u16> {
    let v = c as u32;
    if v < 0x10000 {
        seq![v as u16]
    } else {
        seq![(0xD800 + (v - 0x10000) / 0x400) as u16, (0xDC00 + (v - 0x10000) % 0x400) as u16]
    }
}

/// The UTF-16 encoding of a text.
pub open spec fn encode_utf16(s: Seq<char>) -> Seq<u16>
    decreases s.len(),
{
    if s.len() == 0 {
        seq![]
    } else {
        encode_utf16(s.drop_last()) + utf16_of(s.last())
    }
}

/// A buffer of UTF-16 code units, as the speech engine takes text.
#[derive(Debug, PartialEq, Eq)]
pub struct WideString {
    code_units: Vec<u16>,
}

impl View for WideString {
    type V = Seq<u16>;

    closed spec fn view(&self) -> Seq<u16> {
        self.code_units@
    }
}

impl WideString {
    /// An empty buffer.
    pub fn new() -> (r: WideString)
        ensures
            r@ == Seq::<u16>::empty(),
    {
        WideString { code_units: Vec::new() }
    }

    /// A buffer holding exactly `code_units`.
    pub fn from_units(code_units: Vec<u16>) -> (r: WideString)
        ensures
            r@ == code_units@,
    {
        WideString { code_units }
    }

    /// The UTF-16 encoding of `s` followed by a terminating 0.
    pub fn from_text(s: &str) -> (r: WideString)
        ensures
            r@ == encode_utf16(s@).push(0),
    {
        let chars = chars_of(s);
        let mut out: Vec<u16> = Vec::new();
        let mut k: usize = 0;
        while k < chars.len()
            invariant
                k <= chars@.len(),
                chars@ == s@,
                out@ == encode_utf16(s@.take(k as int)),
            decreases chars@.len() - k,
        {
            let v = chars[k] as u32;
            if v < 0x10000 {
                out.push(v as u16);
            } else {
                out.push((0xD800 + (v - 0x10000) / 0x400) as u16);
                out.push((0xDC00 + (v - 0x10000) % 0x400) as u16);
            }
            proof {
                assert(s@.take(k + 1).drop_last() =~= s@.take(k as int));
                assert(out@ =~= encode_utf16(s@.take(k + 1)));
            }
            k = k + 1;
        }
        proof {
            assert(s@.take(k as int) =~= s@);
        }
        out.push(0);
        WideString { code_units: out }
    }

    /// Number of code units.
    pub fn len(&self) -> (r: usize)
        ensures
            r == self@.len(),
    {
        self.code_units.len()
    }

    /// The code units.
    pub fn as_slice(&self) -> (r: &[u16])
        ensures
            r@ == self@,
    {
        self.code_units.as_slice()
    }

    /// The text that the code units in `range` encode.
    pub fn get_slice(&self, range: Range<usize>) -> (r: String)
        requires
            range.start <= range.end <= self@.len(),
        ensures
            r@ == utf16_lossy(self@.subrange(range.start as int, range.end as int)),
    {
        decode_utf16_lossy(&self.code_units, range.start, range.end)
    }
}

/// Length of a text in UTF-8 bytes and in UTF-16 code units.
pub trait LenUtf {
    spec fn len_chars(&self) -> Seq<char>;

    fn len_utf8(&self) -> (r: usize)
        requires
            units(self.len_chars(), Unit::Utf8) <= usize::MAX,
        ensures
            r == units(self.len_chars(), Unit::Utf8),
    ;

    fn len_utf16(&self) -> (r: usize)
        requires
            units(self.len_chars(), Unit::Utf16) <= usize::MAX,
        ensures
            r == units(self.len_chars(), Unit::Utf16),
    ;
}

impl LenUtf for str {
    open spec fn len_chars(&self) -> Seq<char> {
        self@
    }

    fn len_utf8(&self) -> (r: usize) {
        match unit_len(self, Unit::Utf8) {
            Some(n) => n,
            None => 0,
        }
    }

    fn len_utf16(&self) -> (r: usize) {
        match unit_len(self, Unit::Utf16) {
            Some(n) => n,
            None => 0,
        }
    }
}

/// The offset before each char and after the last one.
pub open spec fn prefix_units(s: Seq<char>, u: Unit) -> Seq<usize> {
    Seq::new((s.len() + 1) as nat, |k: int| units(s.take(k), u) as usize)
}

/// Offsets of the char boundaries of a text, in UTF-8 bytes and in UTF-16
/// code units.
pub trait IndicesUtf {
    spec fn indexed_chars(&self) -> Seq<char>;

    fn indices_utf8(&self) -> (r: Vec<usize>)
        requires
            units(self.indexed_chars(), Unit::Utf8) <= usize::MAX,
        ensures
            r@ == prefix_units(self.indexed_chars(), Unit::Utf8),
    ;

    fn indices_utf16(&self) -> (r: Vec<usize>)
        requires
            units(self.indexed_chars(), Unit::Utf16) <= usize::MAX,
        ensures
            r@ == prefix_units(self.indexed_chars(), Unit::Utf16),
    ;
}

fn boundary_offsets(s: &str, u: Unit) -> (r: Vec<usize>)
    requires
        units(s@, u) <= usize::MAX,
    ensures
        r@ == prefix_units(s@, u),
{
    let chars = chars_of(s);
    let mut out: Vec<usize> = Vec::new();
    out.push(0);
    let mut total: usize = 0;
    let mut k: usize = 0;
    proof {
        assert(s@.take(0) =~= seq![]);
        assert(out@ =~= prefix_units(s@.take(0), u));
    }
    while k < chars.len()
        invariant
            k <= chars@.len(),
            chars@ == s@,
            units(s@, u) <= usize::MAX,
            total == units(s@.take(k as int), u),
            out@ == prefix_units(s@.take(k as int), u),
        decreases chars@.len() - k,
    {
        proof {
            lemma_units_take_step(s@, k as int, u);
            if k + 1 < s@.len() {
                lemma_units_take_increasing(s@, k as int + 1, s@.len() as int, u);
            }
            assert(s@.take(s@.len() as int) =~= s@);
        }
        total = total + char_len(chars[k], u);
        out.push(total);
        proof {
            let t = s@.take(k + 1);
            assert forall|i: int| 0 <= i <= k implies #[trigger] t.take(i) =~= s@.take(k as int).take(i) by {}
            assert(t.take(k + 1) =~= t);
            assert(out@ =~= prefix_units(t, u));
        }
        k = k + 1;
    }
    proof {
        assert(s@.take(k as int) =~= s@);
    }
    out
}

impl IndicesUtf for str {
    open spec fn indexed_chars(&self) -> Seq<char> {
        self@
    }

    fn indices_utf8(&self) -> (r: Vec<usize>) {
        boundary_offsets(self, Unit::Utf8)
    }

    fn indices_utf16(&self) -> (r: Vec<usize>) {
        boundary_offsets(self, Unit::Utf16)
    }
}

/// `b` is the offset, in `u`, of a char boundary of `s`.
pub open spec fn is_offset(s: Seq<char>, b: int, u: Unit) -> bool {
    exists|j: int| 0 <= j <= s.len() && #[trigger] units(s.take(j), u) == b
}

/// The char index of the boundary at offset `b` in `u`.
pub open spec fn char_index_at(s: Seq<char>, b: int, u: Unit) -> int {
    choose|j: int| 0 <= j <= s.len() && #[trigger] units(s.take(j), u) == b
}

/// The UTF-16 offset of the boundary at UTF-8 offset `b`.
pub open spec fn utf16_offset_of(s: Seq<char>, b: int) -> int {
    units(s.take(char_index_at(s, b, Unit::Utf8)), Unit::Utf16) as int
}

/// Moves from char index `k` to the char index `j` whose UTF-8 offset is
/// `b`, counting UTF-16 code units on the way.
fn walk_to_utf8(chars: &Vec<char>, k: usize, pos8: usize, pos16: usize, b: usize, Ghost(j): Ghost<int>) -> (r: (usize, usize))
    requires
        k <= j <= chars@.len(),
        pos8 == units(chars@.take(k as int), Unit::Utf8),
        pos16 == units(chars@.take(k as int), Unit::Utf16),
        b == units(chars@.take(j), Unit::Utf8),
    ensures
        r.0 == j,
        r.1 == units(chars@.take(j), Unit::Utf16),
{
    let mut k = k;
    let mut pos8 = pos8;
    let mut pos16 = pos16;
    let n = chars.len();
    while pos8 < b
        invariant
            k <= j <= chars@.len(),
            n == chars@.len(),
            pos8 == units(chars@.take(k as int), Unit::Utf8),
            pos16 == units(chars@.take(k as int), Unit::Utf16),
            b == units(chars@.take(j), Unit::Utf8),
        decreases j - k,
    {
        proof {
            if k as int == j {
                assert(false);
            }
            lemma_units_take_step(chars@, k as int, Unit::Utf8);
            lemma_units_take_step(chars@, k as int, Unit::Utf16);
            lemma_utf16_le_utf8(chars@.take(k + 1));
            if k + 1 < j {
                lemma_units_take_increasing(chars@, k as int + 1, j, Unit::Utf8);
            }
        }
        pos8 = pos8 + char_len(chars[k], Unit::Utf8);
        pos16 = pos16 + char_len(chars[k], Unit::Utf16);
        k = k + 1;
    }
    proof {
        if (k as int) < j {
            lemma_units_take_increasing(chars@, k as int, j, Unit::Utf8);
        }
    }
    (k, pos16)
}

/// The UTF-16 range of the text at the UTF-8 range `idx`, whose ends lie on
/// char boundaries.
pub fn u16idx_from_u8idx(s: &str, idx: Range<usize>) -> (r: Range<usize>)
    requires
        idx.start <= idx.end,
        is_offset(s@, idx.start as int, Unit::Utf8),
        is_offset(s@, idx.end as int, Unit::Utf8),
    ensures
        r.start == utf16_offset_of(s@, idx.start as int),
        r.end == utf16_offset_of(s@, idx.end as int),
{
    let chars = chars_of(s);
    let ghost j1 = char_index_at(s@, idx.start as int, Unit::Utf8);
    let ghost j2 = char_index_at(s@, idx.end as int, Unit::Utf8);
    proof {
        assert(s@.take(0) =~= seq![]);
        if j2 < j1 {
            lemma_units_take_increasing(s@, j2, j1, Unit::Utf8);
        }
    }
    let (k1, start) = walk_to_utf8(&chars, 0, 0, 0, idx.start, Ghost(j1));
    let (_, end) = walk_to_utf8(&chars, k1, idx.start, start, idx.end, Ghost(j2));
    Range { start, end }
}

/// The chars `a..b` of `s` that the UTF-16 range `start..end` reaches: `b`
/// is one past the first char whose end reaches `end` (all chars if none
/// does), and `a` is the last char before `b` that starts at or before
/// `start`.
pub open spec fn u16_span(s: Seq<char>, start: int, end: int, a: int, b: int) -> bool {
    if s.len() == 0 {
        a == 0 && b == 0
    } else {
        &&& 0 <= a < b <= s.len()
        &&& forall|i: int| 0 < i < b ==> #[trigger] units(s.take(i), Unit::Utf16) < end
        &&& (b == s.len() || units(s.take(b), Unit::Utf16) >= end)
        &&& units(s.take(a), Unit::Utf16) <= start
        &&& forall|i: int| a < i < b ==> #[trigger] units(s.take(i), Unit::Utf16) > start
    }
}

/// Char indices of the span that a UTF-16 range reaches.
fn u16_span_chars(chars: &Vec<char>, start: usize, end: usize) -> (r: (usize, usize))
    requires
        units(chars@, Unit::Utf16) <= usize::MAX,
    ensures
        u16_span(chars@, start as int, end as int, r.0 as int, r.1 as int),
{
    let n = chars.len();
    if n == 0 {
        return (0, 0);
    }
    let mut pos: usize = 0;
    let mut a: usize = 0;
    let mut i: usize = 0;
    proof {
        assert(chars@.take(0) =~= seq![]);
    }
    while i < n
        invariant
            i <= n,
            n == chars@.len(),
            n > 0,
            units(chars@, Unit::Utf16) <= usize::MAX,
            pos == units(chars@.take(i as int), Unit::Utf16),
            forall|k: int| 0 < k <= i ==> #[trigger] units(chars@.take(k), Unit::Utf16) < end,
            i > 0 ==> a < i && units(chars@.take(a as int), Unit::Utf16) <= start,
            i > 0 ==> forall|k: int| a < k < i ==> #[trigger] units(chars@.take(k), Unit::Utf16) > start,
        decreases n - i,
    {
        if pos <= start {
            a = i;
        }
        proof {
            lemma_units_take_step(chars@, i as int, Unit::Utf16);
            lemma_units_take_le(chars@, i + 1, Unit::Utf16);
        }
        pos = pos + char_len(chars[i], Unit::Utf16);
        if end <= pos {
            return (a, i + 1);
        }
        i = i + 1;
    }
    (a, n)
}

/// The byte range of `s` that the UTF-16 range `idx` reaches (see
/// `u16_span`).
pub fn u8idx_from_u16idx(s: &str, idx: Range<usize>) -> (r: Range<usize>)
    requires
        units(s@, Unit::Utf8) <= usize::MAX,
    ensures
        exists|a: int, b: int|
            u16_span(s@, idx.start as int, idx.end as int, a, b) && r.start == units(
                s@.take(a),
                Unit::Utf8,
            ) && r.end == units(s@.take(b), Unit::Utf8),
{
    let chars = chars_of(s);
    proof {
        lemma_utf16_le_utf8(s@);
    }
    let (a, b) = u16_span_chars(&chars, idx.start, idx.end);
    let offsets = boundary_offsets(s, Unit::Utf8);
    proof {
        if s@.len() == 0 {
            assert(s@.take(0) =~= seq![]);
        }
        lemma_units_take_le(s@, a as int, Unit::Utf8);
        lemma_units_take_le(s@, b as int, Unit::Utf8);
    }
    Range { start: offsets[a], end: offsets[b] }
}

/// The part of `s` that the UTF-16 range `idx` reaches (see `u16_span`).
pub fn str_from_str_u16idx(s: &str, idx: Range<usize>) -> (r: &str)
    requires
        units(s@, Unit::Utf16) <= usize::MAX,
    ensures
        exists|a: int, b: int| u16_span(s@, idx.start as int, idx.end as int, a, b) && r@ == s@.subrange(a, b),
{
    let chars = chars_of(s);
    let (a, b) = u16_span_chars(&chars, idx.start, idx.end);
    s.substring_char(a, b)
}

} // verus!
