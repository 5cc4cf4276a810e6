//! Applying the rules in order: each rule splits the still-literal spans of
//! the text around its matches; replaced spans are left alone by later rules.

use crate::rules::{byte_match, find_rule_matches, rule_matches, rules_view, RegexCleanerPair};
use crate::units::{chars_of, char_len, lemma_units_take_increasing, lemma_units_take_step, units, Unit};
use vstd::prelude::*;

verus! {

/// A span of text as one rewriting step left it.
pub enum SegmentView {
    /// Source text that no rule has matched.
    Literal(Seq<char>),
    /// Source text that a rule matched, and what replaced it.
    Replaced(Seq<char>, Seq<char>),
}

/// A span of text as one rewriting step left it.
#[derive(Debug)]
pub enum Segment {
    Literal(String),
    Replaced(String, String),
}

impl View for Segment {
    type V = SegmentView;

    open spec fn view(&self) -> SegmentView {
        match self {
            Segment::Literal(t) => SegmentView::Literal(t@),
            Segment::Replaced(s, o) => SegmentView::Replaced(s@, o@),
        }
    }
}

/// The view of each segment.
pub open spec fn segs_view(v: Seq<Segment>) -> Seq<SegmentView> {
    v.map_values(|s: Segment| s@)
}

/// The source text that a segment stands for.
pub open spec fn source_of(seg: SegmentView) -> Seq<char> {
    match seg {
        SegmentView::Literal(t) => t,
        SegmentView::Replaced(s, _) => s,
    }
}

/// The source text that a sequence of segments stands for.
pub open spec fn sources(segs: Seq<SegmentView>) -> Seq<char>
    decreases segs.len(),
{
    if segs.len() == 0 {
        seq![]
    } else {
        sources(segs.drop_last()) + source_of(segs.last())
    }
}

/// Where the `k`-th match ends (0 before the first one).
pub open spec fn match_end(ms: Seq<(int, int, Seq<char>)>, k: int) -> int {
    if k <= 0 {
        0
    } else {
        ms[k - 1].1
    }
}

/// The pieces of `t` up to the end of its `k`-th match: for each match, the
/// unmatched text before it and the match with its replacement.
pub open spec fn pieces_upto(t: Seq<char>, ms: Seq<(int, int, Seq<char>)>, k: nat) -> Seq<SegmentView>
    decreases k,
{
    if k == 0 {
        seq![]
    } else {
        let m = ms[k - 1];
        pieces_upto(t, ms, (k - 1) as nat) + seq![
            SegmentView::Literal(t.subrange(match_end(ms, k - 1), m.0)),
            SegmentView::Replaced(t.subrange(m.0, m.1), m.2),
        ]
    }
}

/// `t` split around its matches, with the unmatched tail (if any) last.
pub open spec fn split_literal(t: Seq<char>, ms: Seq<(int, int, Seq<char>)>) -> Seq<SegmentView> {
    let last = match_end(ms, ms.len() as int);
    pieces_upto(t, ms, ms.len()) + if last < t.len() {
        seq![SegmentView::Literal(t.subrange(last, t.len() as int))]
    } else {
        seq![]
    }
}

/// One segment after one rule: literal text is split around the rule's
/// matches, replaced text stays as it is.
pub open spec fn expand_segment(rule: (Seq<char>, Seq<char>), seg: SegmentView) -> Seq<SegmentView> {
    match seg {
        SegmentView::Literal(t) => split_literal(t, rule_matches(rule.0, rule.1, t)),
        SegmentView::Replaced(_, _) => seq![seg],
    }
}

/// All segments after one rule.
pub open spec fn apply_rule(rule: (Seq<char>, Seq<char>), segs: Seq<SegmentView>) -> Seq<SegmentView>
    decreases segs.len(),
{
    if segs.len() == 0 {
        seq![]
    } else {
        apply_rule(rule, segs.drop_last()) + expand_segment(rule, segs.last())
    }
}

/// All segments after each rule in turn.
pub open spec fn apply_rules(rules: Seq<(Seq<char>, Seq<char>)>, segs: Seq<SegmentView>) -> Seq<SegmentView>
    decreases rules.len(),
{
    if rules.len() == 0 {
        segs
    } else {
        apply_rule(rules.last(), apply_rules(rules.drop_last(), segs))
    }
}

/// The segments that a rule list makes of a text.
pub open spec fn segments_of(x: Seq<char>, rules: Seq<(Seq<char>, Seq<char>)>) -> Seq<SegmentView> {
    apply_rules(rules, seq![SegmentView::Literal(x)])
}

/// The source text of two runs of segments is that of the first, then that of the second.
pub proof fn lemma_sources_concat(a: Seq<SegmentView>, b: Seq<SegmentView>)
    ensures
        sources(a + b) == sources(a) + sources(b),
    decreases b.len(),
{
    if b.len() == 0 {
        assert(a + b =~= a);
        assert(sources(a) + sources(b) =~= sources(a));
    } else {
        lemma_sources_concat(a, b.drop_last());
        assert((a + b).drop_last() =~= a + b.drop_last());
        assert(sources(a + b) =~= sources(a) + sources(b));
    }
}

proof fn lemma_segs_view_push(v: Seq<Segment>, s: Segment)
    ensures
        segs_view(v.push(s)) == segs_view(v).push(s@),
{
    assert(segs_view(v.push(s)) =~= segs_view(v).push(s@));
}

/// Adding a segment adds its source text at the end.
pub proof fn lemma_sources_push(a: Seq<SegmentView>, s: SegmentView)
    ensures
        sources(a.push(s)) == sources(a) + source_of(s),
{
    assert(a.push(s).drop_last() =~= a);
}

/// Relies on `FromIterator<&char>` for `String`: the `char`s in order.
#[verifier::external_body]
fn string_of(chars: &Vec<char>, from: usize, to: usize) -> (r: String)
    requires
        from <= to <= chars@.len(),
    ensures
        r@ == chars@.subrange(from as int, to as int),
{
    chars[from..to].iter().collect()
}

/// Moves from char index `k` (at byte offset `pos`) to the char index whose
/// byte offset is `b`.
fn advance(chars: &Vec<char>, k: usize, pos: usize, b: usize, Ghost(j): Ghost<int>) -> (r: usize)
    requires
        k <= j <= chars@.len(),
        pos == units(chars@.take(k as int), Unit::Utf8),
        b == units(chars@.take(j), Unit::Utf8),
    ensures
        r == j,
{
    let mut k = k;
    let mut pos = pos;
    let n = chars.len();
    while pos < b
        invariant
            k <= j <= chars@.len(),
            n == chars@.len(),
            pos == units(chars@.take(k as int), Unit::Utf8),
            b == units(chars@.take(j), Unit::Utf8),
        decreases j - k,
    {
        proof {
            if k as int == j {
                assert(false);
            }
            lemma_units_take_step(chars@, k as int, Unit::Utf8);
            if k + 1 < j {
                lemma_units_take_increasing(chars@, k as int + 1, j, Unit::Utf8);
            }
            assert(units(chars@.take(k + 1), Unit::Utf8) <= b);
        }
        let w = char_len(chars[k], Unit::Utf8);
        pos = pos + w;
        k = k + 1;
    }
    proof {
        if (k as int) < j {
            lemma_units_take_increasing(chars@, k as int, j, Unit::Utf8);
        }
    }
    k
}

/// Appends the pieces of the literal text `t` split around the matches of
/// `rule`.
fn split_literal_into(rule: &RegexCleanerPair, t: &String, out: &mut Vec<Segment>)
    ensures
        segs_view(final(out)@) == segs_view(old(out)@) + split_literal(
            t@,
            rule_matches(rule@.0, rule@.1, t@),
        ),
        sources(split_literal(t@, rule_matches(rule@.0, rule@.1, t@))) == t@,
{
    let ghost ms = rule_matches(rule@.0, rule@.1, t@);
    let ghost start = segs_view(out@);
    let found = find_rule_matches(rule, t.as_str());
    let chars = chars_of(t.as_str());
    let mut i: usize = 0;
    let mut last: usize = 0;
    let mut pos: usize = 0;
    proof {
        assert(t@.take(0) =~= seq![]);
        assert(start + pieces_upto(t@, ms, 0) =~= start);
    }
    while i < found.len()
        invariant
            chars@ == t@,
            i <= found@.len(),
            found@.len() == ms.len(),
            forall|k: int| 0 <= k < found@.len() ==> byte_match(#[trigger] found@[k], ms[k], t@),
            forall|k: int| 0 <= k < found@.len() - 1 ==> #[trigger] found@[k].1 <= found@[k + 1].0,
            last as int == match_end(ms, i as int),
            last <= t@.len(),
            pos == units(t@.take(last as int), Unit::Utf8),
            segs_view(out@) == start + pieces_upto(t@, ms, i as nat),
            sources(pieces_upto(t@, ms, i as nat)) == t@.take(last as int),
        decreases found@.len() - i,
    {
        let ghost m = ms[i as int];
        proof {
            assert(byte_match(found@[i as int], m, t@));
            if i > 0 {
                assert(byte_match(found@[i - 1], ms[i - 1], t@));
                assert(found@[i - 1].1 <= found@[i as int].0);
                if m.0 < last {
                    lemma_units_take_increasing(t@, m.0, last as int, Unit::Utf8);
                }
            }
        }
        let s = advance(&chars, last, pos, found[i].0, Ghost(m.0));
        let e = advance(&chars, s, found[i].0, found[i].1, Ghost(m.1));
        let lit = string_of(&chars, last, s);
        let src = string_of(&chars, s, e);
        let rep = found[i].2.clone();
        let ghost before = out@;
        out.push(Segment::Literal(lit));
        out.push(Segment::Replaced(src, rep));
        proof {
            lemma_segs_view_push(before, Segment::Literal(lit));
            lemma_segs_view_push(before.push(Segment::Literal(lit)), Segment::Replaced(src, rep));
            assert(out@ == before.push(Segment::Literal(lit)).push(Segment::Replaced(src, rep)));
            let pieces = pieces_upto(t@, ms, i as nat);
            let next = seq![
                SegmentView::Literal(t@.subrange(last as int, m.0)),
                SegmentView::Replaced(t@.subrange(m.0, m.1), m.2),
            ];
            assert(pieces_upto(t@, ms, (i + 1) as nat) == pieces + next);
            assert(segs_view(out@) =~= start + (pieces + next));
            lemma_sources_concat(pieces, next);
            lemma_sources_push(seq![SegmentView::Literal(t@.subrange(last as int, m.0))], SegmentView::Replaced(t@.subrange(m.0, m.1), m.2));
            assert(seq![SegmentView::Literal(t@.subrange(last as int, m.0))].push(SegmentView::Replaced(t@.subrange(m.0, m.1), m.2)) =~= next);
            lemma_sources_push(seq![], SegmentView::Literal(t@.subrange(last as int, m.0)));
            assert(seq![].push(SegmentView::Literal(t@.subrange(last as int, m.0))) =~= seq![SegmentView::Literal(t@.subrange(last as int, m.0))]);
            assert(sources(pieces + next) =~= t@.take(m.1));
        }
        last = e;
        pos = found[i].1;
        i = i + 1;
    }
    let ghost pieces = pieces_upto(t@, ms, ms.len());
    if last < chars.len() {
        let tail = string_of(&chars, last, chars.len());
        let ghost before = out@;
        out.push(Segment::Literal(tail));
        proof {
            lemma_segs_view_push(before, Segment::Literal(tail));
            let rest = seq![SegmentView::Literal(t@.subrange(last as int, t@.len() as int))];
            assert(segs_view(out@) =~= start + (pieces + rest));
            lemma_sources_concat(pieces, rest);
            lemma_sources_push(seq![], SegmentView::Literal(t@.subrange(last as int, t@.len() as int)));
            assert(seq![].push(SegmentView::Literal(t@.subrange(last as int, t@.len() as int))) =~= rest);
            assert(sources(pieces + rest) =~= t@);
        }
    } else {
        proof {
            assert(pieces + seq![] =~= pieces);
            assert(t@.take(last as int) =~= t@);
        }
    }
}

/// One rule applied to every segment.
fn apply_rule_to(rule: &RegexCleanerPair, segs: &Vec<Segment>) -> (r: Vec<Segment>)
    ensures
        segs_view(r@) == apply_rule(rule@, segs_view(segs@)),
        sources(segs_view(r@)) == sources(segs_view(segs@)),
{
    let mut out: Vec<Segment> = Vec::new();
    let mut j: usize = 0;
    proof {
        assert(segs_view(out@) =~= seq![]);
        assert(segs_view(segs@).take(0) =~= seq![]);
    }
    while j < segs.len()
        invariant
            j <= segs@.len(),
            segs_view(out@) == apply_rule(rule@, segs_view(segs@).take(j as int)),
            sources(segs_view(out@)) == sources(segs_view(segs@).take(j as int)),
        decreases segs@.len() - j,
    {
        let ghost before = segs_view(out@);
        let ghost seg = segs@[j as int]@;
        proof {
            assert(segs_view(segs@).take(j + 1).drop_last() =~= segs_view(segs@).take(j as int));
            assert(segs_view(segs@).take(j + 1).last() == seg);
        }
        match &segs[j] {
            Segment::Literal(t) => {
                split_literal_into(rule, t, &mut out);
            },
            Segment::Replaced(s, o) => {
                let ghost prev = out@;
                let copy = Segment::Replaced(s.clone(), o.clone());
                out.push(copy);
                proof {
                    lemma_segs_view_push(prev, copy);
                    assert(before.push(seg) =~= before + seq![seg]);
                    lemma_sources_push(seq![], seg);
                    assert(seq![].push(seg) =~= seq![seg]);
                }
            },
        }
        proof {
            let ex = expand_segment(rule@, seg);
            assert(segs_view(out@) =~= before + ex);
            lemma_sources_concat(before, ex);
            assert(sources(ex) == source_of(seg));
        }
        j = j + 1;
    }
    proof {
        assert(segs_view(segs@).take(segs@.len() as int) =~= segs_view(segs@));
    }
    out
}

/// The segments that the rules, applied in order, make of `raw`.
pub fn produce_segments(raw: &str, list: &[RegexCleanerPair]) -> (r: Vec<Segment>)
    ensures
        segs_view(r@) == segments_of(raw@, rules_view(list@)),
        sources(segs_view(r@)) == raw@,
{
    let mut segs: Vec<Segment> = Vec::new();
    segs.push(Segment::Literal(raw.to_owned()));
    let mut i: usize = 0;
    proof {
        assert(segs_view(segs@) =~= seq![SegmentView::Literal(raw@)]);
        assert(rules_view(list@).take(0) =~= seq![]);
        lemma_sources_push(seq![], SegmentView::Literal(raw@));
        assert(seq![].push(SegmentView::Literal(raw@)) =~= seq![SegmentView::Literal(raw@)]);
        assert(seq![] + raw@ =~= raw@);
    }
    while i < list.len()
        invariant
            i <= list@.len(),
            segs_view(segs@) == apply_rules(rules_view(list@).take(i as int), seq![SegmentView::Literal(raw@)]),
            sources(segs_view(segs@)) == raw@,
        decreases list@.len() - i,
    {
        segs = apply_rule_to(&list[i], &segs);
        proof {
            assert(rules_view(list@).take(i + 1).drop_last() =~= rules_view(list@).take(i as int));
            assert(rules_view(list@).take(i + 1).last() == list@[i as int]@);
        }
        i = i + 1;
    }
    proof {
        assert(rules_view(list@).take(list@.len() as int) =~= rules_view(list@));
    }
    segs
}

} // verus!
