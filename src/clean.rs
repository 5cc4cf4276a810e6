//! The grapheme collapser and the public entry points: cleaned text, and the
//! checkpoint tables that pair source offsets with output offsets.

use crate::rules::{rules_view, RegexCleanerPair};
use crate::segments::{
    lemma_sources_concat, lemma_sources_push, produce_segments, segments_of, segs_view, source_of, sources, Segment,
    SegmentView,
};
use crate::units::{chars_of, lemma_units_concat, lemma_units_take_le, unit_len, units, Unit};
use crate::offsets::sorted;
use unicode_segmentation::UnicodeSegmentation;
use vstd::prelude::*;
use vstd::string::StringExecFns;

verus! {

/// The extended grapheme clusters of a text, in order.
pub uninterp spec fn grapheme_clusters(s: Seq<char>) -> Seq<Seq<char>>;

/// Whether a char's general category is one of the number categories.
pub uninterp spec fn numeric_char(c: char) -> bool;

/// The texts of a sequence, one after another.
pub open spec fn concat_all(gs: Seq<Seq<char>>) -> Seq<char>
    decreases gs.len(),
{
    if gs.len() == 0 {
        seq![]
    } else {
        concat_all(gs.drop_last()) + gs.last()
    }
}

/// The texts of a sequence of strings.
pub open spec fn string_views(v: Seq<String>) -> Seq<Seq<char>> {
    v.map_values(|g: String| g@)
}

/// Relies on unicode_segmentation's `graphemes(true)`: the extended grapheme
/// clusters of the text, in order, each non-empty, together the whole text.
#[verifier::external_body]
fn graphemes_of(s: &str) -> (r: Vec<String>)
    ensures
        string_views(r@) == grapheme_clusters(s@),
        forall|k: int| 0 <= k < r@.len() ==> #[trigger] r@[k]@.len() > 0,
        concat_all(string_views(r@)) == s@,
{
    let mut out = Vec::new();
    for g in s.graphemes(true) {
        out.push(g.to_string());
    }
    out
}

/// Relies on char::is_numeric: whether the char is in a number category.
#[verifier::external_body]
fn is_numeric(c: char) -> (r: bool)
    ensures
        r == numeric_char(c),
{
    c.is_numeric()
}

/// Unicode's White_Space property.
pub open spec fn white_space_char(c: char) -> bool {
    let v = c as u32;
    (0x9 <= v <= 0xD) || v == 0x20 || v == 0x85 || v == 0xA0 || v == 0x1680 || (0x2000 <= v
        <= 0x200A) || v == 0x2028 || v == 0x2029 || v == 0x202F || v == 0x205F || v == 0x3000
}

/// A cluster all of whose chars are white space.
pub open spec fn white_cluster(g: Seq<char>) -> bool {
    g.len() > 0 && forall|i: int| 0 <= i < g.len() ==> white_space_char(#[trigger] g[i])
}

/// A cluster all of whose chars are numeric.
pub open spec fn numeric_cluster(g: Seq<char>) -> bool {
    forall|i: int| 0 <= i < g.len() ==> numeric_char(#[trigger] g[i])
}

/// The collapser's steps: one per grapheme cluster of literal text, one per
/// replaced span.
pub open spec fn clusters_to_steps(gs: Seq<Seq<char>>) -> Seq<SegmentView> {
    gs.map_values(|g: Seq<char>| SegmentView::Literal(g))
}

/// The collapser's steps for one segment.
pub open spec fn steps_of_segment(seg: SegmentView) -> Seq<SegmentView> {
    match seg {
        SegmentView::Literal(t) => clusters_to_steps(grapheme_clusters(t)),
        SegmentView::Replaced(_, _) => seq![seg],
    }
}

/// The collapser's steps for a sequence of segments, in order.
pub open spec fn steps_of(segs: Seq<SegmentView>) -> Seq<SegmentView>
    decreases segs.len(),
{
    if segs.len() == 0 {
        seq![]
    } else {
        steps_of(segs.drop_last()) + steps_of_segment(segs.last())
    }
}

/// The collapser's steps for a text under a rule list.
pub open spec fn clean_steps(x: Seq<char>, rules: Seq<(Seq<char>, Seq<char>)>) -> Seq<SegmentView> {
    steps_of(segments_of(x, rules))
}

/// The run so far: the last cluster seen and how many times in a row it came.
pub open spec fn next_count(st: (Seq<char>, nat), g: Seq<char>) -> nat {
    if g == st.0 {
        st.1 + 1
    } else {
        1
    }
}

/// What a cluster becomes: a run of white space becomes one space; the fourth
/// and later repetitions of any other cluster are dropped, unless it is
/// numeric.
pub open spec fn cluster_output(st: (Seq<char>, nat), g: Seq<char>) -> Seq<char> {
    if white_cluster(g) {
        if white_cluster(st.0) {
            seq![]
        } else {
            seq![' ']
        }
    } else if next_count(st, g) <= 3 || numeric_cluster(g) {
        g
    } else {
        seq![]
    }
}

/// What one step outputs, given the run before it.
pub open spec fn step_output(st: (Seq<char>, nat), step: SegmentView) -> Seq<char> {
    match step {
        SegmentView::Literal(g) => cluster_output(st, g),
        SegmentView::Replaced(_, o) => o,
    }
}

/// Replaced spans neither end nor extend a run.
pub open spec fn step_state(st: (Seq<char>, nat), step: SegmentView) -> (Seq<char>, nat) {
    match step {
        SegmentView::Literal(g) => (g, next_count(st, g)),
        SegmentView::Replaced(_, _) => st,
    }
}

/// The run after a sequence of steps, starting from no cluster at all.
pub open spec fn state_after(steps: Seq<SegmentView>) -> (Seq<char>, nat)
    decreases steps.len(),
{
    if steps.len() == 0 {
        (seq![], 0)
    } else {
        step_state(state_after(steps.drop_last()), steps.last())
    }
}

/// The output of a sequence of steps.
pub open spec fn collapse_out(steps: Seq<SegmentView>) -> Seq<char>
    decreases steps.len(),
{
    if steps.len() == 0 {
        seq![]
    } else {
        collapse_out(steps.drop_last()) + step_output(state_after(steps.drop_last()), steps.last())
    }
}

/// The cleaned text.
pub open spec fn clean_spec(x: Seq<char>, rules: Seq<(Seq<char>, Seq<char>)>) -> Seq<char> {
    collapse_out(clean_steps(x, rules))
}

/// Checkpoint `k` on the source side: the units of source text that the
/// first `k` steps consumed.
pub open spec fn source_table(steps: Seq<SegmentView>, u: Unit) -> Seq<usize> {
    Seq::new((steps.len() + 1) as nat, |k: int| units(sources(steps.take(k)), u) as usize)
}

/// Checkpoint `k` on the output side: the units of output that the first `k`
/// steps produced.
pub open spec fn output_table(steps: Seq<SegmentView>, u: Unit) -> Seq<usize> {
    Seq::new((steps.len() + 1) as nat, |k: int| units(collapse_out(steps.take(k)), u) as usize)
}

/// The cleaned text with its two checkpoint tables.
pub open spec fn cleaned_with_offsets(x: Seq<char>, rules: Seq<(Seq<char>, Seq<char>)>, u: Unit) -> (
    Seq<char>,
    Seq<usize>,
    Seq<usize>,
) {
    (
        clean_spec(x, rules),
        source_table(clean_steps(x, rules), u),
        output_table(clean_steps(x, rules), u),
    )
}

fn is_white_space(c: char) -> (r: bool)
    ensures
        r == white_space_char(c),
{
    let v = c as u32;
    (0x9 <= v && v <= 0xD) || v == 0x20 || v == 0x85 || v == 0xA0 || v == 0x1680 || (0x2000 <= v
        && v <= 0x200A) || v == 0x2028 || v == 0x2029 || v == 0x202F || v == 0x205F || v == 0x3000
}

fn is_white_cluster(g: &String) -> (r: bool)
    ensures
        r == white_cluster(g@),
{
    let chars = chars_of(g.as_str());
    if chars.len() == 0 {
        return false;
    }
    let mut i: usize = 0;
    while i < chars.len()
        invariant
            i <= chars@.len(),
            chars@ == g@,
            forall|j: int| 0 <= j < i ==> white_space_char(#[trigger] g@[j]),
        decreases chars@.len() - i,
    {
        if !is_white_space(chars[i]) {
            return false;
        }
        i = i + 1;
    }
    true
}

fn is_numeric_cluster(g: &String) -> (r: bool)
    ensures
        r == numeric_cluster(g@),
{
    let chars = chars_of(g.as_str());
    let mut i: usize = 0;
    while i < chars.len()
        invariant
            i <= chars@.len(),
            chars@ == g@,
            forall|j: int| 0 <= j < i ==> numeric_char(#[trigger] g@[j]),
        decreases chars@.len() - i,
    {
        if !is_numeric(chars[i]) {
            return false;
        }
        i = i + 1;
    }
    true
}

/// The collapser's running state; `count` stops growing at 4, past which
/// nothing changes.
struct Run {
    last: String,
    count: usize,
    white: bool,
}

spec fn run_agrees(run: Run, st: (Seq<char>, nat)) -> bool {
    &&& run.last@ == st.0
    &&& run.count as nat == if st.1 < 4 {
        st.1
    } else {
        4
    }
    &&& run.white == white_cluster(st.0)
}

/// Decides what one cluster becomes and moves the run on.
fn cluster_step(run: &mut Run, g: String, Ghost(st): Ghost<(Seq<char>, nat)>) -> (out: String)
    requires
        run_agrees(*old(run), st),
    ensures
        out@ == cluster_output(st, g@),
        run_agrees(*final(run), (g@, next_count(st, g@))),
{
    let same = g == run.last;
    let count: usize = if same {
        if run.count < 4 {
            run.count + 1
        } else {
            4
        }
    } else {
        1
    };
    let white = is_white_cluster(&g);
    let out = if white {
        if run.white {
            String::new()
        } else {
            proof {
                reveal_strlit(" ");
            }
            " ".to_owned()
        }
    } else if count <= 3 || is_numeric_cluster(&g) {
        g.clone()
    } else {
        String::new()
    };
    proof {
        assert(seq![' '] =~= " "@) by {
            reveal_strlit(" ");
        }
    }
    run.last = g;
    run.count = count;
    run.white = white;
    out
}

/// Checkpoint tables under construction, with the running totals.
struct Table {
    source: Vec<usize>,
    output: Vec<usize>,
    src_total: usize,
    out_total: usize,
}

spec fn table_inv(table: Option<Table>, record: bool, done: Seq<SegmentView>, text: Seq<char>, u: Unit) -> bool {
    match table {
        Some(t) => {
            &&& record
            &&& t.source@ == source_table(done, u)
            &&& t.output@ == output_table(done, u)
            &&& t.src_total == units(sources(done), u)
            &&& t.out_total == units(text, u)
        },
        None => !record || units(sources(done), u) > usize::MAX || units(text, u) > usize::MAX,
    }
}

/// Adds the checkpoint after a step that consumed `src` and produced `out`;
/// gives up (for good) once a total no longer fits in `usize`.
fn extend_table(tab: Option<Table>, src: &str, out: &str, u: Unit) -> (r: Option<Table>)
    ensures
        match tab {
            Some(t) => if t.src_total + units(src@, u) <= usize::MAX && t.out_total + units(out@, u)
                <= usize::MAX {
                r matches Some(t2) && t2.source@ == t.source@.push(
                    (t.src_total + units(src@, u)) as usize,
                ) && t2.output@ == t.output@.push((t.out_total + units(out@, u)) as usize)
                    && t2.src_total == t.src_total + units(src@, u) && t2.out_total == t.out_total
                    + units(out@, u)
            } else {
                r is None
            },
            None => r is None,
        },
{
    match tab {
        None => None,
        Some(t) => {
            let mut t = t;
            match (unit_len(src, u), unit_len(out, u)) {
                (Some(a), Some(b)) => {
                    if t.src_total > usize::MAX - a || t.out_total > usize::MAX - b {
                        return None;
                    }
                    t.src_total = t.src_total + a;
                    t.out_total = t.out_total + b;
                    t.source.push(t.src_total);
                    t.output.push(t.out_total);
                    Some(t)
                },
                _ => None,
            }
        },
    }
}

proof fn lemma_push_step(done: Seq<SegmentView>, x: SegmentView, u: Unit)
    ensures
        sources(done.push(x)) == sources(done) + source_of(x),
        collapse_out(done.push(x)) == collapse_out(done) + step_output(state_after(done), x),
        state_after(done.push(x)) == step_state(state_after(done), x),
        source_table(done.push(x), u) == source_table(done, u).push(
            units(sources(done.push(x)), u) as usize,
        ),
        output_table(done.push(x), u) == output_table(done, u).push(
            units(collapse_out(done.push(x)), u) as usize,
        ),
{
    let d2 = done.push(x);
    assert(d2.drop_last() =~= done);
    assert forall|k: int| 0 <= k <= done.len() implies #[trigger] d2.take(k) =~= done.take(k) by {}
    assert(d2.take(d2.len() as int) =~= d2);
    assert(source_table(d2, u) =~= source_table(done, u).push(units(sources(d2), u) as usize));
    assert(output_table(d2, u) =~= output_table(done, u).push(units(collapse_out(d2), u) as usize));
}

/// Keeps the table invariant across one step that consumed `src` and
/// produced `out`.
proof fn lemma_table_step(
    old_tab: Option<Table>,
    new_tab: Option<Table>,
    record: bool,
    done: Seq<SegmentView>,
    x: SegmentView,
    text: Seq<char>,
    out: Seq<char>,
    u: Unit,
)
    requires
        table_inv(old_tab, record, done, text, u),
        match old_tab {
            Some(t) => if t.src_total + units(source_of(x), u) <= usize::MAX && t.out_total + units(
                out,
                u,
            ) <= usize::MAX {
                new_tab matches Some(t2) && t2.source@ == t.source@.push(
                    (t.src_total + units(source_of(x), u)) as usize,
                ) && t2.output@ == t.output@.push((t.out_total + units(out, u)) as usize)
                    && t2.src_total == t.src_total + units(source_of(x), u) && t2.out_total
                    == t.out_total + units(out, u)
            } else {
                new_tab is None
            },
            None => new_tab is None,
        },
        collapse_out(done.push(x)) == text + out,
        sources(done.push(x)) == sources(done) + source_of(x),
        source_table(done.push(x), u) == source_table(done, u).push(
            units(sources(done.push(x)), u) as usize,
        ),
        output_table(done.push(x), u) == output_table(done, u).push(
            units(collapse_out(done.push(x)), u) as usize,
        ),
    ensures
        table_inv(new_tab, record, done.push(x), text + out, u),
{
    lemma_units_concat(sources(done), source_of(x), u);
    lemma_units_concat(text, out, u);
}

/// Runs the collapser over the segments, building the output text and, if
/// `record` and while the totals fit in `usize`, the checkpoint tables.
fn collapse(segs: &Vec<Segment>, u: Unit, record: bool) -> (r: (String, Option<(Vec<usize>, Vec<usize>)>))
    ensures
        r.0@ == collapse_out(steps_of(segs_view(segs@))),
        sources(steps_of(segs_view(segs@))) == sources(segs_view(segs@)),
        r.1 is Some <==> (record && units(sources(segs_view(segs@)), u) <= usize::MAX && units(r.0@, u)
            <= usize::MAX),
        r.1 matches Some(t) ==> t.0@ == source_table(steps_of(segs_view(segs@)), u) && t.1@
            == output_table(steps_of(segs_view(segs@)), u),
{
    let ghost sv = segs_view(segs@);
    let mut text = String::new();
    let mut run = Run { last: String::new(), count: 0, white: false };
    let mut table: Option<Table> = if record {
        let mut source: Vec<usize> = Vec::new();
        source.push(0);
        let mut output: Vec<usize> = Vec::new();
        output.push(0);
        Some(Table { source, output, src_total: 0, out_total: 0 })
    } else {
        None
    };
    let ghost mut done: Seq<SegmentView> = seq![];
    let mut j: usize = 0;
    proof {
        assert(sv.take(0) =~= seq![]);
        assert(source_table(done, u) =~= seq![0usize]);
        assert(output_table(done, u) =~= seq![0usize]);
        assert(text@ =~= seq![]);
    }
    while j < segs.len()
        invariant
            j <= segs@.len(),
            sv == segs_view(segs@),
            done == steps_of(sv.take(j as int)),
            sources(done) == sources(sv.take(j as int)),
            text@ == collapse_out(done),
            run_agrees(run, state_after(done)),
            table_inv(table, record, done, text@, u),
        decreases segs@.len() - j,
    {
        let ghost seg = sv[j as int];
        proof {
            assert(sv.take(j + 1).drop_last() =~= sv.take(j as int));
            assert(sv.take(j + 1).last() == seg);
        }
        match &segs[j] {
            Segment::Literal(t) => {
                let gs = graphemes_of(t.as_str());
                let ghost base = done;
                let ghost gv = string_views(gs@);
                let mut c: usize = 0;
                proof {
                    assert(gv.take(0) =~= seq![]);
                    assert(base + clusters_to_steps(gv.take(0)) =~= base);
                    assert(sources(base) + concat_all(gv.take(0)) =~= sources(base));
                }
                while c < gs.len()
                    invariant
                        c <= gs@.len(),
                        gv == string_views(gs@),
                        gv.len() == gs@.len(),
                        done == base + clusters_to_steps(gv.take(c as int)),
                        sources(done) == sources(base) + concat_all(gv.take(c as int)),
                        text@ == collapse_out(done),
                        run_agrees(run, state_after(done)),
                        table_inv(table, record, done, text@, u),
                    decreases gs@.len() - c,
                {
                    let g = gs[c].clone();
                    let ghost x = SegmentView::Literal(g@);
                    let ghost old_text = text@;
                    let ghost old_tab = table;
                    let o = cluster_step(&mut run, g.clone(), Ghost(state_after(done)));
                    text.append(o.as_str());
                    table = extend_table(table, g.as_str(), o.as_str(), u);
                    proof {
                        lemma_push_step(done, x, u);
                        lemma_table_step(old_tab, table, record, done, x, old_text, o@, u);
                        assert(gv[c as int] == g@);
                        assert(gv.take(c + 1).drop_last() =~= gv.take(c as int));
                        assert(clusters_to_steps(gv.take(c + 1)) =~= clusters_to_steps(
                            gv.take(c as int),
                        ).push(x));
                        assert(base + clusters_to_steps(gv.take(c + 1)) =~= done.push(x));
                        assert(sources(base) + concat_all(gv.take(c + 1)) =~= sources(base)
                            + concat_all(gv.take(c as int)) + g@);
                        done = done.push(x);
                    }
                    c = c + 1;
                }
                proof {
                    assert(gv.take(gs@.len() as int) =~= gv);
                }
            },
            Segment::Replaced(s, o) => {
                let ghost old_text = text@;
                let ghost old_tab = table;
                text.append(o.as_str());
                table = extend_table(table, s.as_str(), o.as_str(), u);
                proof {
                    lemma_push_step(done, seg, u);
                    lemma_table_step(old_tab, table, record, done, seg, old_text, o@, u);
                    assert(done.push(seg) =~= done + seq![seg]);
                    lemma_sources_push(seq![], seg);
                    assert(seq![].push(seg) =~= seq![seg]);
                    done = done.push(seg);
                }
            },
        }
        j = j + 1;
    }
    proof {
        assert(sv.take(segs@.len() as int) =~= sv);
    }
    match table {
        Some(t) => (text, Some((t.source, t.output))),
        None => (text, None),
    }
}

/// Cleaned text together with its checkpoint tables: `source[k]` and
/// `output[k]` are the offsets in source and cleaned text after `k` steps.
#[derive(Debug)]
pub struct CleanedText {
    pub text: String,
    pub source: Vec<usize>,
    pub output: Vec<usize>,
}

/// Cleans `raw`: the rules in order, then the grapheme collapser.
pub fn clean_text(raw: &str, list: &[RegexCleanerPair]) -> (r: String)
    ensures
        r@ == clean_spec(raw@, rules_view(list@)),
{
    let segs = produce_segments(raw, list);
    let (text, _) = collapse(&segs, Unit::Utf8, false);
    text
}

/// Cleans `raw` and records the checkpoint tables in `unit`. The steps
/// consume the whole source text, in order. `None` only where an offset
/// would not fit in `usize`.
pub fn clean_with_offsets(raw: &str, list: &[RegexCleanerPair], unit: Unit) -> (r: Option<CleanedText>)
    ensures
        sources(clean_steps(raw@, rules_view(list@))) == raw@,
        r is Some <==> (units(raw@, unit) <= usize::MAX && units(
            clean_spec(raw@, rules_view(list@)),
            unit,
        ) <= usize::MAX),
        r matches Some(c) ==> (c.text@, c.source@, c.output@) == cleaned_with_offsets(
            raw@,
            rules_view(list@),
            unit,
        ),
        r matches Some(c) ==> c.source@[0] == 0 && c.output@[0] == 0 && sorted(c.source@) && sorted(
            c.output@,
        ),
{
    let segs = produce_segments(raw, list);
    let (text, tables) = collapse(&segs, unit, true);
    proof {
        if tables is Some {
            lemma_tables_sorted(steps_of(segs_view(segs@)), unit);
        }
    }
    match tables {
        Some((source, output)) => Some(CleanedText { text, source, output }),
        None => None,
    }
}

/// Cleans `raw` once and records the checkpoint tables in UTF-8 bytes and in
/// UTF-16 code units. Both come from the same steps, so entry `k` of any table
/// pairs with entry `k` of any other (e.g. a UTF-16 range in the cleaned text
/// maps to a UTF-8 range in the source). `None` only where an offset would not
/// fit in `usize`.
pub fn clean_with_both_offsets(raw: &str, list: &[RegexCleanerPair]) -> (r: Option<(CleanedText, CleanedText)>)
    ensures
        r is Some <==> (clean_with_offsets_fits(raw@, rules_view(list@), Unit::Utf8)
            && clean_with_offsets_fits(raw@, rules_view(list@), Unit::Utf16)),
        r matches Some(c) ==> (c.0.text@, c.0.source@, c.0.output@) == cleaned_with_offsets(
            raw@,
            rules_view(list@),
            Unit::Utf8,
        ) && (c.1.text@, c.1.source@, c.1.output@) == cleaned_with_offsets(
            raw@,
            rules_view(list@),
            Unit::Utf16,
        ),
        r matches Some(c) ==> c.0.source@.len() == c.1.source@.len() && sorted(c.1.output@),
{
    let segs = produce_segments(raw, list);
    let (text8, tables8) = collapse(&segs, Unit::Utf8, true);
    let (text16, tables16) = collapse(&segs, Unit::Utf16, true);
    proof {
        if tables16 is Some {
            lemma_tables_sorted(steps_of(segs_view(segs@)), Unit::Utf16);
        }
    }
    match (tables8, tables16) {
        (Some((source8, output8)), Some((source16, output16))) => Some(
            (
                CleanedText { text: text8, source: source8, output: output8 },
                CleanedText { text: text16, source: source16, output: output16 },
            ),
        ),
        _ => None,
    }
}

/// Source side of the table in UTF-8 bytes.
pub fn clean_text_u8idx_in(raw: &str, list: &[RegexCleanerPair]) -> (r: Option<Vec<usize>>)
    ensures
        r is Some <==> clean_with_offsets_fits(raw@, rules_view(list@), Unit::Utf8),
        r matches Some(v) ==> v@ == cleaned_with_offsets(raw@, rules_view(list@), Unit::Utf8).1,
{
    match clean_with_offsets(raw, list, Unit::Utf8) {
        Some(c) => Some(c.source),
        None => None,
    }
}

/// Source side of the table in UTF-16 code units.
pub fn clean_text_u16idx_in(raw: &str, list: &[RegexCleanerPair]) -> (r: Option<Vec<usize>>)
    ensures
        r is Some <==> clean_with_offsets_fits(raw@, rules_view(list@), Unit::Utf16),
        r matches Some(v) ==> v@ == cleaned_with_offsets(raw@, rules_view(list@), Unit::Utf16).1,
{
    match clean_with_offsets(raw, list, Unit::Utf16) {
        Some(c) => Some(c.source),
        None => None,
    }
}

/// Output side of the table in UTF-8 bytes.
pub fn clean_text_u8idx_out(raw: &str, list: &[RegexCleanerPair]) -> (r: Option<Vec<usize>>)
    ensures
        r is Some <==> clean_with_offsets_fits(raw@, rules_view(list@), Unit::Utf8),
        r matches Some(v) ==> v@ == cleaned_with_offsets(raw@, rules_view(list@), Unit::Utf8).2,
{
    match clean_with_offsets(raw, list, Unit::Utf8) {
        Some(c) => Some(c.output),
        None => None,
    }
}

/// Output side of the table in UTF-16 code units.
pub fn clean_text_u16idx_out(raw: &str, list: &[RegexCleanerPair]) -> (r: Option<Vec<usize>>)
    ensures
        r is Some <==> clean_with_offsets_fits(raw@, rules_view(list@), Unit::Utf16),
        r matches Some(v) ==> v@ == cleaned_with_offsets(raw@, rules_view(list@), Unit::Utf16).2,
{
    match clean_with_offsets(raw, list, Unit::Utf16) {
        Some(c) => Some(c.output),
        None => None,
    }
}

/// Both the source text and the cleaned text measure at most `usize::MAX`
/// units.
pub open spec fn clean_with_offsets_fits(x: Seq<char>, rules: Seq<(Seq<char>, Seq<char>)>, u: Unit) -> bool {
    units(x, u) <= usize::MAX && units(clean_spec(x, rules), u) <= usize::MAX
}

/// The text that comes with the tables is the cleaned text.
pub proof fn lemma_offsets_text_is_clean(x: Seq<char>, rules: Seq<(Seq<char>, Seq<char>)>, u: Unit)
    ensures
        cleaned_with_offsets(x, rules, u).0 == clean_spec(x, rules),
{
}

/// The output of the first `k` steps is the start of the whole output.
pub proof fn lemma_collapse_prefix(steps: Seq<SegmentView>, k: int)
    requires
        0 <= k <= steps.len(),
    ensures
        collapse_out(steps.take(k)).len() <= collapse_out(steps).len(),
        collapse_out(steps.take(k)) == collapse_out(steps).take(collapse_out(steps.take(k)).len() as int),
    decreases steps.len(),
{
    if k < steps.len() {
        let d = steps.drop_last();
        lemma_collapse_prefix(d, k);
        assert(d.take(k) =~= steps.take(k));
        let whole = collapse_out(steps);
        let part = collapse_out(d);
        let n = collapse_out(steps.take(k)).len() as int;
        assert(whole == part + step_output(state_after(d), steps.last()));
        assert(whole.take(n) =~= part.take(n));
    } else {
        assert(steps.take(k) =~= steps);
        assert(collapse_out(steps).take(collapse_out(steps).len() as int) =~= collapse_out(steps));
    }
}

/// The source text of the first `k` steps is the start of the source text of
/// all of them.
pub proof fn lemma_sources_prefix(steps: Seq<SegmentView>, k: int)
    requires
        0 <= k <= steps.len(),
    ensures
        sources(steps.take(k)).len() <= sources(steps).len(),
        sources(steps.take(k)) == sources(steps).take(sources(steps.take(k)).len() as int),
{
    lemma_sources_concat(steps.take(k), steps.skip(k));
    assert(steps.take(k) + steps.skip(k) =~= steps);
    let a = sources(steps.take(k));
    let b = sources(steps.skip(k));
    assert((a + b).take(a.len() as int) =~= a);
}

/// Entry `i` of either table is at most entry `j` for `i <= j`, and both
/// start at 0, where the totals fit in `usize`.
pub proof fn lemma_tables_sorted(steps: Seq<SegmentView>, u: Unit)
    requires
        units(sources(steps), u) <= usize::MAX,
        units(collapse_out(steps), u) <= usize::MAX,
    ensures
        source_table(steps, u)[0] == 0,
        output_table(steps, u)[0] == 0,
        sorted(source_table(steps, u)),
        sorted(output_table(steps, u)),
{
    assert(steps.take(0) =~= seq![]);
    assert forall|i: int, j: int| 0 <= i <= j < steps.len() + 1 implies source_table(steps, u)[i]
        <= source_table(steps, u)[j] && output_table(steps, u)[i] <= output_table(steps, u)[j] by {
        let tj = steps.take(j);
        assert(tj.take(i) =~= steps.take(i));
        lemma_sources_prefix(tj, i);
        lemma_units_take_le(sources(tj), sources(tj.take(i)).len() as int, u);
        lemma_sources_prefix(steps, j);
        lemma_units_take_le(sources(steps), sources(tj).len() as int, u);
        lemma_collapse_prefix(tj, i);
        lemma_units_take_le(collapse_out(tj), collapse_out(tj.take(i)).len() as int, u);
        lemma_collapse_prefix(steps, j);
        lemma_units_take_le(collapse_out(steps), collapse_out(tj).len() as int, u);
    }
}

/// Checkpoint `k` of the tables for `x`: let `p` be the source text that the
/// first `k` steps consumed, the start of `x`'s source text. Where the rules
/// and the grapheme segmentation split `p` on its own into those same `k`
/// steps, cleaning `p` gives exactly as many units as the output side records
/// at `k`.
pub proof fn lemma_checkpoint_determinism(x: Seq<char>, rules: Seq<(Seq<char>, Seq<char>)>, u: Unit, k: int)
    requires
        0 <= k <= clean_steps(x, rules).len(),
        units(clean_spec(x, rules), u) <= usize::MAX,
        clean_steps(sources(clean_steps(x, rules).take(k)), rules) == clean_steps(x, rules).take(k),
    ensures
        sources(clean_steps(x, rules).take(k)) == sources(clean_steps(x, rules)).take(
            sources(clean_steps(x, rules).take(k)).len() as int,
        ),
        units(clean_spec(sources(clean_steps(x, rules).take(k)), rules), u) == cleaned_with_offsets(
            x,
            rules,
            u,
        ).2[k] as int,
{
    let steps = clean_steps(x, rules);
    lemma_sources_prefix(steps, k);
    lemma_collapse_prefix(steps, k);
    lemma_units_take_le(collapse_out(steps), collapse_out(steps.take(k)).len() as int, u);
}

} // verus!
