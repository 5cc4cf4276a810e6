use rust_reader::clean::{clean_text, clean_with_both_offsets, clean_with_offsets, CleanedText};
use rust_reader::offsets::{convert_range, invert_idx, lookup_range, RangeOutOfBounds};
use rust_reader::rules::{CompileError, RegexCleanerPair};
use rust_reader::units::Unit;

fn defaults() -> Vec<RegexCleanerPair> {
    RegexCleanerPair::default_list().unwrap()
}

fn tables(text: &str, list: &[RegexCleanerPair], unit: Unit) -> CleanedText {
    clean_with_offsets(text, list, unit).unwrap()
}

fn units_of(s: &str, unit: Unit) -> usize {
    match unit {
        Unit::Utf8 => s.len(),
        Unit::Utf16 => s.encode_utf16().count(),
    }
}

/// Prefix of `s` that is `n` units long.
fn prefix(s: &str, n: usize, unit: Unit) -> &str {
    let mut used = 0;
    for (b, c) in s.char_indices() {
        if used == n {
            return &s[..b];
        }
        used += units_of(&c.to_string(), unit);
    }
    assert_eq!(used, n);
    s
}

fn check_checkpoints(text: &str, list: &[RegexCleanerPair]) {
    for unit in [Unit::Utf8, Unit::Utf16] {
        let c = tables(text, list, unit);
        assert_eq!(c.text, clean_text(text, list));
        assert_eq!(c.source.len(), c.output.len());
        assert_eq!(c.source[0], 0);
        assert_eq!(c.output[0], 0);
        assert_eq!(*c.source.last().unwrap(), units_of(text, unit));
        assert_eq!(*c.output.last().unwrap(), units_of(&c.text, unit));
        for (&s, &o) in c.source.iter().zip(c.output.iter()) {
            let p = prefix(text, s, unit);
            assert_eq!(units_of(&clean_text(p, list), unit), o, "text {:?} at {}", text, s);
        }
    }
}

#[test]
fn spec_scenarios() {
    let list = defaults();
    assert_eq!(clean_text("Hello \t\n \t\r \t\r\n world!", &list), "Hello world!");
    assert_eq!(clean_text("Hello _________ world!", &list), "Hello ___ world!");
    assert_eq!(clean_text("Hello ----------- world!", &list), "Hello --- world!");
    assert_eq!(clean_text("Hello 100000 world!", &list), "Hello 100000 world!");
    assert_eq!(
        clean_text("https://www.youtube.com/watch?v=JFpanWNgfQY", &list),
        "link to www.youtube.com"
    );
    assert_eq!(
        clean_text("4773d2e39d0be947344ddfebc92d16f37e0584aa", &list),
        "hash 4773d2"
    );
}

#[test]
fn multi_scalar_cluster_counts_as_one() {
    let text = "e\u{301}e\u{301}e\u{301}e\u{301}e\u{301}";
    assert_eq!(clean_text(text, &[]), "e\u{301}e\u{301}e\u{301}");
    let c = tables(text, &[], Unit::Utf16);
    assert_eq!(c.source, vec![0, 2, 4, 6, 8, 10]);
    assert_eq!(c.output, vec![0, 2, 4, 6, 6, 6]);
}

#[test]
fn surrogate_pair_cluster_counts_in_clusters() {
    let text = "\u{1d565}\u{1d565}\u{1d565}\u{1d565}\u{1d565}";
    let c = tables(text, &defaults(), Unit::Utf16);
    assert_eq!(c.text, "\u{1d565}\u{1d565}\u{1d565}");
    assert_eq!(c.source, vec![0, 2, 4, 6, 8, 10]);
    assert_eq!(c.output, vec![0, 2, 4, 6, 6, 6]);
}

#[test]
fn numeric_runs_of_any_script_are_kept() {
    assert_eq!(clean_text("\u{663}\u{663}\u{663}\u{663}\u{663}", &[]), "\u{663}\u{663}\u{663}\u{663}\u{663}");
    assert_eq!(clean_text("77777x", &[]), "77777x");
    assert_eq!(clean_text("aaaaab", &[]), "aaab");
}

#[test]
fn white_space_runs_collapse_without_rules() {
    assert_eq!(clean_text("a \t\n b", &[]), "a b");
    assert_eq!(clean_text("\u{3000}\u{a0}x", &[]), " x");
    let c = tables("a \t b", &[], Unit::Utf8);
    assert_eq!(c.source, vec![0, 1, 2, 3, 4, 5]);
    assert_eq!(c.output, vec![0, 1, 2, 2, 2, 3]);
}

#[test]
fn run_state_carries_across_replaced_spans() {
    let list = RegexCleanerPair::prep_list(&[("-", "+")]).unwrap();
    assert_eq!(clean_text("aa-a-a", &list), "aa+a+");
    assert_eq!(clean_text("b-b", &list), "b+b");
}

#[test]
fn replaced_text_is_not_rescanned() {
    let list = RegexCleanerPair::prep_list(&[("a", "bbbbb"), ("b", "c")]).unwrap();
    assert_eq!(clean_text("ab", &list), "bbbbbc");
}

#[test]
fn undefined_group_expands_to_nothing() {
    let list = RegexCleanerPair::prep_list(&[("x(?P<g>y)", "[$g$nope]")]).unwrap();
    assert_eq!(clean_text("axyb", &list), "a[y]b");
}

#[test]
fn empty_text() {
    let c = tables("", &defaults(), Unit::Utf8);
    assert_eq!(c.text, "");
    assert_eq!(c.source, vec![0]);
    assert_eq!(c.output, vec![0]);
}

#[test]
fn compile_error_names_first_bad_pattern() {
    let r = RegexCleanerPair::prep_list(&[("a", "b"), ("(", "x"), ("[", "y")]);
    match r {
        Err(CompileError { index, message }) => {
            assert_eq!(index, 1);
            assert!(!message.is_empty());
        }
        Ok(_) => panic!("pattern should not compile"),
    }
    assert!(RegexCleanerPair::new("(", "x".to_string()).is_err());
    let p = RegexCleanerPair::new(r"\d+", "n".to_string()).unwrap();
    assert_eq!(p.pattern(), r"\d+");
    assert_eq!(p.template(), "n");
    assert_eq!(p.to_parts().1, "n");
}

#[test]
fn default_list_round_trips_its_text() {
    let list = defaults();
    assert_eq!(list.len(), 3);
    assert_eq!(list[0].pattern(), r"\s+");
    assert_eq!(list[0].template(), " ");
    assert_eq!(list[2].template(), "hash $s");
}

#[test]
fn range_out_of_bounds() {
    let i = vec![0, 1, 2, 5];
    let o = vec![0, 1, 1, 2];
    assert_eq!(invert_idx(&i, &o, &(0..3)), Err(RangeOutOfBounds));
    assert_eq!(invert_idx(&i, &o, &(3..3)), Err(RangeOutOfBounds));
    assert_eq!(invert_idx(&[], &[], &(0..0)), Err(RangeOutOfBounds));
    assert_eq!(convert_range(&o, &(0..9)), Err(RangeOutOfBounds));
}

#[test]
fn ties_widen_and_empty_queries_stay_empty() {
    let i = vec![0, 1, 2, 5, 6];
    let o = vec![0, 1, 1, 1, 2];
    assert_eq!(convert_range(&o, &(1..1)), Ok(1..1));
    assert_eq!(convert_range(&o, &(1..2)), Ok(1..4));
    assert_eq!(invert_idx(&i, &o, &(1..1)), Ok(1..1));
    assert_eq!(invert_idx(&i, &o, &(1..2)), Ok(1..6));
    assert_eq!(invert_idx(&i, &o, &(0..1)), Ok(0..5));
    assert_eq!(invert_idx(&i, &o, &(2..2)), Ok(6..6));
    assert_eq!(invert_idx(&i, &o, &(0..0)), Ok(0..0));
    assert_eq!(lookup_range(&i, &(1..3)), 1..5);
}

#[test]
fn round_trip_covers_anchors() {
    let text = "Hello _________ world! \u{1d565}\u{1d565}\u{1d565}\u{1d565}";
    let c = tables(text, &defaults(), Unit::Utf8);
    let n = c.source.len();
    for a in 0..n {
        for b in a..n {
            let src = c.source[a]..c.source[b];
            let there = invert_idx(&c.output, &c.source, &src).unwrap();
            let back = invert_idx(&c.source, &c.output, &there).unwrap();
            if src.start < src.end && there.start < there.end {
                assert!(back.start <= src.start && back.end >= src.end);
            } else if src.start == src.end {
                assert_eq!(there.start, there.end);
                assert_eq!(back.start, back.end);
            }
        }
    }
}

#[test]
fn checkpoints_match_cleaning_prefixes() {
    let list = defaults();
    for text in [
        "Hello",
        "Hello\t\n\t\r\t\r\nworld!",
        "Hello _________ world!",
        "Hello 100000 world!",
        "aa a a  b\u{5d4}\u{5a2}\u{5d4}\u{5a2}\u{5d4}\u{5a2}\u{5d4}\u{5a2}",
        "see www.youtube.com/watch?v=JFpanWNgfQY now",
        "commit 4773d2e39d0be947344ddfebc92d16f37e0584aa done",
    ] {
        check_checkpoints(text, &list);
        check_checkpoints(text, &[]);
    }
}

#[test]
fn checkpoints_match_cleaning_prefixes_random() {
    let alphabet = [
        "a", "a", "b", "1", "0", "f", " ", "  ", "\t", "\r\n", "-", "-", ".", "/", "e\u{301}",
        "\u{1d565}", "\u{5d4}\u{5a2}", "\u{663}", "x", "\u{a0}",
    ];
    let list = defaults();
    let mut seed: u64 = 0x2545F4914F6CDD1D;
    for _ in 0..300 {
        let mut text = String::new();
        seed = seed.wrapping_mul(6364136223846793005).wrapping_add(1442695040888963407);
        let len = (seed >> 33) % 24;
        for _ in 0..len {
            seed = seed.wrapping_mul(6364136223846793005).wrapping_add(1442695040888963407);
            text.push_str(alphabet[((seed >> 33) % alphabet.len() as u64) as usize]);
        }
        check_checkpoints(&text, &list);
    }
}

#[test]
fn default_rules_idempotent_on_samples() {
    let list = defaults();
    for text in [
        "Hello \t\n \t\r \t\r\n world!",
        "Hello _________ world!",
        "Hello 100000 world!",
        "https://www.youtube.com/watch?v=JFpanWNgfQY",
        "1 parent 1b329f3 commit 4773d2e39d0be947344ddfebc92d16f37e0584aa",
    ] {
        let once = clean_text(text, &list);
        assert_eq!(clean_text(&once, &list), once);
    }
}

#[test]
fn default_rules_not_idempotent_on_short_hash() {
    let list = defaults();
    let once = clean_text("aaaaaaa1", &list);
    assert_eq!(once, "hash aaaaaa");
    assert_eq!(clean_text(&once, &list), "hash aaa");
}

#[test]
fn utf16_output_range_maps_to_utf8_source_range() {
    let text = "\u{5d4}\u{5a2}  ______  \u{1d565}word";
    let (c8, c16) = clean_with_both_offsets(text, &defaults()).unwrap();
    assert_eq!(c8.text, c16.text);
    assert_eq!(c16.text, "\u{5d4}\u{5a2} ___ \u{1d565}word");
    // "word" in UTF-16 code units of the cleaned text
    let word = 9..13;
    let src = invert_idx(&c8.source, &c16.output, &word).unwrap();
    assert_eq!(&text[src], "word");
    // the underscores, three of which were dropped
    let src = invert_idx(&c8.source, &c16.output, &(3..6)).unwrap();
    assert_eq!(&text[src], "______");
}
