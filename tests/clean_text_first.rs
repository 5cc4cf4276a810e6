use rust_reader::clean::{
    clean_text, clean_text_u16idx_in, clean_text_u16idx_out, clean_text_u8idx_in, clean_text_u8idx_out,
};
use rust_reader::offsets::invert_idx;
use rust_reader::rules::RegexCleanerPair;

fn rules() -> Vec<RegexCleanerPair> {
    RegexCleanerPair::default_list().unwrap()
}

fn prefix_lengths_agree(text: &str) -> bool {
    let list = rules();
    let ins = clean_text_u8idx_in(text, &list).unwrap();
    let outs = clean_text_u8idx_out(text, &list).unwrap();
    ins.iter().zip(outs.iter()).all(|(&i, &o)| clean_text(&text[..i], &list).len() == o)
}

#[test]
fn clean_text_one_word() {
    let list = rules();
    assert_eq!(clean_text("Hello", &list), "Hello");
}

#[test]
fn clean_text_one_word_u8idx() {
    let list = rules();
    let text = "Hello";
    let vec_u8idx_in = clean_text_u8idx_in(text, &list).unwrap();
    let vec_u8idx_out = clean_text_u8idx_out(text, &list).unwrap();
    println!("{:?}", vec_u8idx_in);
    println!("{:?}", vec_u8idx_out);
    assert_eq!(vec_u8idx_in.len(), vec_u8idx_out.len());
    assert_eq!(invert_idx(&vec_u8idx_in, &vec_u8idx_out, &(0..5)), Ok(0..5));
    assert_eq!(invert_idx(&vec_u8idx_in, &vec_u8idx_out, &(0..4)), Ok(0..4));
    assert_eq!(invert_idx(&vec_u8idx_in, &vec_u8idx_out, &(4..5)), Ok(4..5));
    assert_eq!(invert_idx(&vec_u8idx_in, &vec_u8idx_out, &(3..4)), Ok(3..4));
}

#[test]
fn clean_text_in_string() {
    let list = rules();
    assert_eq!(clean_text(&"Hello".to_string(), &list), "Hello");
}

#[test]
fn clean_text_two_word() {
    let list = rules();
    assert_eq!(clean_text("Hello world!", &list), "Hello world!");
}

#[test]
fn clean_text_two_word_with_new_line() {
    let list = rules();
    assert_eq!(clean_text("Hello \t\n \t\r \t\r\n world!", &list),
               "Hello world!");
}

#[test]
fn clean_text_two_word_with_tabs() {
    let list = rules();
    assert_eq!(clean_text("Hello\t\n\t\r\t\r\nworld!", &list),
               "Hello world!");
}

#[test]
fn clean_text_sha1() {
    let list = rules();
    assert_eq!(clean_text("1 parent 1b329f3 commit 4773d2e39d0be947344ddfebc92d16f37e0584aa",
                          &list),
               "1 parent 1b329f3 commit hash 4773d2");
}

#[test]
fn clean_text_url() {
    let list = rules();
    assert_eq!(clean_text("https://www.youtube.com/watch?v=JFpanWNgfQY", &list),
               "link to www.youtube.com");
    assert_eq!(clean_text("www.youtube.com/watch?v=JFpanWNgfQY", &list),
               "link to www.youtube.com");
}

#[test]
fn clean_text_two_word_with_tabs_u8idx() {
    let list = rules();
    let text = "Hello\t\n\t\r\t\r\nworld!";
    let vec_u8idx_in = clean_text_u8idx_in(text, &list).unwrap();
    let vec_u8idx_out = clean_text_u8idx_out(text, &list).unwrap();
    println!("{:?}", vec_u8idx_in);
    println!("{:?}", vec_u8idx_out);
    assert_eq!(vec_u8idx_in.len(), vec_u8idx_out.len());
    assert_eq!(invert_idx(&vec_u8idx_in, &vec_u8idx_out, &(0..5)), Ok(0..5));
    assert_eq!(invert_idx(&vec_u8idx_in, &vec_u8idx_out, &(3..5)), Ok(3..5));
    assert_eq!(invert_idx(&vec_u8idx_in, &vec_u8idx_out, &(5..6)), Ok(5..12));
    assert_eq!(invert_idx(&vec_u8idx_in, &vec_u8idx_out, &(6..7)), Ok(12..13));
    assert_eq!(invert_idx(&vec_u8idx_in, &vec_u8idx_out, &(3..7)), Ok(3..13));
    assert_eq!(invert_idx(&vec_u8idx_in, &vec_u8idx_out, &(3..8)), Ok(3..14));
}

#[test]
fn clean_text_two_word_with_underscore() {
    let list = rules();
    assert_eq!(clean_text("Hello _________ world!", &list),
               "Hello ___ world!");
}

#[test]
fn clean_text_two_word_with_underscore_u8idx() {
    let list = rules();
    let text = "Hello _________ world!";
    let vec_u8idx_in = clean_text_u8idx_in(text, &list).unwrap();
    let vec_u8idx_out = clean_text_u8idx_out(text, &list).unwrap();
    println!("{:?}", vec_u8idx_in);
    println!("{:?}", vec_u8idx_out);
    assert_eq!(vec_u8idx_in.len(), vec_u8idx_out.len());
    assert_eq!(invert_idx(&vec_u8idx_in, &vec_u8idx_out, &(0..5)), Ok(0..5));
    assert_eq!(invert_idx(&vec_u8idx_in, &vec_u8idx_out, &(3..5)), Ok(3..5));
    assert_eq!(invert_idx(&vec_u8idx_in, &vec_u8idx_out, &(7..9)), Ok(7..15));
    assert_eq!(invert_idx(&vec_u8idx_in, &vec_u8idx_out, &(9..10)), Ok(9..16));
    assert_eq!(invert_idx(&vec_u8idx_in, &vec_u8idx_out, &(8..12)), Ok(8..18));
    assert_eq!(invert_idx(&vec_u8idx_in, &vec_u8idx_out, &(11..15)), Ok(17..21));
}

#[test]
fn clean_text_two_word_with_dash() {
    let list = rules();
    assert_eq!(clean_text("Hello ----------- world!", &list),
               "Hello --- world!");
}

#[test]
fn clean_text_two_word_with_dash_u8idx() {
    let list = rules();
    let text = "Hello \u{5d4}\u{5a2}\u{5d4}\u{5a2}\
    \u{5d4}\u{5a2}\u{5d4}\u{5a2}\u{5d4}\u{5a2} ----------- \u{1d565}\
    \u{1d565}\u{1d565}\u{1d565}\u{1d565}       ";
    assert_eq!(clean_text_u8idx_in(text, &list).unwrap(),
               vec![0, 1, 2, 3, 4, 5, 6, 10, 14, 18, 22, 26, 27, 28, 29, 30, 31, 32, 33, 34,
                    35, 36, 37, 38, 39, 43, 47, 51, 55, 59, 66]);
    assert_eq!(clean_text_u8idx_out(text, &list).unwrap(),
               vec![0, 1, 2, 3, 4, 5, 6, 10, 14, 18, 18, 18, 19, 20, 21, 22, 22, 22, 22, 22,
                    22, 22, 22, 22, 23, 27, 31, 35, 35, 35, 36]);
}

#[test]
fn clean_text_two_word_with_dash_u16idx() {
    let list = rules();
    let text = "Hello \u{5d4}\u{5a2}\u{5d4}\u{5a2}\
    \u{5d4}\u{5a2}\u{5d4}\u{5a2}\u{5d4}\u{5a2} ----------- \u{1d565}\
    \u{1d565}\u{1d565}\u{1d565}\u{1d565}       ";
    assert_eq!(clean_text_u16idx_in(text, &list).unwrap(),
               vec![0, 1, 2, 3, 4, 5, 6, 8, 10, 12, 14, 16, 17, 18, 19, 20, 21, 22, 23, 24,
                    25, 26, 27, 28, 29, 31, 33, 35, 37, 39, 46]);
    assert_eq!(clean_text_u16idx_out(text, &list).unwrap(),
               vec![0, 1, 2, 3, 4, 5, 6, 8, 10, 12, 12, 12, 13, 14, 15, 16, 16, 16, 16, 16,
                    16, 16, 16, 16, 17, 19, 21, 23, 23, 23, 24]);
}

#[test]
fn clean_text_two_word_with_equals() {
    let list = rules();
    assert_eq!(clean_text("Hello =========== world!", &list),
               "Hello === world!");
}

#[test]
fn clean_text_two_word_with_numbers() {
    let list = rules();
    assert_eq!(clean_text("Hello 100000 world!", &list),
               "Hello 100000 world!");
}

#[test]
fn clean_text_two_word_with_longchar() {
    let list = rules();
    assert_eq!(clean_text("Hello \u{1d565}\u{1d565}\u{1d565}\u{1d565}\u{1d565} world!",
                          &list),
               "Hello \u{1d565}\u{1d565}\u{1d565} world!");
}

#[test]
fn clean_text_two_word_with_longchar_u8idx() {
    let list = rules();
    let text = "Hello \u{1d565}\u{1d565}\u{1d565}\u{1d565}\u{1d565} world!";
    let vec_u8idx_in = clean_text_u8idx_in(text, &list).unwrap();
    let vec_u8idx_out = clean_text_u8idx_out(text, &list).unwrap();
    println!("{:?}", vec_u8idx_in);
    println!("{:?}", vec_u8idx_out);
    assert_eq!(vec_u8idx_in.len(), vec_u8idx_out.len());
    assert_eq!(invert_idx(&vec_u8idx_in, &vec_u8idx_out, &(0..5)), Ok(0..5));
    assert_eq!(invert_idx(&vec_u8idx_in, &vec_u8idx_out, &(3..5)), Ok(3..5));
    assert_eq!(invert_idx(&vec_u8idx_in, &vec_u8idx_out, &(5..6)), Ok(5..6));
    assert_eq!(invert_idx(&vec_u8idx_in, &vec_u8idx_out, &(6..18)), Ok(6..26));
    assert_eq!(invert_idx(&vec_u8idx_in, &vec_u8idx_out, &(18..20)), Ok(18..28));
    assert_eq!(invert_idx(&vec_u8idx_in, &vec_u8idx_out, &(14..24)), Ok(14..32));
}

#[test]
fn clean_text_two_word_with_multichar() {
    let list = rules();
    assert_eq!(clean_text("Hello \u{5d4}\u{5a2}\u{5d4}\u{5a2}\u{5d4}\u{5a2}\u{5d4}\u{5a2}\
                           \u{5d4}\u{5a2} world!",
                          &list),
               "Hello \u{5d4}\u{5a2}\u{5d4}\u{5a2}\u{5d4}\u{5a2} world!");
}

#[test]
fn clean_text_two_word_with_multichar_u8idx() {
    let list = rules();
    let text = "Hello \u{5d4}\u{5a2}\u{5d4}\u{5a2}\u{5d4}\u{5a2}\u{5d4}\u{5a2}\u{5d4}\u{5a2} \
                world!";
    let vec_u8idx_in = clean_text_u8idx_in(text, &list).unwrap();
    let vec_u8idx_out = clean_text_u8idx_out(text, &list).unwrap();
    println!("{:?}", vec_u8idx_in);
    println!("{:?}", vec_u8idx_out);
    assert_eq!(vec_u8idx_in.len(), vec_u8idx_out.len());
    assert_eq!(invert_idx(&vec_u8idx_in, &vec_u8idx_out, &(0..5)), Ok(0..5));
    assert_eq!(invert_idx(&vec_u8idx_in, &vec_u8idx_out, &(3..5)), Ok(3..5));
    assert_eq!(invert_idx(&vec_u8idx_in, &vec_u8idx_out, &(6..20)), Ok(6..28));
    assert_eq!(invert_idx(&vec_u8idx_in, &vec_u8idx_out, &(18..19)), Ok(18..27));
    assert_eq!(invert_idx(&vec_u8idx_in, &vec_u8idx_out, &(14..18)), Ok(14..26));
    assert_eq!(invert_idx(&vec_u8idx_in, &vec_u8idx_out, &(14..22)), Ok(14..30));
}

#[test]
fn clean_text_tests_clean_text_u8idx() {
    assert!(prefix_lengths_agree("Hello"));
    assert!(prefix_lengths_agree("Hello\t\n\t\r\t\r\nworld!"));
    assert!(prefix_lengths_agree("Hello _________ world!"));
    assert!(prefix_lengths_agree("Hello 100000 world!"));
    assert!(prefix_lengths_agree("Hello \u{1d565}\u{1d565}\u{1d565}\u{1d565}\u{1d565} \
                                   world!"));
    assert!(prefix_lengths_agree("Hello \u{5d4}\u{5a2}\u{5d4}\u{5a2}\u{5d4}\
    \u{5a2}\u{5d4}\u{5a2}\u{5d4}\u{5a2} world!"));
}
