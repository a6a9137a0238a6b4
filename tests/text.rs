use woodstock::chunking::{split_into_paragraphs, split_into_sentences};
use woodstock::text::{is_whitespace, trim_chars, words};

fn samples() -> Vec<&'static str> {
    vec![
        "",
        "one",
        "  Lead and trail.  ",
        "a\n\nb\n\n\nc",
        "First. Second? Third! fourth",
        "\u{3000}wide\u{2003}space\u{A0}here.\n\n\u{85}next",
        "...!?",
        "x.\n\n\n\ny. z",
        "tabs\there\r\nand\u{B}more\u{C}.",
    ]
}

#[test]
fn whitespace_matches_std_for_every_char() {
    for c in (0u32..=0x10FFFF).filter_map(char::from_u32) {
        assert_eq!(is_whitespace(c), c.is_whitespace(), "{:?}", c);
    }
}

#[test]
fn trimming_and_words_match_std() {
    for s in samples() {
        let cs: Vec<char> = s.chars().collect();
        let t: String = trim_chars(&cs).into_iter().collect();
        assert_eq!(t, s.trim());
        let ws: Vec<String> = words(&cs).into_iter().map(|w| w.into_iter().collect()).collect();
        let expected: Vec<String> = s.split_whitespace().map(str::to_string).collect();
        assert_eq!(ws, expected);
    }
}

#[test]
fn paragraphs_match_std_splitting() {
    for s in samples() {
        let expected: Vec<String> = s
            .split("\n\n")
            .map(str::trim)
            .filter(|p| !p.is_empty())
            .map(str::to_string)
            .collect();
        assert_eq!(split_into_paragraphs(s), expected);
    }
}

#[test]
fn sentences_match_std_splitting() {
    for s in samples() {
        let expected: Vec<String> = s
            .split(|c: char| c == '.' || c == '?' || c == '!')
            .map(str::trim)
            .filter(|p| !p.is_empty())
            .map(|p| format!("{}.", p))
            .collect();
        assert_eq!(split_into_sentences(s), expected);
    }
}
