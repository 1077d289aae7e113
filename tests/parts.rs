use jump_mode::buffer::{Category, Distance, LineRange, Position};
use jump_mode::movement_lexer::{is_whitespace, lex};
use jump_mode::single_character_tag_generator::SingleCharacterTagGenerator;
use jump_mode::tag_generator::{letter, TagGenerator};

#[test]
fn tag_generator_counts_in_two_letters_then_three() {
    let mut generator = TagGenerator::new();
    let mut tags = Vec::new();
    for _ in 0..(676 + 17576 + 1) {
        tags.push(generator.next().unwrap());
    }
    assert_eq!(tags[0], "aa");
    assert_eq!(tags[1], "ab");
    assert_eq!(tags[25], "az");
    assert_eq!(tags[26], "ba");
    assert_eq!(tags[675], "zz");
    assert_eq!(tags[676], "aaa");
    assert_eq!(tags[677], "aab");
    assert_eq!(tags[676 + 17575], "zzz");
    assert_eq!(tags[676 + 17576], "aaaa");
    // Shortlex order: shorter first, lexicographic within one length.
    for pair in tags.windows(2) {
        assert!((pair[0].len(), &pair[0]) < (pair[1].len(), &pair[1]));
    }
    let mut sorted = tags.clone();
    sorted.sort();
    sorted.dedup();
    assert_eq!(sorted.len(), tags.len());
}

#[test]
fn fresh_tag_generator_starts_again() {
    let mut first = TagGenerator::new();
    first.next();
    first.next();
    let mut second = TagGenerator::new();
    assert_eq!(second.next(), Some("aa".to_string()));
}

#[test]
fn single_character_generator_is_bounded() {
    let mut generator = SingleCharacterTagGenerator::new();
    assert_eq!(generator.next(), Some("a".to_string()));
    assert_eq!(generator.next(), Some("b".to_string()));
    for _ in 2..25 {
        generator.next();
    }
    assert_eq!(generator.next(), Some("z".to_string()));
    assert_eq!(generator.next(), None);
    assert_eq!(generator.next(), None);
}

#[test]
fn letter_gives_the_alphabet() {
    assert_eq!(letter(0), "a");
    assert_eq!(letter(25), "z");
}

#[test]
fn lex_splits_on_whitespace_runs() {
    let pieces = lex("a  b\n\tcd");
    let lexemes: Vec<&str> = pieces.iter().map(|t| t.lexeme.as_str()).collect();
    assert_eq!(lexemes, vec!["a", "  ", "b", "\n\t", "cd"]);
    let categories: Vec<Category> = pieces.iter().map(|t| t.category).collect();
    assert_eq!(
        categories,
        vec![Category::Text, Category::Whitespace, Category::Text, Category::Whitespace, Category::Text]
    );
}

#[test]
fn lex_of_empty_text_is_empty() {
    assert!(lex("").is_empty());
}

#[test]
fn lex_keeps_multibyte_characters_whole() {
    let pieces = lex("é\u{3000}ü");
    let lexemes: Vec<&str> = pieces.iter().map(|t| t.lexeme.as_str()).collect();
    assert_eq!(lexemes, vec!["é", "\u{3000}", "ü"]);
    assert_eq!(pieces[1].category, Category::Whitespace);
}

#[test]
fn whitespace_predicate() {
    assert!(is_whitespace(' '));
    assert!(is_whitespace('\n'));
    assert!(is_whitespace('\u{a0}'));
    assert!(!is_whitespace('x'));
    assert!(!is_whitespace('\u{200b}'));
}

#[test]
fn distance_counts_lines_and_trailing_length() {
    assert_eq!(Distance::from_str("\n  "), Distance { lines: 1, offset: 2 });
    assert_eq!(Distance::from_str("abc"), Distance { lines: 0, offset: 3 });
    assert_eq!(Distance::from_str("a\nb\n"), Distance { lines: 2, offset: 0 });
    assert_eq!(Distance::from_str("éé"), Distance { lines: 0, offset: 2 });
}

#[test]
fn position_add_resets_offset_after_newline() {
    let mut p = Position { line: 3, offset: 5 };
    p.add(&Distance { lines: 1, offset: 2 });
    assert_eq!(p, Position { line: 4, offset: 2 });
    p.add(&Distance { lines: 0, offset: 3 });
    assert_eq!(p, Position { line: 4, offset: 5 });
}

#[test]
fn line_range_excludes_its_end() {
    let range = LineRange::new(1, 3);
    assert!(!range.includes(0));
    assert!(range.includes(1));
    assert!(range.includes(2));
    assert!(!range.includes(3));
}
