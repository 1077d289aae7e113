use jump_mode::buffer::{Buffer, Category, LineRange, Position, Token};
use jump_mode::jump::JumpMode;

fn token(lexeme: &str, category: Category) -> Token {
    Token { lexeme: lexeme.to_string(), category }
}

fn buffer_of(tokens: Vec<Token>) -> Buffer {
    Buffer { tokens, cursor: Position { line: 0, offset: 0 } }
}

fn anywhere_mode() -> JumpMode {
    let mut jump_mode = JumpMode::new();
    jump_mode.line_mode = false;
    jump_mode
}

#[test]
fn tokens_returns_the_correct_tokens() {
    let mut jump_mode = anywhere_mode();
    let source_tokens = vec![
        token("class", Category::Keyword),
        token(" ", Category::Whitespace),
        token("Amp", Category::Identifier),
    ];

    let expected_tokens = vec![
        token("aa", Category::Keyword),
        token("ass", Category::Text),
        token(" ", Category::Whitespace),
        token("ab", Category::Keyword),
        token("p", Category::Text),
    ];

    let result = jump_mode.tokens(&buffer_of(source_tokens), LineRange::new(0, 100));
    for (index, token) in expected_tokens.iter().enumerate() {
        assert_eq!(*token, result[index]);
    }
}

#[test]
fn tokens_splits_passed_tokens_on_whitespace() {
    let mut jump_mode = anywhere_mode();
    let source_tokens = vec![token("# comment string", Category::Comment)];

    // An untagged word keeps the category of the token it came from.
    let expected_tokens = vec![
        token("#", Category::Comment),
        token(" ", Category::Whitespace),
        token("aa", Category::Keyword),
        token("mment", Category::Text),
        token(" ", Category::Whitespace),
        token("ab", Category::Keyword),
        token("ring", Category::Text),
    ];

    let result = jump_mode.tokens(&buffer_of(source_tokens), LineRange::new(0, 100));
    for (index, token) in expected_tokens.iter().enumerate() {
        assert_eq!(*token, result[index]);
    }
}

#[test]
fn tokens_tracks_the_positions_of_each_jump_token() {
    let mut jump_mode = anywhere_mode();
    let source_tokens = vec![
        // Leading whitespace inside a token must be counted too.
        token("  start", Category::Keyword),
        // A trailing newline in a non-whitespace token must move to the next line.
        token("another\n", Category::Text),
        token("class", Category::Keyword),
        token(" ", Category::Whitespace),
        token("Amp", Category::Identifier),
    ];
    jump_mode.tokens(&buffer_of(source_tokens), LineRange::new(0, 100));

    assert_eq!(*jump_mode.tag_positions.get("aa").unwrap(), Position { line: 0, offset: 2 });
    assert_eq!(*jump_mode.tag_positions.get("ab").unwrap(), Position { line: 0, offset: 7 });
    assert_eq!(*jump_mode.tag_positions.get("ac").unwrap(), Position { line: 1, offset: 0 });
    assert_eq!(*jump_mode.tag_positions.get("ad").unwrap(), Position { line: 1, offset: 6 });
}

#[test]
fn tokens_restarts_tags_on_each_invocation() {
    let mut jump_mode = anywhere_mode();
    let source_tokens = vec![token("class", Category::Keyword)];
    let buffer = buffer_of(source_tokens);
    jump_mode.tokens(&buffer, LineRange::new(0, 100));
    let results = jump_mode.tokens(&buffer, LineRange::new(0, 100));
    assert_eq!(results[0].lexeme, "aa");
}

#[test]
fn tokens_clears_tracked_positions_on_each_invocation() {
    let mut jump_mode = anywhere_mode();
    let source_tokens = vec![
        token("class", Category::Keyword),
        token("\n  ", Category::Whitespace),
        token("Amp", Category::Identifier),
    ];
    jump_mode.tokens(&buffer_of(source_tokens), LineRange::new(0, 100));
    jump_mode.tokens(&buffer_of(vec![]), LineRange::new(0, 100));
    assert!(jump_mode.tag_positions.is_empty());
}

#[test]
fn tokens_only_adds_tags_to_visible_range() {
    let mut jump_mode = anywhere_mode();
    let source_tokens = vec![
        token("class", Category::Keyword),
        token("\n  ", Category::Whitespace),
        token("Amp\n", Category::Identifier),
        token("data", Category::Identifier),
    ];
    jump_mode.tokens(&buffer_of(source_tokens), LineRange::new(1, 2));
    assert_eq!(jump_mode.tag_positions.len(), 1);
    assert_eq!(*jump_mode.tag_positions.get("aa").unwrap(), Position { line: 1, offset: 2 });
}

#[test]
fn tokens_can_handle_unicode_data() {
    let mut jump_mode = anywhere_mode();

    // The multi-byte character is the second one, so that cutting off the
    // first two bytes would fall inside it.
    let source_tokens = vec![token("eéditor", Category::Text)];

    let result = jump_mode.tokens(&buffer_of(source_tokens), LineRange::new(0, 100));
    assert_eq!(result, vec![token("aa", Category::Keyword), token("ditor", Category::Text)]);
}

#[test]
fn map_tag_returns_position_when_available() {
    let mut jump_mode = anywhere_mode();
    let source_tokens = vec![
        token("class", Category::Keyword),
        token("\n  ", Category::Whitespace),
        token("Amp", Category::Identifier),
    ];
    jump_mode.tokens(&buffer_of(source_tokens), LineRange::new(0, 100));
    assert_eq!(jump_mode.map_tag("ab"), Some(&Position { line: 1, offset: 2 }));
    assert_eq!(jump_mode.map_tag("none"), None);
}

#[test]
fn example_anywhere_mode_output_and_position() {
    let mut jump_mode = anywhere_mode();
    let source_tokens = vec![
        token("class", Category::Keyword),
        token(" ", Category::Whitespace),
        token("Amp", Category::Identifier),
    ];
    let result = jump_mode.tokens(&buffer_of(source_tokens), LineRange::new(0, 100));
    assert_eq!(
        result,
        vec![
            token("aa", Category::Keyword),
            token("ass", Category::Text),
            token(" ", Category::Whitespace),
            token("ab", Category::Keyword),
            token("p", Category::Text),
        ]
    );
    assert_eq!(jump_mode.map_tag("aa"), Some(&Position { line: 0, offset: 0 }));
    // "class" and one space come before "Amp".
    assert_eq!(jump_mode.map_tag("ab"), Some(&Position { line: 0, offset: 6 }));
}

#[test]
fn line_mode_uses_single_character_tags() {
    let mut jump_mode = JumpMode::new();
    assert!(jump_mode.line_mode);
    let result = jump_mode.tokens(
        &buffer_of(vec![token("class", Category::Keyword)]),
        LineRange::new(0, 100),
    );
    assert_eq!(result, vec![token("a", Category::Keyword), token("lass", Category::Text)]);
    assert_eq!(jump_mode.map_tag("a"), Some(&Position { line: 0, offset: 0 }));
    assert_eq!(jump_mode.map_tag("aa"), None);
}

#[test]
fn line_mode_skips_lines_before_the_cursor() {
    let mut jump_mode = JumpMode::new();
    let buffer = Buffer {
        tokens: vec![
            token("one\n", Category::Text),
            token("two\n", Category::Text),
            token("three", Category::Text),
        ],
        cursor: Position { line: 1, offset: 0 },
    };
    let result = jump_mode.tokens(&buffer, LineRange::new(0, 100));
    assert_eq!(result[0], token("one", Category::Text));
    assert_eq!(jump_mode.map_tag("a"), Some(&Position { line: 1, offset: 0 }));
    assert_eq!(jump_mode.map_tag("b"), Some(&Position { line: 2, offset: 0 }));
    assert_eq!(jump_mode.tag_positions.len(), 2);
}

#[test]
fn line_mode_runs_out_of_tags_after_the_alphabet() {
    let mut jump_mode = JumpMode::new();
    let mut tokens = Vec::new();
    for _ in 0..30 {
        tokens.push(token("x\n", Category::Text));
    }
    let result = jump_mode.tokens(&buffer_of(tokens), LineRange::new(0, 100));
    assert_eq!(jump_mode.tag_positions.len(), 26);
    assert_eq!(jump_mode.map_tag("z"), Some(&Position { line: 25, offset: 0 }));
    // Line 26 keeps its text: 26 lines of a tag, an empty rest and a newline come first.
    assert_eq!(result[26 * 3], token("x", Category::Text));
}

#[test]
fn single_character_words_get_no_tag_in_anywhere_mode() {
    let mut jump_mode = anywhere_mode();
    let result = jump_mode.tokens(
        &buffer_of(vec![token("a b", Category::Text)]),
        LineRange::new(0, 100),
    );
    assert_eq!(
        result,
        vec![
            token("a", Category::Text),
            token(" ", Category::Whitespace),
            token("b", Category::Text),
        ]
    );
    assert!(jump_mode.tag_positions.is_empty());
}

#[test]
fn off_screen_text_is_unchanged() {
    let mut jump_mode = anywhere_mode();
    let source = vec![token("class Amp", Category::Keyword)];
    let result = jump_mode.tokens(&buffer_of(source), LineRange::new(5, 10));
    let text: String = result.iter().map(|t| t.lexeme.clone()).collect();
    assert_eq!(text, "class Amp");
    assert!(jump_mode.tag_positions.is_empty());
}

#[test]
fn tagged_text_keeps_its_length() {
    let mut jump_mode = anywhere_mode();
    let source = vec![token("fn main() {\n    body\n}", Category::Text)];
    let result = jump_mode.tokens(&buffer_of(source), LineRange::new(0, 100));
    let count: usize = result.iter().map(|t| t.lexeme.chars().count()).sum();
    assert_eq!(count, "fn main() {\n    body\n}".chars().count());
    assert_eq!(jump_mode.tag_positions.len(), 3);
    assert_eq!(jump_mode.map_tag("ab"), Some(&Position { line: 0, offset: 3 }));
    assert_eq!(jump_mode.map_tag("ac"), Some(&Position { line: 1, offset: 4 }));
}

#[test]
fn new_jump_mode_starts_empty() {
    let jump_mode = JumpMode::new();
    assert!(jump_mode.line_mode);
    assert_eq!(jump_mode.input, "");
    assert!(jump_mode.tag_positions.is_empty());
}

#[test]
fn a_tag_longer_than_its_word_leaves_no_rest() {
    let mut jump_mode = anywhere_mode();
    let mut tokens = Vec::new();
    for _ in 0..676 {
        tokens.push(token("word ", Category::Text));
    }
    tokens.push(token("ab", Category::Identifier));
    let result = jump_mode.tokens(&buffer_of(tokens), LineRange::new(0, 100));
    let n = result.len();
    assert_eq!(result[n - 2], token("aaa", Category::Keyword));
    assert_eq!(result[n - 1], token("", Category::Text));
    assert_eq!(jump_mode.map_tag("zz"), Some(&Position { line: 0, offset: 675 * 5 }));
    assert_eq!(jump_mode.map_tag("aaa"), Some(&Position { line: 0, offset: 676 * 5 }));
    assert_eq!(jump_mode.tag_positions.len(), 677);
}

#[test]
fn line_mode_tags_only_the_first_word_of_each_line() {
    let mut jump_mode = JumpMode::new();
    let source = vec![token("ab cd\n", Category::Text), token("ef gh", Category::Identifier)];
    let result = jump_mode.tokens(&buffer_of(source), LineRange::new(0, 100));
    assert_eq!(
        result,
        vec![
            token("a", Category::Keyword),
            token("b", Category::Text),
            token(" ", Category::Whitespace),
            token("cd", Category::Text),
            token("\n", Category::Whitespace),
            token("b", Category::Keyword),
            token("f", Category::Text),
            token(" ", Category::Whitespace),
            token("gh", Category::Identifier),
        ]
    );
    assert_eq!(jump_mode.tag_positions.len(), 2);
    assert_eq!(jump_mode.map_tag("a"), Some(&Position { line: 0, offset: 0 }));
    assert_eq!(jump_mode.map_tag("b"), Some(&Position { line: 1, offset: 0 }));
}

#[test]
fn line_mode_first_word_after_leading_whitespace() {
    let mut jump_mode = JumpMode::new();
    let source = vec![token("  x y\n  z", Category::Text)];
    jump_mode.tokens(&buffer_of(source), LineRange::new(0, 100));
    assert_eq!(jump_mode.tag_positions.len(), 2);
    assert_eq!(jump_mode.map_tag("a"), Some(&Position { line: 0, offset: 2 }));
    assert_eq!(jump_mode.map_tag("b"), Some(&Position { line: 1, offset: 2 }));
}
