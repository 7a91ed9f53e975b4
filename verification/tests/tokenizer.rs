use tracelogs::pattern::Pattern;
use tracelogs::tokenizer::split_text;

#[test]
fn test_split_text() {
    let separator = Pattern::new(r"(?m)^\[").unwrap();
    let text = "Mary \n[had a \nlittle lamb\n[";
    assert_eq!(
        split_text(&separator, &text),
        vec!["Mary \n", "[had a \nlittle lamb\n", "["]
    )
}

#[test]
fn test_split_text_no_match() {
    let separator = Pattern::new(r"(?m)^\[").unwrap();
    let text = "little lamb";
    assert_eq!(split_text(&separator, &text), vec!["little lamb"])
}

#[test]
fn test_split_text_newline() {
    let separator = Pattern::new(r"(?m)^").unwrap();
    let text = "little\nlamb";
    assert_eq!(split_text(&separator, &text), vec!["little\n", "lamb"])
}

#[test]
fn test_full_text_example() {
    let separator = Pattern::new(r"(?m)^").unwrap();
    let text = r#"Whether that mattress was stuffed with corn-cobs or
broken crockery, there is no telling, but I rolled about a
good deal, and could not sleep for a long time. At last
I slid off into a light doze, and had pretty nearly made a
good offing toward the land of Nod, when I heard a
heavy footfall in the passage, and saw a glimmer of light
come into the room from under the door."#;
    assert_eq!(
        split_text(&separator, &text),
        vec![
            "Whether that mattress was stuffed with corn-cobs or\n",
            "broken crockery, there is no telling, but I rolled about a\n",
            "good deal, and could not sleep for a long time. At last\n",
            "I slid off into a light doze, and had pretty nearly made a\n",
            "good offing toward the land of Nod, when I heard a\n",
            "heavy footfall in the passage, and saw a glimmer of light\n",
            "come into the room from under the door."
        ]
    )
}

#[test]
fn split_text_of_empty_text_is_empty() {
    let separator = Pattern::new(r"(?m)^\[").unwrap();
    let pieces = split_text(&separator, "");
    assert!(pieces.is_empty());
}

#[test]
fn split_text_pieces_join_back() {
    let separator = Pattern::new(r"x").unwrap();
    let text = "axbxxcé x";
    let pieces = split_text(&separator, text);
    assert_eq!(pieces, vec!["a", "xb", "x", "xcé ", "x"]);
    assert_eq!(pieces.concat(), text);
}

#[test]
fn invalid_pattern_is_refused() {
    assert!(Pattern::new(r"foo(bar").is_err());
}

use tracelogs::token::LogLineToken;
use tracelogs::tokenizer::{find_indices, LogLineTokenizer};

#[test]
fn find_indices_ends_with_text_length() {
    let separator = Pattern::new(r"(?m)^\[").unwrap();
    let text = "Mary \n[had a \nlittle lamb\n[";
    assert_eq!(find_indices(&separator, text), vec![6, 26, 27]);
}

fn token_texts(t: &LogLineTokenizer) -> Vec<String> {
    t.lines().iter().map(|l| l.raw_data.clone()).collect()
}

#[test]
fn tokenizer_cuts_lines_as_they_complete() {
    let separator = Pattern::new(r"(?m)^\[").unwrap();
    let mut tokenizer = LogLineTokenizer::new(separator, "source", "host");
    tokenizer.push("this will not be tokenized\n");
    tokenizer.push("also this will [not]");
    tokenizer.push("do anything\n");
    assert!(tokenizer.lines().is_empty());
    assert_eq!(
        tokenizer.buffer(),
        "this will not be tokenized\nalso this will [not]do anything\n"
    );
    tokenizer.push("[this will trigger it!");
    assert_eq!(
        token_texts(&tokenizer),
        vec!["this will not be tokenized\nalso this will [not]do anything\n"]
    );
    assert_eq!(tokenizer.buffer(), "[this will trigger it!");
    tokenizer.push("\n[");
    assert_eq!(tokenizer.buffer(), "[");
    assert_eq!(tokenizer.lines().len(), 2);
    assert_eq!(tokenizer.lines()[1].raw_data, "[this will trigger it!\n");
    assert_eq!(tokenizer.count, 5);
    assert_eq!(tokenizer.lines()[1].log_source(), "source");
    assert_eq!(tokenizer.lines()[1].host_name(), "host");
}

#[test]
fn tokenizer_flush_keeps_the_rest() {
    let separator = Pattern::new(r"(?m)^").unwrap();
    let mut tokenizer = LogLineTokenizer::new(separator, "s", "h");
    tokenizer.push("one\ntw");
    assert_eq!(token_texts(&tokenizer), vec!["one\n"]);
    tokenizer.push("o");
    tokenizer.flush();
    assert_eq!(token_texts(&tokenizer), vec!["one\n", "two"]);
    assert_eq!(tokenizer.buffer(), "");
}

#[test]
fn tokenizer_loses_no_text() {
    let separator = Pattern::new(r"(?m)^\[").unwrap();
    let mut tokenizer = LogLineTokenizer::new(separator, "s", "h");
    let parts = ["[a", "]\n[b\n", "", "[c", "\n"];
    for p in parts.iter() {
        tokenizer.push(p);
    }
    let mut all: String = token_texts(&tokenizer).concat();
    all.push_str(tokenizer.buffer());
    assert_eq!(all, parts.concat());
}

#[test]
fn token_with_timestamp_keeps_its_fields() {
    let t = LogLineToken::with_timestamp("data", "src", "host", 42);
    assert_eq!(t.raw_data, "data");
    assert_eq!(t.gathered_timestamp(), 42);
    assert_eq!(t.log_source(), "src");
    assert_eq!(t.host_name(), "host");
}

#[test]
fn token_new_is_stamped_now() {
    let before = tracelogs::token::unixtime_now();
    let t = LogLineToken::new("x", "s", "h");
    assert!(t.gathered_timestamp() >= before);
    assert!(t.gathered_timestamp() > 1_500_000_000_000_000);
}
