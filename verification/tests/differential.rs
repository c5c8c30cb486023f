use thermo::job::collapse_repeated_newlines;
use thermo::normalize::normalize_text;
use thermo::printout::{text_lines, MAX_CHARS_PER_LINE};
use thermo::text::{is_whitespace, split_whitespace, trim_str};
use thermo::wrap::{split_long_word, wrap_text};

fn plain_wrap_text(text: &str, max_chars: usize) -> Vec<String> {
    if max_chars == 0 {
        return vec![text.to_string()];
    }
    let mut lines = Vec::new();
    let mut current = String::new();
    for word in text.split_whitespace() {
        if current.is_empty() {
            if word.chars().count() <= max_chars {
                current.push_str(word);
            } else {
                lines.extend(plain_split_long_word(word, max_chars));
            }
            continue;
        }
        let candidate_len = current.chars().count() + 1 + word.chars().count();
        if candidate_len <= max_chars {
            current.push(' ');
            current.push_str(word);
            continue;
        }
        lines.push(current);
        current = String::new();
        if word.chars().count() <= max_chars {
            current.push_str(word);
        } else {
            let mut parts = plain_split_long_word(word, max_chars);
            if let Some(last) = parts.pop() {
                lines.extend(parts);
                current = last;
            }
        }
    }
    if !current.is_empty() {
        lines.push(current);
    }
    if lines.is_empty() {
        lines.push(String::new());
    }
    lines
}

fn plain_split_long_word(word: &str, max_chars: usize) -> Vec<String> {
    if max_chars == 0 {
        return vec![word.to_string()];
    }
    let mut parts = Vec::new();
    let mut current = String::new();
    for ch in word.chars() {
        current.push(ch);
        if current.chars().count() == max_chars {
            parts.push(current);
            current = String::new();
        }
    }
    if !current.is_empty() {
        parts.push(current);
    }
    parts
}

fn plain_normalize(text: &str) -> String {
    let mut normalized = String::new();
    for ch in text.chars() {
        match ch {
            '\u{e4}' => normalized.push_str("ae"),
            '\u{f6}' => normalized.push_str("oe"),
            '\u{fc}' => normalized.push_str("ue"),
            '\u{c4}' => normalized.push_str("AE"),
            '\u{d6}' => normalized.push_str("OE"),
            '\u{dc}' => normalized.push_str("UE"),
            '\u{df}' => normalized.push_str("ss"),
            '\n' => normalized.push('\n'),
            '\r' => {}
            ch if ch.is_ascii() => normalized.push(ch),
            _ => normalized.push('?'),
        }
    }
    normalized
}

fn plain_collapse(text: &str) -> String {
    let mut result = String::new();
    let mut previous_was_newline = false;
    for ch in text.chars() {
        if ch == '\n' {
            if previous_was_newline {
                continue;
            }
            previous_was_newline = true;
        } else {
            previous_was_newline = false;
        }
        result.push(ch);
    }
    result
}

fn plain_text_lines(text: &str) -> Vec<String> {
    let normalized = plain_normalize(text);
    let mut lines = Vec::new();
    for paragraph in normalized.split('\n') {
        if paragraph.trim().is_empty() {
            lines.push(String::new());
            continue;
        }
        lines.extend(plain_wrap_text(paragraph, MAX_CHARS_PER_LINE));
    }
    lines
}

struct Samples {
    state: u64,
}

impl Samples {
    fn next(&mut self) -> u64 {
        self.state = self.state.wrapping_mul(6364136223846793005).wrapping_add(1442695040888963407);
        self.state >> 33
    }

    fn text(&mut self) -> String {
        const ALPHABET: [char; 16] = [
            'a', 'b', 'c', 'X', ' ', ' ', '\t', '\n', '\r', '\u{e4}', '\u{df}', '\u{1f600}', '-',
            '\u{a0}', '\u{3000}', '1',
        ];
        let len = (self.next() % 80) as usize;
        (0..len).map(|_| ALPHABET[(self.next() % 16) as usize]).collect()
    }
}

#[test]
fn is_whitespace_agrees_with_std_everywhere() {
    for code in 0u32..0x11_0000 {
        if let Some(c) = char::from_u32(code) {
            assert_eq!(is_whitespace(c), c.is_whitespace(), "{code:#x}");
        }
    }
}

#[test]
fn string_helpers_agree_with_std() {
    let mut samples = Samples { state: 7 };
    for _ in 0..500 {
        let text = samples.text();
        assert_eq!(trim_str(&text), text.trim());
        let expected: Vec<String> = text.split_whitespace().map(str::to_string).collect();
        assert_eq!(split_whitespace(&text), expected);
    }
}

#[test]
fn wrapping_matches_the_greedy_wrapper() {
    let mut samples = Samples { state: 42 };
    for _ in 0..2000 {
        let text = samples.text();
        let width = (samples.next() % 9) as usize;
        assert_eq!(wrap_text(&text, width), plain_wrap_text(&text, width), "{text:?} {width}");
        for word in text.split_whitespace() {
            assert_eq!(split_long_word(word, width), plain_split_long_word(word, width));
        }
    }
}

#[test]
fn normalizing_and_collapsing_match() {
    let mut samples = Samples { state: 3 };
    for _ in 0..2000 {
        let text = samples.text();
        assert_eq!(normalize_text(&text), plain_normalize(&text));
        assert_eq!(collapse_repeated_newlines(&text), plain_collapse(&text));
        assert_eq!(text_lines(&text), plain_text_lines(&text));
    }
}
