use thermo::job::{collapse_repeated_newlines, format_print_job, format_print_job_at};
use thermo::normalize::normalize_text;
use thermo::printout::{
    feed_lines, line_bytes, port_candidates, print_job_lines, split_paragraphs, text_lines,
    ConnectFailure, PortSearch, MAX_CHARS_PER_LINE,
};
use thermo::text::{char_count, is_blank, split_whitespace, trim_str};
use thermo::wrap::{split_long_word, wrap_text};

fn strs(v: &[&str]) -> Vec<String> {
    v.iter().map(|s| s.to_string()).collect()
}

#[test]
fn char_count_counts_characters_not_bytes() {
    assert_eq!(char_count("\u{e4}\u{f6}\u{fc}"), 3);
    assert_eq!(char_count(""), 0);
    assert_eq!(char_count("abc"), 3);
}

#[test]
fn split_whitespace_and_trim() {
    assert_eq!(split_whitespace("  a\tbc \n d  "), strs(&["a", "bc", "d"]));
    assert_eq!(split_whitespace(" \u{3000} "), Vec::<String>::new());
    assert_eq!(trim_str("  a b \n"), "a b");
    assert_eq!(trim_str("\u{a0}x\u{2003}"), "x");
    assert_eq!(trim_str("   "), "");
    assert!(is_blank(" \t\r\n"));
    assert!(!is_blank(" x "));
}

#[test]
fn split_long_word_cuts_into_pieces() {
    assert_eq!(split_long_word("abcdefg", 3), strs(&["abc", "def", "g"]));
    assert_eq!(split_long_word("abcdef", 3), strs(&["abc", "def"]));
    assert_eq!(split_long_word("abc", 3), strs(&["abc"]));
    assert_eq!(split_long_word("", 3), Vec::<String>::new());
    assert_eq!(split_long_word("abc", 0), strs(&["abc"]));
    assert_eq!(split_long_word("\u{e4}\u{f6}\u{fc}", 2), strs(&["\u{e4}\u{f6}", "\u{fc}"]));
}

#[test]
fn wrap_text_fills_lines_greedily() {
    assert_eq!(wrap_text("hello world", 27), strs(&["hello world"]));
    assert_eq!(
        wrap_text("the quick brown fox jumps over the lazy dog", 10),
        strs(&["the quick", "brown fox", "jumps over", "the lazy", "dog"])
    );
    assert_eq!(wrap_text("a   b\t\tc", 27), strs(&["a b c"]));
}

#[test]
fn wrap_text_splits_long_words() {
    assert_eq!(wrap_text("abcdefghij", 4), strs(&["abcd", "efgh", "ij"]));
    assert_eq!(wrap_text("abcdefghij x", 4), strs(&["abcd", "efgh", "ij", "x"]));
    assert_eq!(wrap_text("ab abcdefghij", 4), strs(&["ab", "abcd", "efgh", "ij"]));
    assert_eq!(wrap_text("ab abcdefghij x", 4), strs(&["ab", "abcd", "efgh", "ij x"]));
}

#[test]
fn wrap_text_edge_cases() {
    assert_eq!(wrap_text("", 5), strs(&[""]));
    assert_eq!(wrap_text("  \t ", 5), strs(&[""]));
    assert_eq!(wrap_text("a b", 0), strs(&["a b"]));
    assert_eq!(wrap_text("abcde", 5), strs(&["abcde"]));
    assert_eq!(wrap_text("ab cd", 5), strs(&["ab cd"]));
    assert_eq!(wrap_text("ab cde", 5), strs(&["ab", "cde"]));
}

#[test]
fn wrap_text_keeps_letters_and_width() {
    let text = "Lorem ipsum dolor sit amet, consectetur adipiscing elit, sed do eiusmodtemporincididuntutlabore";
    let lines = wrap_text(text, 12);
    for line in &lines {
        assert!(!line.is_empty() && line.chars().count() <= 12);
        assert!(!line.starts_with(' ') && !line.ends_with(' '));
    }
    let joined: String = lines.concat().chars().filter(|c| !c.is_whitespace()).collect();
    let input_letters: String = text.chars().filter(|c| !c.is_whitespace()).collect();
    assert_eq!(joined, input_letters);
}

#[test]
fn normalize_text_transliterates() {
    assert_eq!(
        normalize_text("Gr\u{fc}\u{df}e\r\naus K\u{f6}ln \u{2713}"),
        "Gruesse\naus Koeln ?"
    );
    assert_eq!(normalize_text("\u{c4}\u{d6}\u{dc}\u{e4}\u{f6}\u{fc}"), "AEOEUEaeoeue");
    assert_eq!(normalize_text("plain ascii\t~"), "plain ascii\t~");
    assert_eq!(normalize_text(""), "");
}

#[test]
fn normalize_text_is_idempotent() {
    let once = normalize_text("\u{fc}ber \u{1f600} stra\u{df}e\r\n");
    assert_eq!(normalize_text(&once), once);
    assert!(once.is_ascii() && !once.contains('\r'));
}

#[test]
fn collapse_repeated_newlines_examples() {
    assert_eq!(collapse_repeated_newlines("a\n\n\nb\n\nc"), "a\nb\nc");
    assert_eq!(collapse_repeated_newlines("\n\n"), "\n");
    assert_eq!(collapse_repeated_newlines("a\nb"), "a\nb");
    assert_eq!(collapse_repeated_newlines(""), "");
    let once = collapse_repeated_newlines("x\n\n\ny\n");
    assert_eq!(collapse_repeated_newlines(&once), once);
}

#[test]
fn format_print_job_at_layout() {
    assert_eq!(
        format_print_job_at("  hi\n\n\nthere  ", "2024-01-02 03:04:05"),
        "2024-01-02 03:04:05\nhi\nthere\n------------"
    );
    assert_eq!(format_print_job_at("", "t"), "t\n\n------------");
}

#[test]
fn format_print_job_is_stamped_with_local_time() {
    let job = format_print_job(" x ");
    let (stamp, rest) = job.split_once('\n').unwrap();
    assert_eq!(rest, "x\n------------");
    assert_eq!(stamp.len(), 19);
    assert!(!stamp.contains('%'));
    let b = stamp.as_bytes();
    assert_eq!((b[4], b[7], b[10], b[13], b[16]), (b'-', b'-', b' ', b':', b':'));
}

#[test]
fn split_paragraphs_examples() {
    assert_eq!(split_paragraphs("a\n\nb"), strs(&["a", "", "b"]));
    assert_eq!(split_paragraphs(""), strs(&[""]));
    assert_eq!(split_paragraphs("a\n"), strs(&["a", ""]));
}

#[test]
fn text_lines_examples() {
    assert_eq!(text_lines("Hello World"), strs(&["Hello World"]));
    assert_eq!(text_lines("a\n\nb"), strs(&["a", "", "b"]));
    assert_eq!(text_lines("a\r\n  \nb"), strs(&["a", "", "b"]));
    assert_eq!(text_lines(""), strs(&[""]));
    assert_eq!(
        text_lines("Sch\u{f6}ne Gr\u{fc}\u{df}e aus dem wundersch\u{f6}nen Hamburg"),
        strs(&["Schoene Gruesse aus dem", "wunderschoenen Hamburg"])
    );
}

#[test]
fn printed_lines_fit_the_paper() {
    let text = "\u{2764} Ein sehr langer Satz, der \u{fc}ber mehrere Zeilen geht und ein Donaudampfschifffahrtsgesellschaftskapit\u{e4}n enth\u{e4}lt.\r\n\n\nEnde";
    let lines = print_job_lines(text);
    assert_eq!(lines[0], "");
    assert_eq!(lines[lines.len() - 1], "");
    assert_eq!(lines[lines.len() - 2], "");
    for line in &lines {
        assert!(line.chars().count() <= MAX_CHARS_PER_LINE);
        assert!(line.is_ascii());
        assert!(!line.contains('\n') && !line.contains('\r'));
    }
}

#[test]
fn print_job_lines_frames_the_text() {
    assert_eq!(print_job_lines("hi"), strs(&["", "hi", "", ""]));
    assert_eq!(feed_lines(2), strs(&["", ""]));
    assert_eq!(feed_lines(0), Vec::<String>::new());
}

#[test]
fn line_bytes_end_with_crlf() {
    assert_eq!(line_bytes("ab"), b"ab\r\n".to_vec());
    assert_eq!(line_bytes(""), b"\r\n".to_vec());
}

#[test]
fn port_candidates_examples() {
    assert_eq!(port_candidates(Some("/dev/x")), strs(&["/dev/x"]));
    assert_eq!(
        port_candidates(None),
        strs(&["/dev/serial0", "/dev/ttyAMA0", "/dev/ttyS0", "/dev/ttyUSB0"])
    );
}

#[test]
fn port_search_tries_ports_in_order() {
    let mut search = PortSearch::new(None);
    assert_eq!(search.next_port().as_deref(), Some("/dev/serial0"));
    search.record_failure("busy".to_string());
    assert_eq!(search.next_port().as_deref(), Some("/dev/ttyAMA0"));
    search.record_failure("missing".to_string());
    assert_eq!(search.next_port().as_deref(), Some("/dev/ttyS0"));
    assert_eq!(search.next_port().as_deref(), Some("/dev/ttyUSB0"));
    assert_eq!(search.next_port(), None);
    assert!(matches!(search.failure(), ConnectFailure::AllFailed(e) if e == "missing"));
    let mut configured = PortSearch::new(Some("/dev/x"));
    assert_eq!(configured.next_port().as_deref(), Some("/dev/x"));
    assert_eq!(configured.next_port(), None);
    assert!(matches!(configured.failure(), ConnectFailure::NoPortsConfigured));
}
