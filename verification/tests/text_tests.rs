use p2p_rust_chord::digest::{key_of_digest, key_of_text};
use p2p_rust_chord::text::{chars_of, field_spans, line_spans, white_space};

fn pieces(text: &str, spans: &[(usize, usize)]) -> Vec<String> {
    let chars: Vec<char> = text.chars().collect();
    spans.iter().map(|(a, b)| chars[*a..*b].iter().collect()).collect()
}

#[test]
fn digest_folding() {
    assert_eq!(key_of_digest(&[0x12, 0x34, 0x56, 0x78]), 0x45678);
    assert_eq!(key_of_digest(&[0xff, 0xff, 0xff, 0xff, 0x00]), 0xfffff);
    assert_eq!(key_of_digest(&[0, 0, 0, 7]), 7);
    assert_eq!(key_of_text("hello"), 312861);
}

#[test]
fn whitespace_matches_std() {
    for c in ['\t', '\n', '\u{b}', '\u{c}', '\r', ' ', '\u{85}', '\u{a0}', '\u{1680}', '\u{2000}',
        '\u{200a}', '\u{2028}', '\u{2029}', '\u{202f}', '\u{205f}', '\u{3000}', 'a', '0', '\u{200b}',
        '\u{180e}', '\u{feff}', '-']
    {
        assert_eq!(white_space(c), c.is_whitespace(), "{:?}", c);
    }
}

#[test]
fn chars_in_order() {
    assert_eq!(chars_of("aé€😀"), vec!['a', 'é', '€', '😀']);
    assert!(chars_of("").is_empty());
}

#[test]
fn fields_like_split_whitespace() {
    for text in ["", "   ", "a", " a  b\tc ", "x\u{3000}yé  z\n", "one two three four"] {
        let chars = chars_of(text);
        let spans = field_spans(&chars);
        let expected: Vec<String> = text.split_whitespace().map(|s| s.to_string()).collect();
        assert_eq!(pieces(text, &spans), expected, "{:?}", text);
    }
}

#[test]
fn lines_like_str_lines() {
    for text in ["", "\n", "a", "a\n", "a\r\nb", "a\n\nb\r", "\r\n\r\n", "x\ry\n z \r\n"] {
        let chars = chars_of(text);
        let spans = line_spans(&chars);
        let expected: Vec<String> = text.lines().map(|s| s.to_string()).collect();
        assert_eq!(pieces(text, &spans), expected, "{:?}", text);
    }
}
