use m3u8::text::{chars_of, line_ranges, stripped, Strip};

fn lines_of(s: &str) -> Vec<String> {
    let cs = chars_of(s);
    line_ranges(&cs).iter().map(|&(a, b)| cs[a..b].iter().collect()).collect()
}

#[test]
fn lines_split_like_str_lines() {
    for s in ["", "\n", "a", "a\n", "a\r\nb", "a\n\nb\n", "x\ry\r", "\r\n", "a\r"] {
        let expected: Vec<String> = s.lines().map(|l| l.to_string()).collect();
        assert_eq!(lines_of(s), expected, "input {:?}", s);
    }
}

#[test]
fn strip_like_trim() {
    for s in ["", "  a b  ", "\u{3000}x\u{a0}", "\t\n", "\u{85}y\u{2029}"] {
        assert_eq!(stripped(s, Strip::WhiteSpace), s.trim());
    }
}

#[test]
fn strip_quotes_like_trim_matches() {
    for s in ["\"a.ts\"", "\"\"b\"", "c", "\"\"", "\" x \""] {
        assert_eq!(stripped(s, Strip::Quote), s.trim_matches('"'));
    }
}
