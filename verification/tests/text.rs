use wakeupllm::http;
use wakeupllm::text;

fn chars(s: &str) -> Vec<char> {
    s.chars().collect()
}

fn every_char() -> Vec<char> {
    (0u32..=0x10ffff).filter_map(char::from_u32).collect()
}

const SAMPLES: [&str; 24] = [
    "",
    "\n",
    "\r\n",
    "\r",
    "a",
    "a\n",
    "a\r\n",
    "a\r",
    "a\r\r\n",
    "a\n\nb",
    "a\r\n\r\nb",
    "\n\na",
    " a  b\tc ",
    "\u{a0}x\u{2003}y\u{3000}",
    "\u{200b}",
    "a\u{85}b",
    "one two three four five",
    "  TCP    0.0.0.0:8003   0.0.0.0:0   LISTENING   4242  ",
    "héllo wörld",
    "日本 語",
    "\u{1F600} \u{1F601}",
    "trailing   ",
    "   leading",
    "\u{b}\u{c}\u{1c}",
];

#[test]
fn white_space_is_that_of_unicode() {
    for c in every_char() {
        assert_eq!(text::char_is_space(c), c.is_whitespace(), "{:?}", c);
    }
}

#[test]
fn lines_are_those_of_a_str() {
    for s in SAMPLES {
        let want: Vec<Vec<char>> = s.lines().map(chars).collect();
        assert_eq!(text::lines_of(&chars(s)), want, "{:?}", s);
    }
}

#[test]
fn words_are_those_of_a_str() {
    for s in SAMPLES {
        let want: Vec<Vec<char>> = s.split_whitespace().map(chars).collect();
        assert_eq!(text::words_of(&chars(s)), want, "{:?}", s);
    }
}

#[test]
fn trimming_is_that_of_a_str() {
    for s in SAMPLES {
        assert_eq!(text::trim_of(&chars(s)), chars(s.trim()), "{:?}", s);
    }
}

#[test]
fn numbers_are_read_as_a_str_reads_them() {
    let samples = [
        "", "+", "-", "0", "+0", "-0", "00", "007", "+12", "++12", "1_000", "12 ", " 12", "65535",
        "65536", "065535", "4294967295", "4294967296", "18446744073709551615",
        "18446744073709551616", "99999999999999999999999999", "1.0", "0x10", "１２", "12a",
    ];
    for s in samples {
        assert_eq!(
            text::parse_unsigned(&chars(s), u16::MAX as u64),
            s.parse::<u16>().ok().map(|n| n as u64),
            "{:?}",
            s
        );
        assert_eq!(
            text::parse_unsigned(&chars(s), u32::MAX as u64),
            s.parse::<u32>().ok().map(|n| n as u64),
            "{:?}",
            s
        );
        assert_eq!(text::parse_unsigned(&chars(s), u64::MAX), s.parse::<u64>().ok(), "{:?}", s);
    }
}

#[test]
fn printed_numbers_read_back() {
    for n in [0, 1, 9, 10, 99, 100, 8003, 65535, u64::MAX - 1, u64::MAX] {
        let s = text::decimal_string(n);
        assert_eq!(s, n.to_string());
        assert_eq!(text::parse_unsigned(&chars(&s), u64::MAX), Some(n));
    }
}

#[test]
fn header_names_match_in_any_case() {
    let mut candidates: Vec<char> = (0u8..128).map(char::from).collect();
    for c in every_char() {
        if !c.is_ascii() && c.to_lowercase().any(|l| l.is_ascii()) {
            candidates.push(c);
        }
    }
    assert!(candidates.contains(&'\u{212a}') && candidates.contains(&'\u{130}'));
    for prefix in ["host:", "content-length:", "connection:"] {
        let letters = chars(prefix);
        for i in 0..letters.len() {
            for &c in &candidates {
                let mut changed = letters.clone();
                changed[i] = c;
                let line: String = changed.iter().collect();
                assert_eq!(
                    text::has_prefix(&changed, prefix),
                    line.to_lowercase().starts_with(prefix),
                    "{:?}",
                    line
                );
            }
        }
        assert!(text::has_prefix(&chars(&prefix.to_uppercase()), prefix));
        assert!(!text::has_prefix(&chars(&prefix[..prefix.len() - 1]), prefix));
        assert!(!text::has_prefix(&chars(&format!(" {prefix}")), prefix));
    }
}

#[test]
fn lengths_are_read_whatever_stands_beside_them() {
    for c in every_char() {
        let odd = c.is_whitespace() || c.is_numeric() || c.to_lowercase().next() != Some(c);
        if !odd && !c.is_ascii() {
            continue;
        }
        for line in [format!("Content-Length: {c}7"), format!("Content-Length:7{c}")] {
            let block = format!("GET / HTTP/1.1\r\n{line}\r\n");
            let want: usize = block
                .lines()
                .skip(1)
                .find_map(|l| {
                    let lower = l.to_lowercase();
                    if lower.starts_with("content-length:") {
                        lower["content-length:".len()..].trim().parse().ok()
                    } else {
                        None
                    }
                })
                .unwrap_or(0);
            assert_eq!(http::parse_head(block.as_bytes()).content_length, want, "{:?}", line);
        }
    }
}

#[test]
fn parts_of_a_text_are_found() {
    for s in SAMPLES {
        for part in ["", "a", "200 OK", "\n", "LISTENING", "語", "4242  "] {
            assert_eq!(text::has_part(&chars(s), part), s.contains(part), "{:?} {:?}", s, part);
            assert_eq!(
                text::has_suffix(&chars(s), &chars(part)),
                s.ends_with(part),
                "{:?} {:?}",
                s,
                part
            );
            assert_eq!(
                text::has_start(&chars(s), part),
                s.starts_with(part),
                "{:?} {:?}",
                s,
                part
            );
        }
    }
    assert_eq!(text::rfind_char(&chars("a/b/c"), '/'), Some(3));
    assert_eq!(text::rfind_char(&chars("abc"), '/'), None);
    assert_eq!(text::rfind_char(&chars(""), '/'), None);
}

#[test]
fn texts_are_compared_and_copied() {
    assert!(text::same_text("", ""));
    assert!(text::same_text("héllo", "héllo"));
    assert!(!text::same_text("hello", "héllo"));
    assert!(!text::same_text("a", "aa"));
    assert_eq!(text::string_of(&chars("日本")), "日本");
    assert_eq!(text::chars_of("日本"), chars("日本"));
    assert_eq!(text::slice_of(&chars("abcdef"), 2, 4), vec!['c', 'd']);
    assert_eq!(text::to_ascii_lower('Q'), 'q');
    assert_eq!(text::to_ascii_lower('É'), 'É');
}

#[test]
fn bytes_that_are_no_text_are_replaced() {
    assert_eq!(text::lossy_text("日本".as_bytes()), chars("日本"));
    assert_eq!(text::lossy_text(&[b'a', 0xff, b'b']), vec!['a', '\u{fffd}', 'b']);
    assert_eq!(
        text::lossy_text(&[0xe6, 0x97]),
        String::from_utf8_lossy(&[0xe6, 0x97]).chars().collect::<Vec<char>>()
    );
}
