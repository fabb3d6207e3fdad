use std::collections::HashMap;

use awscredx::cache_text::parse_sections;
use awscredx::text::{chars_of, replace_in, string_of, trimmed, trimmed_end, Strip};

#[test]
fn white_space_is_what_std_takes_for_it() {
    for n in 0..=0x10_ffffu32 {
        if let Some(c) = char::from_u32(n) {
            assert_eq!(Strip::Whitespace.test(c), c.is_whitespace(), "U+{:04X}", n);
            assert_eq!(Strip::HeaderMarks.test(c), "[ ]\"".contains(c));
            assert_eq!(Strip::ValueMarks.test(c), c == ' ' || c == '"');
        }
    }
}

/// A small generator of texts over an alphabet that the formats care
/// about.
struct Texts(u64);

impl Texts {
    fn next(&mut self) -> u64 {
        self.0 = self.0.wrapping_mul(6364136223846793005).wrapping_add(1442695040888963407);
        self.0 >> 33
    }

    fn text(&mut self, alphabet: &[&str], max: u64) -> String {
        let n = self.next() % (max + 1);
        (0..n).map(|_| alphabet[(self.next() % alphabet.len() as u64) as usize]).collect()
    }
}

#[test]
fn trimming_is_what_std_does() {
    let alphabet = [" ", "\t", "\n", "\r", "\u{a0}", "\u{2003}", "a", "[", "]", "\"", "=", "é"];
    let mut texts = Texts(1);
    for _ in 0..3000 {
        let s = texts.text(&alphabet, 8);
        let chars = chars_of(&s);
        assert_eq!(chars, s.chars().collect::<Vec<char>>());
        assert_eq!(string_of(&chars), s);
        assert_eq!(string_of(trimmed(&chars, Strip::Whitespace)), s.trim());
        assert_eq!(string_of(trimmed_end(&chars, Strip::Whitespace)), s.trim_end());
        assert_eq!(
            string_of(trimmed(&chars, Strip::HeaderMarks)),
            s.trim_matches(|c| "[ ]\"".contains(c))
        );
        assert_eq!(
            string_of(trimmed(&chars, Strip::ValueMarks)),
            s.trim_matches(|c| c == ' ' || c == '"')
        );
    }
}

#[test]
fn replacing_is_what_std_does() {
    let alphabet = ["a", "b", "~", "$", "H", "é"];
    let mut texts = Texts(2);
    for _ in 0..3000 {
        let s = texts.text(&alphabet, 8);
        let from = texts.text(&alphabet, 3);
        let to = texts.text(&alphabet, 3);
        assert_eq!(replace_in(&s, &from, &to), s.replace(&from, &to), "{:?} {:?} {:?}", s, from, to);
    }
}

/// The sections of a text, read with what std offers: by lines, with a
/// map for the properties of the section at hand.
fn sections_by_std(text: &str) -> Vec<(String, Option<String>, Option<String>, Option<String>)> {
    let mut sections = Vec::new();
    let mut props: HashMap<String, String> = HashMap::new();
    let mut name: Option<String> = None;
    let mut close = |name: String, props: &mut HashMap<String, String>| {
        sections.push((
            name,
            props.remove("aws_access_key_id"),
            props.remove("aws_secret_access_key"),
            props.remove("aws_session_token"),
        ));
    };
    for ext in text.lines() {
        let line = ext.trim();
        if line.is_empty() {
            continue;
        }
        if line.chars().next() == Some('[') {
            if let Some(n) = name.take() {
                close(n, &mut props);
            }
            name = Some(line.trim_matches(|c| "[ ]\"".contains(c)).to_owned());
            props.clear();
        } else {
            let parts: Vec<&str> = line.splitn(2, '=').collect();
            if parts.len() == 2 {
                props.insert(
                    parts[0].trim().to_owned(),
                    parts[1].trim_matches(|c| c == ' ' || c == '"').to_owned(),
                );
            }
        }
    }
    if let Some(n) = name.take() {
        close(n, &mut props);
    }
    sections
}

#[test]
fn sections_are_what_reading_by_lines_gives() {
    let alphabet = [
        "\n",
        "\n",
        "\r\n",
        " ",
        "\t",
        "[",
        "]",
        "\"",
        "=",
        "a",
        "x y",
        "aws_access_key_id",
        "aws_secret_access_key",
        "aws_session_token",
        "aws_access_key_id = k\n",
        "[name]\n",
        "\u{a0}",
    ];
    let mut texts = Texts(3);
    for _ in 0..5000 {
        let text = texts.text(&alphabet, 14);
        let chars = chars_of(&text);
        let ours: Vec<_> = parse_sections(&chars)
            .into_iter()
            .map(|s| (s.name, s.access_key_id, s.secret_access_key, s.session_token))
            .collect();
        assert_eq!(ours, sections_by_std(&text), "{:?}", text);
    }
}
