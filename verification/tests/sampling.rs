use cachew::numbers::{float_text, parse_i32};
use cachew::parser::{parse_set_value, split_at_delimiter, validate_key};
use cachew::schemas::{DatabaseType, ValueType};
use cachew::text::{text_less, trim_text};

/// A small linear congruential generator, so that the samples are the same on every run.
struct Samples {
    state: u64,
}

impl Samples {
    fn new(seed: u64) -> Self {
        Samples { state: seed }
    }

    fn next(&mut self, bound: usize) -> usize {
        self.state = self.state.wrapping_mul(6364136223846793005).wrapping_add(1442695040888963407);
        ((self.state >> 33) as usize) % bound
    }

    fn text(&mut self, alphabet: &[char], longest: usize) -> String {
        let length = self.next(longest + 1);
        (0..length).map(|_| alphabet[self.next(alphabet.len())]).collect()
    }
}

fn split_by_scanning(text: &str, delimiter: char) -> Vec<String> {
    let characters: Vec<char> = text.chars().collect();
    let mut parts = Vec::new();
    let mut part = String::new();
    let mut quoted = false;
    for (at, &c) in characters.iter().enumerate() {
        if c == '"' {
            if at == 0 || characters[at - 1] != '\\' {
                quoted = !quoted;
            }
            part.push(c);
        } else if c == delimiter && !quoted {
            parts.push(part.trim_matches(' ').to_string());
            part = String::new();
        } else {
            part.push(c);
        }
    }
    parts.push(part.trim_matches(' ').to_string());
    parts
}

#[test]
fn sampled_texts_split_like_a_plain_scan() {
    let alphabet = ['a', 'b', ' ', ' ', ',', '/', '"', '"', '\\', 'é', '\n'];
    let mut samples = Samples::new(7);
    for _ in 0..4000 {
        let text = samples.text(&alphabet, 12);
        for delimiter in [' ', ',', '/', '"', '\\', 'a'] {
            let parts: Vec<String> =
                split_at_delimiter(&text, delimiter).into_iter().map(String::from).collect();
            assert_eq!(parts, split_by_scanning(&text, delimiter), "{:?} {:?}", text, delimiter);
        }
    }
}

#[test]
fn sampled_texts_are_floats_when_the_standard_library_says_so() {
    let alphabet = ['0', '1', '9', '.', 'e', 'E', '+', '-', 'i', 'n', 'f', 'a', 'N', 't', 'y', ' '];
    let mut samples = Samples::new(11);
    for _ in 0..20000 {
        let text = samples.text(&alphabet, 8);
        assert_eq!(float_text(&text), text.parse::<f32>().is_ok(), "{:?}", text);
    }
    for word in ["inf", "infinity", "nan", "INF", "Infinity", "NAN", "iNf", "infinitY"] {
        for sign in ["", "+", "-", "++", " "] {
            let text = format!("{}{}", sign, word);
            assert_eq!(float_text(&text), text.parse::<f32>().is_ok(), "{:?}", text);
        }
    }
}

#[test]
fn sampled_texts_are_integers_when_the_standard_library_says_so() {
    let alphabet = ['0', '1', '2', '4', '7', '8', '9', '+', '-', ' ', 'a'];
    let mut samples = Samples::new(13);
    for _ in 0..20000 {
        let text = samples.text(&alphabet, 12);
        assert_eq!(parse_i32(&text), text.parse::<i32>().ok(), "{:?}", text);
    }
}

#[test]
fn sampled_texts_are_ordered_and_trimmed_like_strings() {
    let alphabet = ['a', 'b', 'A', ' ', '\t', '\u{a0}', 'é', '\u{10000}', '\u{ffff}', '~'];
    let mut samples = Samples::new(17);
    for _ in 0..5000 {
        let a = samples.text(&alphabet, 5);
        let b = samples.text(&alphabet, 5);
        assert_eq!(text_less(&a, &b), a < b, "{:?} {:?}", a, b);
        assert_eq!(trim_text(&a), a.trim());
    }
}

#[test]
fn sampled_quoted_values_need_every_inner_quote_escaped() {
    let alphabet = ['a', ' ', '"', '"', '\\', '\n', ',', 'é'];
    let mut samples = Samples::new(19);
    for _ in 0..20000 {
        let inner = samples.text(&alphabet, 7);
        let token = format!("\"{}\"", inner);
        let characters: Vec<char> = inner.chars().collect();
        let escaped = characters
            .iter()
            .enumerate()
            .all(|(at, &c)| c != '"' || (at > 0 && characters[at - 1] == '\\'));
        let result = parse_set_value(&token, &DatabaseType::Str);
        if escaped {
            assert_eq!(result, Ok(ValueType::Str(inner.clone())), "{:?}", token);
        } else {
            assert_eq!(
                result.unwrap_err(),
                "ParserError 'unescapedDoubleQuote': Double quotes must be escaped.",
                "{:?}",
                token
            );
        }
    }
}

#[test]
fn sampled_keys_follow_the_rules_for_keys() {
    let alphabet = ['a', ' ', '"', ',', '/', 'é'];
    let mut samples = Samples::new(23);
    for _ in 0..20000 {
        let token = samples.text(&alphabet, 5);
        let characters: Vec<char> = token.chars().collect();
        let quoted = !characters.is_empty()
            && characters[0] == '"'
            && characters[characters.len() - 1] == '"';
        let expected: Option<String> = if quoted {
            match characters.len() {
                1 => Some(token.clone()),
                2 => None,
                length => Some(characters[1..length - 1].iter().collect()),
            }
        } else if token.is_empty() || token.contains([' ', ',', '/']) {
            None
        } else {
            Some(token.clone())
        };
        assert_eq!(validate_key(&token).ok().map(String::from), expected, "{:?}", token);
    }
}
