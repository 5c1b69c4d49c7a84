use party_sign_in::names::{clean_name, clean_whitespace, split_guest_names};

/// Every text over `alphabet` of at most `longest` characters.
fn texts(alphabet: &[char], longest: usize) -> Vec<String> {
    let mut all = vec![String::new()];
    let mut last = vec![String::new()];
    for _ in 0..longest {
        let mut next = Vec::new();
        for text in &last {
            for c in alphabet {
                let mut longer = text.clone();
                longer.push(*c);
                next.push(longer);
            }
        }
        all.extend(next.iter().cloned());
        last = next;
    }
    all
}

/// Each stretch of white space replaced by one space: a white-space
/// character that follows another is dropped, any other becomes a space.
fn collapse_by_hand(text: &[char]) -> String {
    let mut out = String::new();
    for (i, c) in text.iter().enumerate() {
        if !c.is_whitespace() {
            out.push(*c);
        } else if i == 0 || !text[i - 1].is_whitespace() {
            out.push(' ');
        }
    }
    out
}

fn trim_by_hand(text: &[char]) -> &[char] {
    let mut start = 0;
    while start < text.len() && text[start].is_whitespace() {
        start += 1;
    }
    let mut end = text.len();
    while end > start && text[end - 1].is_whitespace() {
        end -= 1;
    }
    &text[start..end]
}

fn space_run(text: &[char], from: usize) -> usize {
    let mut n = 0;
    while from + n < text.len() && text[from + n].is_whitespace() {
        n += 1;
    }
    n
}

fn and_at(text: &[char], at: usize) -> bool {
    at + 3 <= text.len()
        && text[at].to_ascii_lowercase() == 'a'
        && text[at + 1].to_ascii_lowercase() == 'n'
        && text[at + 2].to_ascii_lowercase() == 'd'
}

/// Each joint of white space, "and", white space replaced by a comma,
/// joints found from left to right.
fn commas_by_hand(text: &[char]) -> String {
    let mut out = String::new();
    let mut from = 0;
    while from < text.len() {
        let lead = space_run(text, from);
        let trail = space_run(text, from + lead + 3);
        if lead > 0 && and_at(text, from + lead) && trail > 0 {
            out.push(',');
            from += lead + 3 + trail;
        } else {
            out.push(text[from]);
            from += 1;
        }
    }
    out
}

fn names_by_hand(input: &str) -> Vec<Option<String>> {
    let chars: Vec<char> = input.chars().collect();
    commas_by_hand(&chars).split(|c| c == ',' || c == '&').map(clean_name).collect()
}

fn check_whitespace(alphabet: &[char], longest: usize) {
    for text in texts(alphabet, longest) {
        let chars: Vec<char> = text.chars().collect();
        assert_eq!(clean_whitespace(&text), collapse_by_hand(trim_by_hand(&chars)), "{:?}", text);
    }
}

fn check_names(alphabet: &[char], longest: usize) {
    for text in texts(alphabet, longest) {
        assert_eq!(split_guest_names(&text), names_by_hand(&text), "{:?}", text);
    }
}

#[test]
fn clean_whitespace_agrees_with_collapsing_by_hand() {
    check_whitespace(&[' ', '\t', 'a', 'b'], 5);
}

#[test]
fn clean_whitespace_agrees_on_unusual_white_space() {
    check_whitespace(&['\u{a0}', '\u{2003}', '\n', 'x', '\u{200b}'], 4);
}

#[test]
fn split_guest_names_agrees_with_splitting_by_hand() {
    check_names(&[' ', 'a', 'n', 'd'], 5);
}

#[test]
fn split_guest_names_agrees_on_capitals_and_tabs() {
    check_names(&['\t', 'A', 'N', 'd'], 5);
}

#[test]
fn split_guest_names_agrees_around_separators() {
    check_names(&[' ', ',', '&', 'x'], 5);
}

#[test]
fn split_guest_names_agrees_on_longer_joints() {
    for lead in ["", " ", "  ", "\t "] {
        for word in ["and", "AND", "aNd", "an", "andy", "\u{e4}nd", "a\u{144}d"] {
            for trail in ["", " ", " \n", "\u{a0}"] {
                for (head, tail) in
                    [("Ann", "Bob"), ("", "Bob"), ("Ann", ""), ("x and", "and y"), ("a and b", " c")]
                {
                    let text = format!("{head}{lead}{word}{trail}{tail}");
                    assert_eq!(split_guest_names(&text), names_by_hand(&text), "{:?}", text);
                }
            }
        }
    }
}
