//! How names are cleaned: white space, letter case, and the splitting of a
//! field that lists several guests.

use vstd::prelude::*;
use regex::Regex;
use crate::text::{ascii_lower, ascii_alnum, char_uppercase, chars_of, is_alphabetic,
    is_alphabetic_char, is_ascii_alnum, is_uppercase, is_uppercase_char, is_white_space,
    join_text, join_with, lower_char, lowercase_of, split_on, split_text, str_lowercase,
    string_of, trim_text, trimmed, uppercase_of};

verus! {

/// The pattern of a stretch of white space.
pub const SPACE_RUN: &'static str = "\\s+";

/// The pattern of the word "and" between two stretches of white space,
/// in any letter case.
pub const AND_JOINT: &'static str = "(?i)\\s+and\\s+";

/// `s` with each stretch of white space replaced by one space: a white-space
/// character that follows another is dropped, any other becomes a space.
pub open spec fn collapse_spaces(s: Seq<char>) -> Seq<char>
    decreases s.len(),
{
    if s.len() == 0 {
        Seq::<char>::empty()
    } else if !is_white_space(s.last()) {
        collapse_spaces(s.drop_last()).push(s.last())
    } else if s.len() >= 2 && is_white_space(s[s.len() - 2]) {
        collapse_spaces(s.drop_last())
    } else {
        collapse_spaces(s.drop_last()).push(' ')
    }
}

/// The number of white-space characters that stand in `s` from `i` on
/// without a break.
pub open spec fn space_run(s: Seq<char>, i: int) -> int
    decreases s.len() - i,
{
    if 0 <= i < s.len() && is_white_space(s[i]) {
        1 + space_run(s, i + 1)
    } else {
        0
    }
}

/// Whether the letters of "and" stand in `s` at `i`, in any letter case.
pub open spec fn and_at(s: Seq<char>, i: int) -> bool {
    0 <= i && i + 3 <= s.len() && ascii_lower(s[i]) == 'a' && ascii_lower(s[i + 1]) == 'n'
        && ascii_lower(s[i + 2]) == 'd'
}

/// The length of the joint that begins at `i`: white space, "and", white
/// space, each stretch of white space taken whole. Zero where none begins
/// there.
pub open spec fn and_joint_len(s: Seq<char>, i: int) -> int {
    let lead = space_run(s, i);
    let trail = space_run(s, i + lead + 3);
    if lead > 0 && and_at(s, i + lead) && trail > 0 {
        lead + 3 + trail
    } else {
        0
    }
}

/// `s` from `from` on, with each joint replaced by a comma. Joints are
/// found from left to right and do not overlap.
pub open spec fn commas_for_and(s: Seq<char>, from: int) -> Seq<char>
    decreases
        if from < s.len() {
            s.len() - from
        } else {
            0
        },
{
    let joint = and_joint_len(s, from);
    if from < 0 || from >= s.len() {
        Seq::<char>::empty()
    } else if joint > 0 {
        seq![','] + commas_for_and(s, from + joint)
    } else {
        seq![s[from]] + commas_for_and(s, from + 1)
    }
}

/// Whether `s` has a letter and all its letters are capitals.
pub open spec fn all_caps(s: Seq<char>) -> bool {
    &&& exists|i: int| 0 <= i < s.len() && is_alphabetic_char(#[trigger] s[i])
    &&& forall|i: int|
        0 <= i < s.len() && is_alphabetic_char(#[trigger] s[i]) ==> is_uppercase_char(s[i])
}

/// A word with its first character in upper case and the rest in lower
/// case.
pub open spec fn title_word(word: Seq<char>) -> Seq<char> {
    if word.len() == 0 {
        word
    } else {
        char_uppercase(word[0]) + str_lowercase(word.drop_first())
    }
}

/// Each of the words in title case.
pub open spec fn title_words(parts: Seq<Seq<char>>) -> Seq<Seq<char>> {
    Seq::new(parts.len(), |k: int| title_word(parts[k]))
}

/// `s` with each of its words, as single spaces part them, in title case.
pub open spec fn title_case(s: Seq<char>) -> Seq<char> {
    join_with(title_words(split_on(s, ' ', ' ')), ' ')
}

/// A name as the store keeps it: trimmed, each stretch of white space one
/// space, and an all-capitals name in title case. `None` for a text without
/// anything but white space.
pub open spec fn clean_name_model(value: Seq<char>) -> Option<Seq<char>> {
    if trimmed(value).len() == 0 {
        None
    } else {
        let collapsed = collapse_spaces(trimmed(value));
        Some(
            if all_caps(collapsed) {
                title_case(collapsed)
            } else {
                collapsed
            },
        )
    }
}

/// Each of the parts as a clean name.
pub open spec fn clean_names(parts: Seq<Seq<char>>) -> Seq<Option<Seq<char>>> {
    Seq::new(parts.len(), |k: int| clean_name_model(parts[k]))
}

/// The names that a field lists: "and" between white space, `&` and the
/// comma all part two names, and each part is cleaned.
pub open spec fn split_names_model(input: Seq<char>) -> Seq<Option<Seq<char>>> {
    clean_names(split_on(commas_for_and(input, 0), ',', '&'))
}

/// The ASCII letters and digits of `token`, the letters in lower case.
pub open spec fn clean_token_model(token: Seq<char>) -> Seq<char>
    decreases token.len(),
{
    if token.len() == 0 {
        Seq::<char>::empty()
    } else if is_ascii_alnum(token.last()) {
        clean_token_model(token.drop_last()).push(ascii_lower(token.last()))
    } else {
        clean_token_model(token.drop_last())
    }
}

/// `token` with each double quote doubled.
pub open spec fn fts_escape_model(token: Seq<char>) -> Seq<char>
    decreases token.len(),
{
    if token.len() == 0 {
        Seq::<char>::empty()
    } else if token.last() == '"' {
        fts_escape_model(token.drop_last()).push('"').push('"')
    } else {
        fts_escape_model(token.drop_last()).push(token.last())
    }
}

/// Calls `regex::Regex::new` on `pattern` and `Regex::replace_all` on
/// `text`, for the two patterns of this module, each with its replacement.
///
/// Both patterns compile. `\s` is the `White_Space` property, a match is
/// the leftmost one and takes each `\s+` as far as it goes, and `(?i)` lets
/// `a`, `n`, `d` match their capitals and nothing else; so the result is
/// what [`collapse_spaces`] and [`commas_for_and`] describe.
#[verifier::external_body]
fn replace_all(pattern: &str, text: &str, replacement: &str) -> (out: String)
    requires
        (pattern@ == SPACE_RUN@ && replacement@ == seq![' ']) || (pattern@ == AND_JOINT@
            && replacement@ == seq![',']),
    ensures
        pattern@ == SPACE_RUN@ ==> out@ == collapse_spaces(text@),
        pattern@ == AND_JOINT@ ==> out@ == commas_for_and(text@, 0),
{
    match Regex::new(pattern) {
        Ok(re) => re.replace_all(text, replacement).into_owned(),
        Err(_) => String::from(text),
    }
}

/// `value` trimmed, each stretch of white space replaced by one space.
pub fn clean_whitespace(value: &str) -> (out: String)
    ensures
        out@ == collapse_spaces(trimmed(value@)),
{
    let kept = string_of(&trim_text(&chars_of(value)));
    proof {
        reveal_strlit(" ");
        assert(" "@ =~= seq![' ']);
    }
    replace_all(SPACE_RUN, kept.as_str(), " ")
}

/// Whether `value` has a letter and all its letters are capitals.
pub fn is_all_caps(value: &str) -> (caps: bool)
    ensures
        caps == all_caps(value@),
{
    let chars = chars_of(value);
    let mut seen: bool = false;
    let mut i: usize = 0;
    while i < chars.len()
        invariant
            i <= chars.len(),
            chars@ == value@,
            seen == exists|k: int| 0 <= k < i && is_alphabetic_char(#[trigger] chars@[k]),
            forall|k: int|
                0 <= k < i && is_alphabetic_char(#[trigger] chars@[k]) ==> is_uppercase_char(
                    chars@[k],
                ),
        decreases chars.len() - i,
    {
        if is_alphabetic(chars[i]) {
            if !is_uppercase(chars[i]) {
                return false;
            }
            seen = true;
        }
        i += 1;
    }
    seen
}

/// A word with its first character in upper case and the rest in lower
/// case.
fn title_word_of(word: &Vec<char>) -> (out: Vec<char>)
    ensures
        out@ == title_word(word@),
{
    if word.len() == 0 {
        return Vec::new();
    }
    let mut out = uppercase_of(word[0]);
    let mut rest: Vec<char> = Vec::new();
    let mut i: usize = 1;
    while i < word.len()
        invariant
            1 <= i <= word.len(),
            rest@ == word@.subrange(1, i as int),
        decreases word.len() - i,
    {
        rest.push(word[i]);
        assert(word@.subrange(1, i + 1) =~= word@.subrange(1, i as int).push(word@[i as int]));
        i += 1;
    }
    assert(word@.subrange(1, word.len() as int) =~= word@.drop_first());
    let lowered = chars_of(lowercase_of(string_of(&rest).as_str()).as_str());
    let mut k: usize = 0;
    let ghost head = out@;
    while k < lowered.len()
        invariant
            k <= lowered.len(),
            out@ == head + lowered@.take(k as int),
        decreases lowered.len() - k,
    {
        out.push(lowered[k]);
        assert(lowered@.take(k + 1) =~= lowered@.take(k as int).push(lowered@[k as int]));
        k += 1;
    }
    assert(lowered@.take(lowered.len() as int) =~= lowered@);
    out
}

/// A name as the store keeps it, or `None` for a text without anything but
/// white space.
pub fn clean_name(value: &str) -> (out: Option<String>)
    ensures
        crate::store::text_view(out) == clean_name_model(value@),
{
    let kept = trim_text(&chars_of(value));
    if kept.len() == 0 {
        return None;
    }
    proof {
        reveal_strlit(" ");
        assert(" "@ =~= seq![' ']);
    }
    let collapsed = replace_all(SPACE_RUN, string_of(&kept).as_str(), " ");
    if !is_all_caps(collapsed.as_str()) {
        return Some(collapsed);
    }
    let parts = split_text(&chars_of(collapsed.as_str()), ' ', ' ');
    let mut titled: Vec<Vec<char>> = Vec::new();
    let mut i: usize = 0;
    while i < parts.len()
        invariant
            i <= parts.len(),
            titled@.len() == i,
            forall|k: int| 0 <= k < i ==> (#[trigger] titled@[k])@ == title_word(parts@[k]@),
        decreases parts.len() - i,
    {
        titled.push(title_word_of(&parts[i]));
        i += 1;
    }
    let joined = join_text(&titled, ' ');
    proof {
        assert(Seq::new(titled@.len(), |k: int| titled@[k]@) =~= title_words(
            split_on(collapsed@, ' ', ' '),
        ));
    }
    Some(string_of(&joined))
}

/// The names that a field lists, each cleaned; `None` where a part holds
/// nothing but white space.
pub fn split_guest_names(input: &str) -> (out: Vec<Option<String>>)
    ensures
        out@.len() == split_names_model(input@).len(),
        forall|k: int|
            0 <= k < out@.len() ==> crate::store::text_view(#[trigger] out@[k])
                == split_names_model(input@)[k],
{
    proof {
        reveal_strlit(",");
        assert(","@ =~= seq![',']);
    }
    let replaced = replace_all(AND_JOINT, input, ",");
    let parts = split_text(&chars_of(replaced.as_str()), ',', '&');
    let mut out: Vec<Option<String>> = Vec::new();
    let mut i: usize = 0;
    while i < parts.len()
        invariant
            i <= parts.len(),
            out@.len() == i,
            forall|k: int|
                0 <= k < i ==> crate::store::text_view(#[trigger] out@[k]) == clean_name_model(
                    parts@[k]@,
                ),
        decreases parts.len() - i,
    {
        out.push(clean_name(string_of(&parts[i]).as_str()));
        i += 1;
    }
    out
}

/// The ASCII letters and digits of `token`, the letters in lower case.
pub fn clean_token_chars(token: &Vec<char>) -> (out: Vec<char>)
    ensures
        out@ == clean_token_model(token@),
{
    let mut out: Vec<char> = Vec::new();
    let mut i: usize = 0;
    assert(token@.take(0) =~= Seq::<char>::empty());
    while i < token.len()
        invariant
            i <= token.len(),
            out@ == clean_token_model(token@.take(i as int)),
        decreases token.len() - i,
    {
        assert(token@.take(i + 1).drop_last() =~= token@.take(i as int));
        if ascii_alnum(token[i]) {
            out.push(lower_char(token[i]));
        }
        i += 1;
    }
    assert(token@.take(token.len() as int) =~= token@);
    out
}

/// The ASCII letters and digits of `token`, the letters in lower case.
pub fn clean_token(token: &str) -> (out: String)
    ensures
        out@ == clean_token_model(token@),
{
    string_of(&clean_token_chars(&chars_of(token)))
}

/// `token` with each double quote doubled, as a quoted search term needs it.
pub fn fts_escape(token: &str) -> (out: String)
    ensures
        out@ == fts_escape_model(token@),
{
    let chars = chars_of(token);
    let mut out: Vec<char> = Vec::new();
    let mut i: usize = 0;
    assert(chars@.take(0) =~= Seq::<char>::empty());
    while i < chars.len()
        invariant
            i <= chars.len(),
            out@ == fts_escape_model(chars@.take(i as int)),
        decreases chars.len() - i,
    {
        assert(chars@.take(i + 1).drop_last() =~= chars@.take(i as int));
        if chars[i] == '"' {
            out.push('"');
        }
        out.push(chars[i]);
        i += 1;
    }
    assert(chars@.take(chars.len() as int) =~= chars@);
    string_of(&out)
}

} // verus!
