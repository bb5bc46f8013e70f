use saba_core::attribute::Attribute;
use saba_core::token::{HtmlToken, HtmlTokenizer, State};

fn tokens_of(t: &mut HtmlTokenizer, limit: usize) -> Vec<HtmlToken> {
    let mut out = Vec::new();
    while let Some(tok) = t.next() {
        out.push(tok);
        assert!(out.len() <= limit, "too many tokens");
    }
    out
}

fn tokenize(html: &str) -> Vec<HtmlToken> {
    let mut t = HtmlTokenizer::new(html.to_string());
    tokens_of(&mut t, 4 * html.len() + 8)
}

fn attr(name: &str, value: &str) -> Attribute {
    Attribute { name: name.to_string(), value: value.to_string() }
}

fn start(tag: &str, self_closing: bool, attributes: Vec<Attribute>) -> HtmlToken {
    HtmlToken::StartTag { tag: tag.to_string(), self_closing, attributes }
}

fn end(tag: &str) -> HtmlToken {
    HtmlToken::EndTag { tag: tag.to_string() }
}

#[test]
fn start_and_end_tag() {
    assert_eq!(tokenize("<html></html>"), vec![start("html", false, vec![]), end("html")]);
}

#[test]
fn names_are_lower_cased_values_kept() {
    assert_eq!(tokenize("<A Href=\"x\">"), vec![start("a", false, vec![attr("href", "x")])]);
    assert_eq!(tokenize("<a B='XyZ'>"), vec![start("a", false, vec![attr("b", "XyZ")])]);
}

#[test]
fn unquoted_value_keeps_trailing_slash() {
    // The unquoted-value state appends `/` like any other character.
    assert_eq!(
        tokenize("<img src=/logo.png/>"),
        vec![start("img", false, vec![attr("src", "/logo.png/")])]
    );
}

#[test]
fn self_closing_after_quoted_value() {
    assert_eq!(
        tokenize("<img src=\"/logo.png\"/>"),
        vec![start("img", true, vec![attr("src", "/logo.png")])]
    );
    assert_eq!(tokenize("<br/>"), vec![start("br", true, vec![])]);
}

#[test]
fn text_around_tags() {
    assert_eq!(
        tokenize("hi<b>X</b>"),
        vec![
            HtmlToken::Char('h'),
            HtmlToken::Char('i'),
            start("b", false, vec![]),
            HtmlToken::Char('X'),
            end("b"),
        ]
    );
}

#[test]
fn attribute_forms() {
    assert_eq!(
        tokenize("<p a b=c d='e f'>"),
        vec![start("p", false, vec![attr("a", ""), attr("b", "c"), attr("d", "e f")])]
    );
}

#[test]
fn script_data_end_tag() {
    let mut t = HtmlTokenizer::new("alert(1)</script>".to_string());
    t.set_state(State::ScriptData);
    let mut expected: Vec<HtmlToken> = "alert(1)".chars().map(HtmlToken::Char).collect();
    expected.push(end("script"));
    assert_eq!(tokens_of(&mut t, 64), expected);
}

#[test]
fn script_data_replays_failed_end_tag() {
    let mut t = HtmlTokenizer::new("a</b cdef".to_string());
    t.set_state(State::ScriptData);
    let expected: Vec<HtmlToken> = "a</b cdef".chars().map(HtmlToken::Char).collect();
    assert_eq!(tokens_of(&mut t, 64), expected);
}

#[test]
fn script_data_less_than_without_slash() {
    let mut t = HtmlTokenizer::new("1<2x".to_string());
    t.set_state(State::ScriptData);
    let expected: Vec<HtmlToken> = "1<2x".chars().map(HtmlToken::Char).collect();
    assert_eq!(tokens_of(&mut t, 64), expected);
}

#[test]
fn pull_at_end_of_input_stops_even_with_a_latched_character() {
    let mut t = HtmlTokenizer::new("1<2".to_string());
    t.set_state(State::ScriptData);
    assert_eq!(tokens_of(&mut t, 64), vec![HtmlToken::Char('1'), HtmlToken::Char('<')]);
}

#[test]
fn eof_inside_tag() {
    assert_eq!(tokenize("<a"), vec![HtmlToken::Eof]);
    assert_eq!(tokenize("<"), vec![HtmlToken::Eof]);
    assert_eq!(tokenize("<a href='x"), vec![HtmlToken::Eof]);
}

#[test]
fn empty_input_gives_nothing() {
    assert_eq!(tokenize(""), vec![]);
}

#[test]
fn end_tag_attributes_are_dropped() {
    assert_eq!(tokenize("</a b=c>"), vec![end("a")]);
}

#[test]
fn end_tag_open_swallows_non_letters() {
    assert_eq!(tokenize("</1a>"), vec![end("a")]);
}

#[test]
fn less_than_before_non_letter() {
    assert_eq!(tokenize("<1"), vec![HtmlToken::Char('1')]);
}

#[test]
fn duplicate_attributes_are_kept() {
    assert_eq!(
        tokenize("<x A=1 a=2>"),
        vec![start("x", false, vec![attr("a", "1"), attr("a", "2")])]
    );
}

#[test]
fn state_setter_and_getter() {
    let mut t = HtmlTokenizer::new("x".to_string());
    assert_eq!(t.state(), State::Data);
    t.set_state(State::ScriptData);
    assert_eq!(t.state(), State::ScriptData);
}

fn is_upper_ascii(c: char) -> bool {
    c.is_ascii_uppercase()
}

#[test]
fn random_printable_ascii_terminates_with_folded_nonempty_names() {
    let mut seed: u64 = 0x2545_f491_4f6c_dd1d;
    for round in 0..300 {
        let len = (round % 40) + 1;
        let mut s = String::new();
        for _ in 0..len {
            seed ^= seed << 13;
            seed ^= seed >> 7;
            seed ^= seed << 17;
            let pick = seed % 10;
            let c = match pick {
                0 => '<',
                1 => '>',
                2 => '/',
                3 => ' ',
                4 => '=',
                _ => (b' ' + (seed % 95) as u8) as char,
            };
            s.push(c);
        }
        let mut t = HtmlTokenizer::new(s.clone());
        if round % 3 == 0 {
            t.set_state(State::ScriptData);
        }
        for tok in tokens_of(&mut t, 8 * s.len() + 16) {
            match tok {
                HtmlToken::StartTag { tag, attributes, .. } => {
                    assert!(!tag.is_empty());
                    assert!(!tag.chars().any(is_upper_ascii));
                    for a in attributes {
                        assert!(!a.name.chars().any(is_upper_ascii));
                    }
                }
                HtmlToken::EndTag { tag } => {
                    assert!(!tag.is_empty());
                    assert!(!tag.chars().any(is_upper_ascii));
                }
                _ => {}
            }
        }
    }
}

#[test]
fn attribute_accumulator() {
    let mut a = Attribute::new();
    a.add_char('k', true);
    a.add_char('V', false);
    a.add_char('w', false);
    assert_eq!(a.name(), "k");
    assert_eq!(a.value(), "Vw");
}
