use mad_rust_util::tokenizer::{closes_every_tag, tokenize, Button, Key, StateToken, Token};

fn seq(t: &Token) -> Option<&str> {
    match t {
        Token::Sequence(s) => Some(s.as_str()),
        _ => None,
    }
}

fn uni(t: &Token) -> Option<&str> {
    match t {
        Token::Unicode(s) => Some(s.as_str()),
        _ => None,
    }
}

fn run(s: &str) -> StateToken {
    tokenize(s.to_string())
}

#[test]
fn plain_text_is_one_sequence() {
    let st = run("hello");
    assert_eq!(st.down.len(), 1);
    assert_eq!(seq(&st.down[0]), Some("hello"));
    assert!(st.repeat.is_empty());
    assert!(st.up.is_empty());
}

#[test]
fn empty_input_gives_nothing() {
    let st = run("");
    assert!(st.down.is_empty() && st.repeat.is_empty() && st.up.is_empty());
}

#[test]
fn doubled_braces_are_literal() {
    let st = run("a{{b}}c");
    assert_eq!(st.down.len(), 1);
    assert_eq!(seq(&st.down[0]), Some("a{b}c"));
}

#[test]
fn key_tags_press_and_release() {
    let st = run("{+SHIFT}a{-SHIFT}");
    assert_eq!(st.down.len(), 3);
    assert!(matches!(st.down[0], Token::KeyDown(Key::Shift)));
    assert_eq!(seq(&st.down[1]), Some("a"));
    assert!(matches!(st.down[2], Token::KeyUp(Key::Shift)));
}

#[test]
fn every_key_tag() {
    let st = run("{+CTRL}{-CTRL}{+META}{-META}{+ALT}{-ALT}");
    assert!(matches!(st.down[0], Token::KeyDown(Key::Control)));
    assert!(matches!(st.down[1], Token::KeyUp(Key::Control)));
    assert!(matches!(st.down[2], Token::KeyDown(Key::Command)));
    assert!(matches!(st.down[3], Token::KeyUp(Key::Command)));
    assert!(matches!(st.down[4], Token::KeyDown(Key::Alt)));
    assert!(matches!(st.down[5], Token::KeyUp(Key::Alt)));
    assert_eq!(st.down.len(), 6);
}

#[test]
fn mouse_tags() {
    let st = run("{+LEFT}{-LEFT}{LEFT}{+MIDDLE}{-MIDDLE}{MIDDLE}{+RIGHT}{-RIGHT}{RIGHT}");
    assert!(matches!(st.down[0], Token::MouseDown(Button::Left)));
    assert!(matches!(st.down[1], Token::MouseUp(Button::Left)));
    assert!(matches!(st.down[2], Token::Click(Button::Left)));
    assert!(matches!(st.down[3], Token::MouseDown(Button::Middle)));
    assert!(matches!(st.down[4], Token::MouseUp(Button::Middle)));
    assert!(matches!(st.down[5], Token::Click(Button::Middle)));
    assert!(matches!(st.down[6], Token::MouseDown(Button::Right)));
    assert!(matches!(st.down[7], Token::MouseUp(Button::Right)));
    assert!(matches!(st.down[8], Token::Click(Button::Right)));
    assert_eq!(st.down.len(), 9);
}

#[test]
fn scroll_tags() {
    let st = run("{SCROLL_UP}{SCROLL_DOWN}{SCROLL_LEFT}{SCROLL_RIGHT}");
    assert!(matches!(st.down[0], Token::Click(Button::ScrollUp)));
    assert!(matches!(st.down[1], Token::Click(Button::ScrollDown)));
    assert!(matches!(st.down[2], Token::Click(Button::ScrollLeft)));
    assert!(matches!(st.down[3], Token::Click(Button::ScrollRight)));
    assert_eq!(st.down.len(), 4);
}

#[test]
fn repeat_and_wait_up_split_phases() {
    let st = run("a{REPEAT}b{WAIT_UP}c");
    assert_eq!(st.down.len(), 1);
    assert_eq!(seq(&st.down[0]), Some("a"));
    assert_eq!(st.repeat.len(), 1);
    assert_eq!(seq(&st.repeat[0]), Some("b"));
    assert_eq!(st.up.len(), 1);
    assert_eq!(seq(&st.up[0]), Some("c"));
}

#[test]
fn wait_up_without_repeat() {
    let st = run("a{WAIT_UP}b");
    assert_eq!(seq(&st.down[0]), Some("a"));
    assert!(st.repeat.is_empty());
    assert_eq!(seq(&st.up[0]), Some("b"));
}

#[test]
fn repeat_without_wait_up() {
    let st = run("{+SHIFT}{REPEAT}x");
    assert!(matches!(st.down[0], Token::KeyDown(Key::Shift)));
    assert_eq!(seq(&st.repeat[0]), Some("x"));
    assert!(st.up.is_empty());
}

#[test]
fn unicode_mode() {
    let st = run("{+UNICODE}\u{e9}t\u{e9}{-UNICODE}x");
    assert_eq!(st.down.len(), 2);
    assert_eq!(uni(&st.down[0]), Some("\u{e9}t\u{e9}"));
    assert_eq!(seq(&st.down[1]), Some("x"));
}

#[test]
fn lone_closing_brace_drops_next_character() {
    let st = run("a}bc");
    assert_eq!(seq(&st.down[0]), Some("ac"));
}

#[test]
fn lone_brace_at_the_end_is_dropped() {
    assert_eq!(seq(&run("ab{").down[0]), Some("ab"));
    assert_eq!(seq(&run("ab}").down[0]), Some("ab"));
}

#[test]
fn unknown_tag_splits_text_and_does_nothing() {
    let st = run("a{FOO}b");
    assert_eq!(st.down.len(), 2);
    assert_eq!(seq(&st.down[0]), Some("a"));
    assert_eq!(seq(&st.down[1]), Some("b"));
}

#[test]
fn single_brace_inside_tag_repeats_character() {
    // "{L{EFT}" reads the tag "LLEFT", which is unknown.
    let st = run("{L{EFT}x");
    assert_eq!(st.down.len(), 1);
    assert_eq!(seq(&st.down[0]), Some("x"));
}

#[test]
fn doubled_braces_inside_tag() {
    // "{+SH}}IFT}" reads the tag "+SH}IFT", which is unknown.
    let st = run("{+SH}}IFT}y");
    assert_eq!(st.down.len(), 1);
    assert_eq!(seq(&st.down[0]), Some("y"));
}

#[test]
fn second_repeat_replaces_down() {
    let st = run("a{REPEAT}b{REPEAT}c");
    assert_eq!(st.down.len(), 1);
    assert_eq!(seq(&st.down[0]), Some("b"));
    assert_eq!(seq(&st.repeat[0]), Some("c"));
}

#[test]
fn flush_turns_buffer_into_a_token() {
    let mut tokens = Vec::new();
    let mut buffer = String::from("ab");
    mad_rust_util::tokenizer::flush(&mut tokens, &mut buffer, false);
    assert!(buffer.is_empty());
    assert_eq!(tokens.len(), 1);
    assert_eq!(seq(&tokens[0]), Some("ab"));
    let mut buffer = String::from("c");
    mad_rust_util::tokenizer::flush(&mut tokens, &mut buffer, true);
    assert_eq!(uni(&tokens[1]), Some("c"));
    mad_rust_util::tokenizer::flush(&mut tokens, &mut buffer, true);
    assert_eq!(tokens.len(), 2);
}

#[test]
fn characters_are_collected_in_order() {
    let s = String::from("a\u{e9}{");
    assert_eq!(mad_rust_util::tokenizer::collect_chars(&s), vec!['a', '\u{e9}', '{']);
}

#[test]
fn inputs_that_close_their_tags() {
    assert!(closes_every_tag(&String::from("")));
    assert!(closes_every_tag(&String::from("plain text")));
    assert!(closes_every_tag(&String::from("{+SHIFT}a{-SHIFT}")));
    assert!(closes_every_tag(&String::from("{{ and }}")));
    assert!(closes_every_tag(&String::from("a{")));
    assert!(closes_every_tag(&String::from("}x")));
    assert!(closes_every_tag(&String::from("{A}}B}")));
}

#[test]
fn inputs_with_an_open_tag() {
    assert!(!closes_every_tag(&String::from("{SHIFT")));
    assert!(!closes_every_tag(&String::from("ok {LEFT}{RIGHT")));
    assert!(!closes_every_tag(&String::from("{A}}")));
    assert!(!closes_every_tag(&String::from("{x{")));
}
