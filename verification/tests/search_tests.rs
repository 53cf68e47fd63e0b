use viddy::search::search_and_mark;
use viddy::style::{AnsiColor, Color, Style};
use viddy::termtext::Text;

#[test]
fn test_search_and_mark() {
    let mut text = Text::new("hello world");
    let style = Style::new()
        .fg_color(Some(Color::Ansi(AnsiColor::Black)))
        .bg_color(Some(Color::Ansi(AnsiColor::Yellow)));
    search_and_mark("hello world", &mut text, "hello", style);
    assert_eq!(text.render(), "\u{1b}[30m\u{1b}[43mhello\u{1b}[0m world");
}

#[test]
fn search_multibyte_marks_character_offsets() {
    let hay = "こhelloこhello";
    let mut text = Text::new(hay);
    let style = Style::new().bg_color(Some(Color::Ansi(AnsiColor::Yellow)));
    search_and_mark(hay, &mut text, "hello", style);
    let marked: Vec<usize> = text
        .chars
        .iter()
        .enumerate()
        .filter(|(_, c)| c.style == style)
        .map(|(i, _)| i)
        .collect();
    assert_eq!(marked, vec![1, 2, 3, 4, 5, 7, 8, 9, 10, 11]);
}

#[test]
fn empty_query_marks_nothing() {
    let mut text = Text::new("anything");
    let before = text.clone();
    let style = Style::new().bg_color(Some(Color::Ansi(AnsiColor::Yellow)));
    search_and_mark("anything", &mut text, "", style);
    assert_eq!(text, before);
}

#[test]
fn occurrences_do_not_overlap() {
    let hay = "aaa";
    let mut text = Text::new(hay);
    let style = Style::new().bg_color(Some(Color::Ansi(AnsiColor::Yellow)));
    search_and_mark(hay, &mut text, "aa", style);
    assert_eq!(text.chars[0].style, style);
    assert_eq!(text.chars[1].style, style);
    assert_eq!(text.chars[2].style, Style::new());
}
