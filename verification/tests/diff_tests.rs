use viddy::diff::{count_diff, diff_and_mark, diff_and_mark_delete};
use viddy::style::{AnsiColor, Color, Style};
use viddy::termtext::Text;

#[test]
fn test_diff_and_mark() {
    let current = "hello world!";
    let pervious = "hello world";
    let mut text = Text::new(current);
    let style = Style::new()
        .fg_color(Some(Color::Ansi(AnsiColor::Black)))
        .bg_color(Some(Color::Ansi(AnsiColor::Green)));

    diff_and_mark(current, pervious, &mut text);

    assert_eq!(text.chars[10].style, Style::new());
    assert_eq!(text.chars[11].style, style);
}

#[test]
fn test_diff_and_mark_new_line() {
    let pervious = "hello world";
    let current = "hello world\nnew world";
    let mut text = Text::new(current);
    let style = Style::new()
        .fg_color(Some(Color::Ansi(AnsiColor::Black)))
        .bg_color(Some(Color::Ansi(AnsiColor::Green)));

    diff_and_mark(current, pervious, &mut text);

    assert_eq!(text.chars[11].style, Style::new());
    for i in 12..=14 {
        assert_eq!(text.chars[i].style, style);
    }
    assert_eq!(text.chars[15].style, Style::new());
    for i in 16..=20 {
        assert_eq!(text.chars[i].style, style);
    }
}

#[test]
fn test_count_diff() {
    let current = "hello world!";
    let old = "hello world";

    let result = count_diff(old, current);

    assert_eq!(result, (1, 0))
}

#[test]
fn test_count_delete_diff() {
    let current = "hello world";
    let old = "hello oorld!";

    let result = count_diff(old, current);

    assert_eq!(result, (1, 2))
}

#[test]
fn identical_strings_mark_nothing_and_count_zero() {
    let s = "same text\nacross lines";
    assert_eq!(count_diff(s, s), (0, 0));

    let mut text = Text::new(s);
    let before = text.clone();
    diff_and_mark(s, s, &mut text);
    assert_eq!(text, before);

    let mut text = Text::new(s);
    diff_and_mark_delete(s, s, &mut text);
    assert_eq!(text, before);
}

#[test]
fn inserted_whitespace_is_counted_but_not_marked() {
    let previous = "a";
    let current = "a b";
    assert_eq!(count_diff(previous, current), (2, 0));

    let mut text = Text::new(current);
    diff_and_mark(current, previous, &mut text);
    let highlight = Style::new()
        .fg_color(Some(Color::Ansi(AnsiColor::Black)))
        .bg_color(Some(Color::Ansi(AnsiColor::Green)));
    assert_eq!(text.chars[0].style, Style::new());
    assert_eq!(text.chars[1].style, Style::new());
    assert_eq!(text.chars[2].style, highlight);
}

#[test]
fn delete_mode_marks_in_previous_coordinates() {
    let previous = "abc";
    let current = "ac";
    let mut text = Text::new(previous);
    diff_and_mark_delete(current, previous, &mut text);
    let highlight = Style::new()
        .fg_color(Some(Color::Ansi(AnsiColor::Black)))
        .bg_color(Some(Color::Ansi(AnsiColor::Red)));
    assert_eq!(text.chars[0].style, Style::new());
    assert_eq!(text.chars[1].style, highlight);
    assert_eq!(text.chars[2].style, Style::new());
}
