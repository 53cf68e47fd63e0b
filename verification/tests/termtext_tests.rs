use viddy::style::{AnsiColor, Color, Style};
use viddy::termtext::{fold_text, remove_ansi, text_height, text_width, Char, Converter, Text};

#[test]
fn test_text() {
    let text = Text::new("Hello, world!");
    assert_eq!(text.render(), "Hello, world!");
}

#[test]
fn test_text_accessed_by_index() {
    let text = Text::new("Hello, world!");
    assert_eq!(text.chars[3].c, 'l');
}

#[test]
fn test_convert() {
    // "\e[31mr\e[32mg\e[0m"
    // 00000000: 1b5b 3331 6d72 1b5b 3332 6d67 1b5b 306d  .[31mr.[32mg.[0m
    // 00000010: 0a
    let text: Vec<u8> = vec![
        0x1b, 0x5b, 0x33, 0x31, 0x6d, 0x72, 0x1b, 0x5b, 0x33, 0x32, 0x6d, 0x67, 0x1b, 0x5b,
        0x30, 0x6d, 0x0a,
    ];
    let mut converter = Converter::new(Style::new());
    let result = converter.convert(&text);

    assert_eq!(
        result,
        Text {
            chars: vec![
                Char {
                    c: 'r',
                    style: Style::new().fg_color(Some(Color::Ansi(AnsiColor::Red)))
                },
                Char {
                    c: 'g',
                    style: Style::new().fg_color(Some(Color::Ansi(AnsiColor::Green)))
                },
                Char {
                    c: '\n',
                    style: Style::new()
                },
            ]
        }
    );
}

#[test]
fn test_convert_tab() {
    // echo "1\t2" | xxd
    // 00000000: 3109 320a                                1.2.
    let text: Vec<u8> = vec![0x31, 0x09, 0x32, 0x0a];
    let mut converter = Converter::new(Style::new());
    let result = converter.convert(&text);

    assert_eq!(
        result,
        Text {
            chars: vec![
                Char {
                    c: '1',
                    style: Style::new(),
                },
                Char {
                    c: '\t',
                    style: Style::new(),
                },
                Char {
                    c: '2',
                    style: Style::new(),
                },
                Char {
                    c: '\n',
                    style: Style::new()
                },
            ]
        }
    );
}

#[test]
fn test_fold_text() {
    let text = Text::new("hello world");
    let result = fold_text(&text, 5);
    assert_eq!(result.render(), "hello\n worl\nd");
}

#[test]
fn test_fold_text_long() {
    let str = r#"use std::{collections::HashMap, time::Duration};
use chrono::{DateTime, Local};
use color_eyre::eyre::Result;
    "#;
    let text = Text::new(str);

    let result = fold_text(&text, 97);

    assert_eq!(result.render(), str)
}

#[test]
fn test_fold_text_wide_chars() {
    let text = Text::new("あいうえおかきくけこさしすせそたちつてとなにぬねの");

    let result = fold_text(&text, 10);

    assert_eq!(
        result.render(),
        "あいうえお\nかきくけこ\nさしすせそ\nたちつてと\nなにぬねの"
    )
}

#[test]
fn test_fold_text_wide_chars_2() {
    let text = Text::new("iあいうえおかきくけこさしすせそたちつてとなにぬねの");

    let result = fold_text(&text, 10);

    assert_eq!(
        result.render(),
        "iあいうえ\nおかきくけ\nこさしすせ\nそたちつて\nとなにぬね\nの"
    )
}

#[test]
fn test_remove_ansi() {
    let text = "\u{1b}[31mredtextredtext\u{1b}[0m";
    let result = remove_ansi(text);
    assert_eq!(result, "redtextredtext");
}

#[test]
fn decode_without_escapes_keeps_baseline_style() {
    let baseline = Style::new().fg_color(Some(Color::Ansi(AnsiColor::Blue)));
    let mut converter = Converter::new(baseline);
    let result = converter.convert(&b"ab\ncd".to_vec());
    assert_eq!(result.chars.len(), 5);
    for ch in &result.chars {
        assert_eq!(ch.style, baseline);
    }
    assert_eq!(result.plain_text(), "ab\ncd");
}

#[test]
fn sgr_reset_returns_to_baseline() {
    let baseline = Style::new().fg_color(Some(Color::Ansi(AnsiColor::Blue)));
    let mut converter = Converter::new(baseline);
    let result = converter.convert(&b"\x1b[31ma\x1b[0mb".to_vec());
    assert_eq!(
        result.chars[0].style,
        baseline.fg_color(Some(Color::Ansi(AnsiColor::Red)))
    );
    assert_eq!(result.chars[1].style, baseline);
}

#[test]
fn sgr_extended_colors_and_effects() {
    let mut converter = Converter::new(Style::new());
    let result = converter.convert(&b"\x1b[1;38;5;196ma\x1b[0m\x1b[48;2;1;2;3mb".to_vec());
    assert_eq!(
        result.chars[0].style,
        Style::new().bold().fg_color(Some(Color::Ansi256(196)))
    );
    assert_eq!(
        result.chars[1].style,
        Style::new().bg_color(Some(Color::Rgb(1, 2, 3)))
    );
}

#[test]
fn sgr_unknown_parameters_are_ignored() {
    let mut converter = Converter::new(Style::new());
    let result = converter.convert(&b"\x1b[99ma".to_vec());
    assert_eq!(result.chars[0].style, Style::new());
}

#[test]
fn non_sgr_sequences_emit_nothing() {
    let mut converter = Converter::new(Style::new());
    let result = converter.convert(&b"\x1b[2Ja\x1b]0;title\x07b".to_vec());
    assert_eq!(result.plain_text(), "ab");
    assert_eq!(result.chars[0].style, Style::new());
}

#[test]
fn truncated_escape_does_not_desynchronize() {
    let mut converter = Converter::new(Style::new());
    let result = converter.convert(&b"a\x1b[3".to_vec());
    assert_eq!(result.plain_text(), "a");
    let mut converter = Converter::new(Style::new());
    let result = converter.convert(&b"\x1bxhello".to_vec());
    assert_eq!(result.plain_text(), "hello");
}

#[test]
fn widths_and_lines() {
    let text = Text::new("あb\ncdef");
    assert_eq!(text_width(&text), 4);
    assert_eq!(text_height(&text), 2);
    let lines = text.lines();
    assert_eq!(lines.len(), 2);
    assert_eq!(lines[0].plain_text(), "あb");
    assert_eq!(lines[1].plain_text(), "cdef");
    let trailing = Text::new("x\n");
    assert_eq!(text_height(&trailing), 2);
    assert_eq!(trailing.lines()[1].plain_text(), "");
}

#[test]
fn mark_text_overwrites_styles_in_range() {
    let mut text = Text::new("abcd");
    let style = Style::new().bg_color(Some(Color::Ansi(AnsiColor::Yellow)));
    text.mark_text(1, 3, style);
    assert_eq!(text.chars[0].style, Style::new());
    assert_eq!(text.chars[1].style, style);
    assert_eq!(text.chars[2].style, style);
    assert_eq!(text.chars[3].style, Style::new());
    // Out-of-range indices are ignored.
    text.mark_text(3, 10, style);
    assert_eq!(text.chars[3].style, style);
}

#[test]
fn render_emits_extended_colors_and_effect_order() {
    let mut text = Text::new("x");
    text.mark_text(0, 1, Style::new().bold().fg_color(Some(Color::Ansi256(196))));
    assert_eq!(text.render(), "\u{1b}[1m\u{1b}[38;5;196mx");

    let mut text = Text::new("y");
    text.mark_text(0, 1, Style::new().bg_color(Some(Color::Rgb(0, 128, 255))));
    assert_eq!(text.render(), "\u{1b}[48;2;0;128;255my");
}

#[test]
fn sgr_reset_inside_a_list_applies_at_its_position() {
    // Directives apply cumulatively left to right: a zero resets to the
    // baseline at its position and later directives still take effect.
    let baseline = Style::new().bg_color(Some(Color::Ansi(AnsiColor::Blue)));
    let mut converter = Converter::new(baseline);
    let result = converter.convert(&b"\x1b[0;31ma\x1b[31;0mb\x1b[31;0;1mc".to_vec());
    assert_eq!(
        result.chars[0].style,
        baseline.fg_color(Some(Color::Ansi(AnsiColor::Red)))
    );
    assert_eq!(result.chars[1].style, baseline);
    assert_eq!(result.chars[2].style, baseline.bold());
}
