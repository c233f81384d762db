use figlet_rs::FIGfont;
use gjwidgets::fonts::{
    banner_lines, figlet_text_ok, font_file_for, font_from_file_text, render_figlet_text, text_lines,
};
use gjwidgets::weather::{weather_command, weather_text};

#[test]
fn font_file_names() {
    assert_eq!(font_file_for(""), None);
    assert_eq!(font_file_for("big").unwrap(), "./fonts/big.flf");
}

#[test]
fn text_lines_like_str_lines() {
    assert_eq!(text_lines("a\r\nb\n\nc\n"), vec!["a", "b", "", "c"]);
    assert!(text_lines("").is_empty());
    assert_eq!(text_lines("x"), vec!["x"]);
    assert_eq!(text_lines("a\r\nb\r"), vec!["a", "b\r"]);
}

#[test]
fn banner_or_plain_text() {
    assert_eq!(banner_lines(None, "12:00"), vec!["12:00"]);
    assert_eq!(banner_lines(Some(" _ \n|_|\n"), "12:00"), vec![" _ ", "|_|"]);
}

#[test]
fn figlet_draws_a_banner() {
    let font = FIGfont::standard().unwrap();
    let banner = render_figlet_text(&font, "A").unwrap();
    assert_ne!(banner, "A");
    let lines = banner_lines(Some(&banner), "A");
    assert!(lines.len() > 1);
    let fallback = render_figlet_text(&font, "").unwrap();
    assert_eq!(Some(fallback), render_figlet_text(&font, "ERR"));
}

#[test]
fn weather_command_line() {
    assert_eq!(
        weather_command("Paris"),
        "curl -s wttr.in/Paris?format=%c+%t+%w+%m+%p"
    );
}

#[test]
fn weather_text_outcomes() {
    assert_eq!(weather_text(true, "  ☀️ +20°C\n", "", "/x"), "☀️ +20°C");
    assert_eq!(
        weather_text(false, "", "boom", "/home"),
        "Weather script error: boom\nscript path: /home"
    );
}

fn tiny_font(height: usize, comments: usize, rows: usize, row: &str) -> String {
    let mut text = format!("flf2a$ {} {} 10 0 {}\n", height, height, comments);
    for i in 0..comments {
        text.push_str(&format!("comment {}\n", i));
    }
    for _ in 0..rows {
        text.push_str(row);
        text.push('\n');
    }
    text
}

#[test]
fn font_texts_that_would_break_the_parser_are_refused() {
    assert!(!figlet_text_ok("flf2a$ 0 0 0 0 0\nx"));
    assert!(!figlet_text_ok("flf2a$ 1 1 10 0 -1\nab@"));
    assert!(!figlet_text_ok("flf2a$ -1 1 10 0 0\nab@"));
    assert!(!figlet_text_ok(&tiny_font(1, 0, 102, "")));
    assert!(!figlet_text_ok(&tiny_font(1, 0, 102, "é@")));
    assert!(!figlet_text_ok(&tiny_font(1, 0, 50, "ab@")));
    assert!(figlet_text_ok(&tiny_font(1, 2, 102, "ab@")));
    assert!(font_from_file_text(Some("flf2a$ 0 0 0 0 0\nx")).is_none());
    assert!(font_from_file_text(None).is_none());
}

#[test]
fn a_well_formed_font_text_loads() {
    let text = tiny_font(1, 1, 102, "#@");
    let font = font_from_file_text(Some(&text)).unwrap();
    let banner = render_figlet_text(&font, "AB").unwrap();
    assert_eq!(banner, "##\n");
}
