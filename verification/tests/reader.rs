use scp_reader::app::{parse_number, App, AppMode, Command, KeyCode, KeyPress};
use scp_reader::scp::{entry_file_name, entry_url, fetch_failure_message, random_scp_number, MAX_SCP};
use scp_reader::ui::{side_percentage, status_line, status_text, title};

fn press(code: KeyCode) -> KeyPress {
    KeyPress { code, control: false }
}

fn ctrl(c: char) -> KeyPress {
    KeyPress { code: KeyCode::Char(c), control: true }
}

fn ch(c: char) -> KeyPress {
    press(KeyCode::Char(c))
}

fn with_lines(n: usize) -> App {
    let mut app = App::new();
    let text: Vec<String> = (0..n).map(|i| format!("line {}", i)).collect();
    app.loaded(1, text.join("\n"));
    app
}

fn is_nothing(c: Command) -> bool {
    matches!(c, Command::Nothing)
}

#[test]
fn starts_in_normal_mode_with_the_welcome_text() {
    let app = App::new();
    assert!(app.running);
    assert!(matches!(app.mode, AppMode::Normal));
    assert_eq!(app.current_scp_number, None);
    assert_eq!(
        app.content,
        "Welcome to SCP Reader.\nPress 'i' or '/' to enter an SCP number.\nPress 'r' for a random SCP.\nPress 'q' to quit."
    );
    assert_eq!(app.scroll, 0);
    assert_eq!(app.input_buffer, "");
    assert_eq!(app.error_msg, None);
    assert_eq!(app.max_scroll(), 3);
}

#[test]
fn q_quits() {
    let mut app = App::new();
    assert!(is_nothing(app.handle_input(ch('q'))));
    assert!(!app.running);
    let mut app = App::new();
    assert!(is_nothing(app.handle_input(ctrl('q'))));
    assert!(!app.running);
}

#[test]
fn slash_and_i_open_the_input() {
    for c in ['i', '/'] {
        let mut app = App::new();
        app.input_buffer = "99".to_string();
        assert!(is_nothing(app.handle_input(ch(c))));
        assert!(matches!(app.mode, AppMode::Input));
        assert_eq!(app.input_buffer, "");
        assert!(app.running);
    }
}

#[test]
fn digits_are_gathered_and_entered() {
    let mut app = App::new();
    app.error_msg = Some("old".to_string());
    app.handle_input(ch('/'));
    for c in ['1', 'x', '7', ' ', '3', '4'] {
        assert!(is_nothing(app.handle_input(ch(c))));
    }
    assert_eq!(app.input_buffer, "1734");
    assert!(is_nothing(app.handle_input(press(KeyCode::Backspace))));
    assert_eq!(app.input_buffer, "173");
    match app.handle_input(press(KeyCode::Enter)) {
        Command::Load(n) => assert_eq!(n, 173),
        _ => panic!("a load was expected"),
    }
    assert!(matches!(app.mode, AppMode::Loading));
    assert_eq!(app.error_msg, None);
    assert!(is_nothing(app.handle_input(ch('q'))));
    assert!(app.running);
    app.scroll = 5;
    app.loaded(173, "text\nof\nthe\narticle".to_string());
    assert!(matches!(app.mode, AppMode::Normal));
    assert_eq!(app.current_scp_number, Some(173));
    assert_eq!(app.content, "text\nof\nthe\narticle");
    assert_eq!(app.scroll, 0);
}

#[test]
fn backspace_on_empty_input_and_escape() {
    let mut app = App::new();
    app.handle_input(ch('i'));
    assert!(is_nothing(app.handle_input(press(KeyCode::Backspace))));
    assert_eq!(app.input_buffer, "");
    app.handle_input(ch('5'));
    assert!(is_nothing(app.handle_input(press(KeyCode::Esc))));
    assert!(matches!(app.mode, AppMode::Normal));
    assert_eq!(app.input_buffer, "5");
    assert_eq!(app.error_msg, None);
}

#[test]
fn empty_or_too_large_input_is_no_number() {
    let mut app = App::new();
    app.handle_input(ch('i'));
    assert!(is_nothing(app.handle_input(press(KeyCode::Enter))));
    assert!(matches!(app.mode, AppMode::Normal));
    assert_eq!(app.error_msg, Some("Invalid number".to_string()));
    app.handle_input(ch('i'));
    for c in "2147483648".chars() {
        app.handle_input(ch(c));
    }
    assert!(is_nothing(app.handle_input(press(KeyCode::Enter))));
    assert_eq!(app.error_msg, Some("Invalid number".to_string()));
    assert!(matches!(app.mode, AppMode::Normal));
}

#[test]
fn r_asks_for_a_random_article_and_keeps_the_error() {
    let mut app = App::new();
    app.error_msg = Some("earlier".to_string());
    assert!(matches!(app.handle_input(ch('r')), Command::LoadRandom));
    assert!(matches!(app.mode, AppMode::Loading));
    assert_eq!(app.error_msg, Some("earlier".to_string()));
    app.load_failed("no network".to_string());
    assert!(matches!(app.mode, AppMode::Normal));
    assert_eq!(app.error_msg, Some("no network".to_string()));
    assert_eq!(app.current_scp_number, None);
}

#[test]
fn scrolling_stays_within_the_text() {
    let mut app = with_lines(25);
    assert_eq!(app.max_scroll(), 24);
    app.handle_input(ch('j'));
    app.handle_input(press(KeyCode::Down));
    assert_eq!(app.scroll, 2);
    app.handle_input(ch('k'));
    assert_eq!(app.scroll, 1);
    app.handle_input(press(KeyCode::Up));
    app.handle_input(press(KeyCode::Up));
    assert_eq!(app.scroll, 0);
    app.handle_input(ctrl('d'));
    assert_eq!(app.scroll, 10);
    app.handle_input(ctrl('d'));
    app.handle_input(ctrl('d'));
    assert_eq!(app.scroll, 24);
    app.handle_input(ctrl('u'));
    assert_eq!(app.scroll, 14);
    app.handle_input(ch('d'));
    app.handle_input(ch('u'));
    assert_eq!(app.scroll, 14);
    app.handle_input(ch('g'));
    assert_eq!(app.scroll, 0);
    app.handle_input(ch('G'));
    assert_eq!(app.scroll, 24);
    app.handle_input(ctrl('u'));
    app.handle_input(ctrl('u'));
    app.handle_input(ctrl('u'));
    assert_eq!(app.scroll, 0);
}

#[test]
fn scroll_functions() {
    let mut app = with_lines(3);
    app.scroll_down(1);
    assert_eq!(app.scroll, 1);
    app.scroll_down(u16::MAX);
    assert_eq!(app.scroll, 2);
    app.scroll_up(1);
    assert_eq!(app.scroll, 1);
    app.scroll_up(u16::MAX);
    assert_eq!(app.scroll, 0);
    let mut empty = App::new();
    empty.loaded(1, String::new());
    assert_eq!(empty.max_scroll(), 0);
    empty.scroll_down(7);
    assert_eq!(empty.scroll, 0);
}

#[test]
fn line_count_is_taken_modulo_65536() {
    assert_eq!(with_lines(65535).max_scroll(), 65534);
    assert_eq!(with_lines(65536).max_scroll(), 0);
    assert_eq!(with_lines(65538).max_scroll(), 1);
}

#[test]
fn other_keys_do_nothing() {
    let mut app = with_lines(5);
    for key in [press(KeyCode::Other), press(KeyCode::Enter), press(KeyCode::Esc), ch('x'), press(KeyCode::Backspace)] {
        assert!(is_nothing(app.handle_input(key)));
    }
    assert!(app.running);
    assert!(matches!(app.mode, AppMode::Normal));
    assert_eq!(app.scroll, 0);
    app.handle_input(ch('i'));
    for key in [press(KeyCode::Other), press(KeyCode::Up), press(KeyCode::Down), ch('q')] {
        assert!(is_nothing(app.handle_input(key)));
    }
    assert!(matches!(app.mode, AppMode::Input));
    assert!(app.running);
}

#[test]
fn numbers_are_read_as_std_reads_them() {
    for s in ["0", "7", "007", "173", "2147483647", "2147483648", "-2147483648", "-2147483649", "+5",
        "-5", "-", "+", "", " 5", "5 ", "1e3", "12a", "--1", "+-1", "99999999999999999999999", "٣",
        "-0", "+0", "0000000000000000000001"]
    {
        assert_eq!(parse_number(s), s.parse::<i32>().ok(), "{:?}", s);
    }
    assert_eq!(parse_number("42"), Some(42));
    assert_eq!(parse_number("-42"), Some(-42));
    assert_eq!(parse_number("4x2"), None);
}

#[test]
fn file_names_and_addresses() {
    assert_eq!(entry_file_name(7), "SCP-007.txt");
    assert_eq!(entry_file_name(173), "SCP-173.txt");
    assert_eq!(entry_file_name(2521), "SCP-2521.txt");
    assert_eq!(entry_url(7), "https://scp-wiki.wikidot.com/scp-007");
    assert_eq!(entry_url(9999), "https://scp-wiki.wikidot.com/scp-9999");
    assert_eq!(
        fetch_failure_message(49, "404 Not Found"),
        "Failed to fetch SCP-049. Status: 404 Not Found"
    );
}

#[test]
fn random_numbers_are_article_numbers() {
    assert_eq!(MAX_SCP, 9999);
    let mut seen = std::collections::HashSet::new();
    for _ in 0..2000 {
        let n = random_scp_number();
        assert!(1 <= n && n <= MAX_SCP);
        seen.insert(n);
    }
    assert!(seen.len() > 1);
}

#[test]
fn screen_texts() {
    assert_eq!(title(None), " SCP Reader ");
    assert_eq!(title(Some(5)), " SCP-005 ");
    assert_eq!(title(Some(3000)), " SCP-3000 ");
    assert_eq!(
        status_text(&AppMode::Normal),
        "Normal Mode | [q] Quit | [r] Random | [/] Search | [j/k] Scroll"
    );
    assert_eq!(status_text(&AppMode::Input), "Input Mode | [Esc] Cancel | [Enter] Confirm");
    assert_eq!(status_text(&AppMode::Loading), "Loading...");
    assert_eq!(status_line(&AppMode::Loading, &None), "Loading...");
    assert_eq!(
        status_line(&AppMode::Input, &Some("Invalid number".to_string())),
        "Input Mode | [Esc] Cancel | [Enter] Confirm | Error: Invalid number"
    );
}

#[test]
fn popup_margins() {
    assert_eq!(side_percentage(60), 20);
    assert_eq!(side_percentage(20), 40);
    assert_eq!(side_percentage(100), 0);
    assert_eq!(side_percentage(0), 50);
    assert_eq!(side_percentage(31), 34);
}
