//! The state of the reader and what each key does to it.
use vstd::prelude::*;
use crate::text::{chars_of, digit, digit_text, line_count, split_lines};
use crate::ui::{message_view, number_view};

verus! {

/// What the reader is doing.
#[derive(Clone, Copy, Debug)]
pub enum AppMode {
    /// Showing an article and taking commands.
    Normal,
    /// Taking the digits of an article number.
    Input,
    /// Waiting for an article.
    Loading,
}

/// A key, as far as the reader tells keys apart.
#[derive(Clone, Copy, Debug)]
pub enum KeyCode {
    Char(char),
    Up,
    Down,
    Enter,
    Esc,
    Backspace,
    Other,
}

/// A key press: the key, and whether Control was held.
#[derive(Clone, Copy, Debug)]
pub struct KeyPress {
    pub code: KeyCode,
    pub control: bool,
}

/// What the caller has to do after a key press.
#[derive(Clone, Copy, Debug)]
pub enum Command {
    /// Nothing.
    Nothing,
    /// Fetch the article with this number, then report it with `loaded` or `load_failed`.
    Load(i32),
    /// Fetch an article drawn at random, then report it with `loaded` or `load_failed`.
    LoadRandom,
}

/// The state of the reader.
#[derive(Debug)]
pub struct App {
    pub running: bool,
    pub mode: AppMode,
    pub current_scp_number: Option<i32>,
    pub content: String,
    pub scroll: u16,
    pub input_buffer: String,
    pub error_msg: Option<String>,
}

/// Mathematical model of `App`.
pub struct AppView {
    pub running: bool,
    pub mode: AppMode,
    pub current: Option<int>,
    pub content: Seq<char>,
    pub scroll: int,
    pub input: Seq<char>,
    pub error: Option<Seq<char>>,
}

impl View for App {
    type V = AppView;

    open spec fn view(&self) -> AppView {
        AppView {
            running: self.running,
            mode: self.mode,
            current: number_view(self.current_scp_number),
            content: self.content@,
            scroll: self.scroll as int,
            input: self.input_buffer@,
            error: message_view(self.error_msg),
        }
    }
}

/// The text shown before any article is loaded.
pub open spec fn welcome_text() -> Seq<char> {
    "Welcome to SCP Reader.\nPress 'i' or '/' to enter an SCP number.\nPress 'r' for a random SCP.\nPress 'q' to quit."@
}

/// The state in which the reader starts.
pub open spec fn initial() -> AppView {
    AppView {
        running: true,
        mode: AppMode::Normal,
        current: None,
        content: welcome_text(),
        scroll: 0,
        input: Seq::empty(),
        error: None,
    }
}

/// Whether `c` is a decimal digit.
pub open spec fn is_digit(c: char) -> bool {
    '0' <= c <= '9'
}

/// Whether every character of `s` is a decimal digit.
pub open spec fn all_digits(s: Seq<char>) -> bool {
    forall|i: int| 0 <= i < s.len() ==> is_digit(#[trigger] s[i])
}

/// The number that the digits `s` stand for.
pub open spec fn digits_value(s: Seq<char>) -> int
    decreases s.len(),
{
    if s.len() == 0 {
        0
    } else {
        digits_value(s.drop_last()) * 10 + (s.last() as int - '0' as int)
    }
}

/// The digits of a number text, without its sign.
pub open spec fn unsigned_part(s: Seq<char>) -> Seq<char> {
    if s.len() > 0 && (s[0] == '-' || s[0] == '+') {
        s.drop_first()
    } else {
        s
    }
}

/// The number that `s` stands for: an optional sign and at least one decimal digit, with a
/// value that a 32-bit signed integer holds. Anything else stands for no number.
pub open spec fn number_of(s: Seq<char>) -> Option<int> {
    let digits = unsigned_part(s);
    let magnitude = digits_value(digits);
    let value = if s.len() > 0 && s[0] == '-' {
        -magnitude
    } else {
        magnitude
    };
    if digits.len() > 0 && all_digits(digits) && i32::MIN <= value <= i32::MAX {
        Some(value)
    } else {
        None
    }
}

/// The scroll position at which the last line of `content` is the first one shown. The
/// number of lines is taken modulo 65536.
pub open spec fn last_scroll(content: Seq<char>) -> int {
    let count = split_lines(content).len() % 0x10000;
    if count == 0 {
        0
    } else {
        count - 1
    }
}

/// `scroll` moved down by `amount`, not past 65535 and not past the last line.
pub open spec fn scrolled_down(scroll: int, amount: int, content: Seq<char>) -> int {
    let moved = if scroll + amount > 0xffff {
        0xffff
    } else {
        scroll + amount
    };
    if moved > last_scroll(content) {
        last_scroll(content)
    } else {
        moved
    }
}

/// `scroll` moved up by `amount`, not past the first line.
pub open spec fn scrolled_up(scroll: int, amount: int) -> int {
    if scroll < amount {
        0
    } else {
        scroll - amount
    }
}

/// `s` without its last character, if it has one.
pub open spec fn without_last(s: Seq<char>) -> Seq<char> {
    if s.len() > 0 {
        s.drop_last()
    } else {
        s
    }
}

/// The state after a key press in normal mode.
pub open spec fn after_normal_key(app: AppView, key: KeyPress) -> AppView {
    match key.code {
        KeyCode::Char(c) => if c == 'q' {
            AppView { running: false, ..app }
        } else if c == 'i' || c == '/' {
            AppView { mode: AppMode::Input, input: Seq::empty(), ..app }
        } else if c == 'r' {
            AppView { mode: AppMode::Loading, ..app }
        } else if c == 'j' {
            AppView { scroll: scrolled_down(app.scroll, 1, app.content), ..app }
        } else if c == 'k' {
            AppView { scroll: scrolled_up(app.scroll, 1), ..app }
        } else if c == 'd' && key.control {
            AppView { scroll: scrolled_down(app.scroll, 10, app.content), ..app }
        } else if c == 'u' && key.control {
            AppView { scroll: scrolled_up(app.scroll, 10), ..app }
        } else if c == 'g' {
            AppView { scroll: 0, ..app }
        } else if c == 'G' {
            AppView { scroll: last_scroll(app.content), ..app }
        } else {
            app
        },
        KeyCode::Down => AppView { scroll: scrolled_down(app.scroll, 1, app.content), ..app },
        KeyCode::Up => AppView { scroll: scrolled_up(app.scroll, 1), ..app },
        _ => app,
    }
}

/// The state after a key press in input mode.
pub open spec fn after_input_key(app: AppView, key: KeyPress) -> AppView {
    match key.code {
        KeyCode::Esc => AppView { mode: AppMode::Normal, ..app },
        KeyCode::Enter => match number_of(app.input) {
            Some(_) => AppView { mode: AppMode::Loading, error: None, ..app },
            None => AppView { mode: AppMode::Normal, error: Some("Invalid number"@), ..app },
        },
        KeyCode::Char(c) => if is_digit(c) {
            AppView { input: app.input.push(c), ..app }
        } else {
            app
        },
        KeyCode::Backspace => AppView { input: without_last(app.input), ..app },
        _ => app,
    }
}

/// The state after a key press.
pub open spec fn after_key(app: AppView, key: KeyPress) -> AppView {
    match app.mode {
        AppMode::Normal => after_normal_key(app, key),
        AppMode::Input => after_input_key(app, key),
        AppMode::Loading => app,
    }
}

/// What the caller has to do after a key press in the state `app`.
pub open spec fn command_for(app: AppView, key: KeyPress) -> Command {
    match app.mode {
        AppMode::Normal => match key.code {
            KeyCode::Char(c) => if c == 'r' {
                Command::LoadRandom
            } else {
                Command::Nothing
            },
            _ => Command::Nothing,
        },
        AppMode::Input => match key.code {
            KeyCode::Enter => match number_of(app.input) {
                Some(n) => Command::Load(n as i32),
                None => Command::Nothing,
            },
            _ => Command::Nothing,
        },
        AppMode::Loading => Command::Nothing,
    }
}

/// The state after the article `number` has arrived with the text `text`.
pub open spec fn after_loaded(app: AppView, number: int, text: Seq<char>) -> AppView {
    AppView { mode: AppMode::Normal, current: Some(number), content: text, scroll: 0, ..app }
}

/// The state after an article could not be had.
pub open spec fn after_load_failed(app: AppView, message: Seq<char>) -> AppView {
    AppView { mode: AppMode::Normal, error: Some(message), ..app }
}

/// Digits stand for a number that is not negative.
proof fn lemma_digits_value_bounds(s: Seq<char>)
    requires
        all_digits(s),
    ensures
        digits_value(s) >= 0,
    decreases s.len(),
{
    if s.len() > 0 {
        assert(is_digit(s[s.len() - 1]));
        assert forall|i: int| 0 <= i < s.drop_last().len() implies is_digit(
            #[trigger] s.drop_last()[i],
        ) by {
            assert(s.drop_last()[i] == s[i]);
        }
        lemma_digits_value_bounds(s.drop_last());
    }
}

/// Reads a 32-bit signed number: an optional sign and decimal digits.
pub fn parse_number(s: &str) -> (out: Option<i32>)
    ensures
        match out {
            Some(n) => number_of(s@) == Some(n as int),
            None => number_of(s@) is None,
        },
{
    let v = chars_of(s);
    let n: usize = v.len();
    let negative = n > 0 && v[0] == '-';
    let start: usize = if n > 0 && (v[0] == '-' || v[0] == '+') {
        1
    } else {
        0
    };
    if start == n {
        return None;
    }
    let ghost digits = unsigned_part(v@);
    assert(digits =~= v@.skip(start as int));
    let cap: i64 = 0x8000_0001;
    let mut acc: i64 = 0;
    let mut i: usize = start;
    assert(digits.take(0) =~= Seq::<char>::empty());
    while i < n
        invariant
            start <= i <= n,
            n == v.len(),
            v@ == s@,
            cap == 0x8000_0001,
            digits == v@.skip(start as int),
            digits == unsigned_part(s@),
            all_digits(digits.take(i - start)),
            0 <= acc <= cap,
            acc == if digits_value(digits.take(i - start)) > cap {
                cap as int
            } else {
                digits_value(digits.take(i - start))
            },
        decreases n - i,
    {
        let c = v[i];
        let ghost prefix = digits.take(i - start);
        let ghost next = digits.take(i + 1 - start);
        proof {
            assert(digits[i - start] == c);
            assert(next.drop_last() =~= prefix);
            assert(next.last() == c);
            lemma_digits_value_bounds(prefix);
        }
        if !('0' <= c && c <= '9') {
            assert(!is_digit(digits[i - start]));
            return None;
        }
        let d: i64 = (c as u32 - '0' as u32) as i64;
        acc = acc * 10 + d;
        if acc > cap {
            acc = cap;
        }
        proof {
            assert forall|k: int| 0 <= k < next.len() implies is_digit(#[trigger] next[k]) by {
                if k < prefix.len() {
                    assert(next[k] == prefix[k]);
                }
            }
        }
        i += 1;
    }
    assert(digits.take(n - start) =~= digits);
    if negative {
        if acc > 0x8000_0000 {
            None
        } else {
            Some((-acc) as i32)
        }
    } else {
        if acc > 0x7fff_ffff {
            None
        } else {
            Some(acc as i32)
        }
    }
}

impl App {
    /// The reader in the state in which it starts.
    pub fn new() -> (app: App)
        ensures
            app@ == initial(),
    {
        App {
            running: true,
            mode: AppMode::Normal,
            current_scp_number: None,
            content: "Welcome to SCP Reader.\nPress 'i' or '/' to enter an SCP number.\nPress 'r' for a random SCP.\nPress 'q' to quit.".to_owned(),
            scroll: 0,
            input_buffer: String::new(),
            error_msg: None,
        }
    }

    /// The scroll position at which the last line of the content is the first one shown.
    pub fn max_scroll(&self) -> (out: u16)
        ensures
            out == last_scroll(self@.content),
    {
        let count: u16 = (line_count(self.content.as_str()) % 0x10000) as u16;
        if count == 0 {
            0
        } else {
            count - 1
        }
    }

    /// Moves the view down by `amount` lines, not past the last line.
    pub fn scroll_down(&mut self, amount: u16)
        ensures
            final(self)@ == (AppView {
                scroll: scrolled_down(old(self)@.scroll, amount as int, old(self)@.content),
                ..old(self)@
            }),
    {
        let max_scroll = self.max_scroll();
        let moved: u16 = if self.scroll > 0xffff - amount {
            0xffff
        } else {
            self.scroll + amount
        };
        self.scroll = if moved > max_scroll {
            max_scroll
        } else {
            moved
        };
    }

    /// Moves the view up by `amount` lines, not past the first line.
    pub fn scroll_up(&mut self, amount: u16)
        ensures
            final(self)@ == (AppView {
                scroll: scrolled_up(old(self)@.scroll, amount as int),
                ..old(self)@
            }),
    {
        self.scroll = if self.scroll < amount {
            0
        } else {
            self.scroll - amount
        };
    }

    /// Takes a key press: changes the state and says what the caller has to do.
    pub fn handle_input(&mut self, key: KeyPress) -> (command: Command)
        ensures
            final(self)@ == after_key(old(self)@, key),
            command == command_for(old(self)@, key),
    {
        match self.mode {
            AppMode::Normal => self.handle_normal_key(key),
            AppMode::Input => self.handle_input_key(key),
            AppMode::Loading => Command::Nothing,
        }
    }

    /// Takes a key press in normal mode.
    fn handle_normal_key(&mut self, key: KeyPress) -> (command: Command)
        requires
            old(self).mode is Normal,
        ensures
            final(self)@ == after_normal_key(old(self)@, key),
            command == command_for(old(self)@, key),
    {
        match key.code {
            KeyCode::Char(c) => {
                if c == 'q' {
                    self.running = false;
                } else if c == 'i' || c == '/' {
                    self.mode = AppMode::Input;
                    self.input_buffer = String::new();
                } else if c == 'r' {
                    self.mode = AppMode::Loading;
                    return Command::LoadRandom;
                } else if c == 'j' {
                    self.scroll_down(1);
                } else if c == 'k' {
                    self.scroll_up(1);
                } else if c == 'd' && key.control {
                    self.scroll_down(10);
                } else if c == 'u' && key.control {
                    self.scroll_up(10);
                } else if c == 'g' {
                    self.scroll = 0;
                } else if c == 'G' {
                    self.scroll = self.max_scroll();
                }
            },
            KeyCode::Down => {
                self.scroll_down(1);
            },
            KeyCode::Up => {
                self.scroll_up(1);
            },
            _ => {},
        }
        Command::Nothing
    }

    /// Takes a key press in input mode.
    fn handle_input_key(&mut self, key: KeyPress) -> (command: Command)
        requires
            old(self).mode is Input,
        ensures
            final(self)@ == after_input_key(old(self)@, key),
            command == command_for(old(self)@, key),
    {
        match key.code {
            KeyCode::Esc => {
                self.mode = AppMode::Normal;
            },
            KeyCode::Enter => {
                match parse_number(self.input_buffer.as_str()) {
                    Some(number) => {
                        self.mode = AppMode::Loading;
                        self.error_msg = None;
                        return Command::Load(number);
                    },
                    None => {
                        self.error_msg = Some("Invalid number".to_owned());
                        self.mode = AppMode::Normal;
                    },
                }
            },
            KeyCode::Char(c) => {
                if '0' <= c && c <= '9' {
                    let d: u8 = (c as u32 - '0' as u32) as u8;
                    assert(digit(d as nat) == c);
                    let ghost before = self.input_buffer@;
                    self.input_buffer.append(digit_text(d));
                    assert(self.input_buffer@ =~= before.push(c));
                }
            },
            KeyCode::Backspace => {
                let len: usize = self.input_buffer.as_str().unicode_len();
                if len > 0 {
                    let shorter = self.input_buffer.as_str().substring_char(0, len - 1).to_owned();
                    assert(shorter@ =~= without_last(self.input_buffer@));
                    self.input_buffer = shorter;
                }
            },
            _ => {},
        }
        Command::Nothing
    }

    /// Takes in the article `number` that the caller fetched.
    pub fn loaded(&mut self, number: i32, text: String)
        ensures
            final(self)@ == after_loaded(old(self)@, number as int, text@),
    {
        self.content = text;
        self.current_scp_number = Some(number);
        self.scroll = 0;
        self.mode = AppMode::Normal;
    }

    /// Takes in the reason why the caller could not fetch an article.
    pub fn load_failed(&mut self, message: String)
        ensures
            final(self)@ == after_load_failed(old(self)@, message@),
    {
        self.error_msg = Some(message);
        self.mode = AppMode::Normal;
    }
}

} // verus!
