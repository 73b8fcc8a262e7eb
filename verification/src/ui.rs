//! The texts of the screen: the title of the content pane and the status bar.
use vstd::prelude::*;
use crate::app::AppMode;
use crate::text::{three_digit_text, three_digits};

verus! {

/// The title of the content pane: the article shown, or the name of the reader.
pub open spec fn pane_title(current: Option<int>) -> Seq<char> {
    match current {
        Some(n) => " SCP-"@ + three_digits(n) + " "@,
        None => " SCP Reader "@,
    }
}

/// The help text of a mode.
pub open spec fn mode_help(mode: AppMode) -> Seq<char> {
    match mode {
        AppMode::Normal => "Normal Mode | [q] Quit | [r] Random | [/] Search | [j/k] Scroll"@,
        AppMode::Input => "Input Mode | [Esc] Cancel | [Enter] Confirm"@,
        AppMode::Loading => "Loading..."@,
    }
}

/// The status bar: the help text of the mode, and the error if there is one.
pub open spec fn status_bar(mode: AppMode, error: Option<Seq<char>>) -> Seq<char> {
    match error {
        Some(e) => mode_help(mode) + " | Error: "@ + e,
        None => mode_help(mode),
    }
}

/// The share of the screen, in percent, on either side of a popup that takes `percent` of it.
pub open spec fn margin_percent(percent: int) -> int {
    (100 - percent) / 2
}

/// The number held in `current`, as an integer.
pub open spec fn number_view(current: Option<i32>) -> Option<int> {
    match current {
        Some(n) => Some(n as int),
        None => None,
    }
}

/// The text held in `message`.
pub open spec fn message_view(message: Option<String>) -> Option<Seq<char>> {
    match message {
        Some(m) => Some(m@),
        None => None,
    }
}

/// The share of the screen, in percent, on either side of a popup that takes `percent` of
/// it. A popup takes no more than the whole screen.
pub fn side_percentage(percent: u16) -> (out: u16)
    requires
        percent <= 100,
    ensures
        out == margin_percent(percent as int),
{
    (100 - percent) / 2
}

/// The title of the content pane.
pub fn title(current: Option<i32>) -> (out: String)
    ensures
        out@ == pane_title(number_view(current)),
{
    match current {
        Some(n) => {
            let mut out = " SCP-".to_owned();
            out.append(three_digit_text(n).as_str());
            out.append(" ");
            out
        },
        None => " SCP Reader ".to_owned(),
    }
}

/// The help text of a mode.
pub fn status_text(mode: &AppMode) -> (out: &'static str)
    ensures
        out@ == mode_help(*mode),
{
    match mode {
        AppMode::Normal => "Normal Mode | [q] Quit | [r] Random | [/] Search | [j/k] Scroll",
        AppMode::Input => "Input Mode | [Esc] Cancel | [Enter] Confirm",
        AppMode::Loading => "Loading...",
    }
}

/// The text of the status bar.
pub fn status_line(mode: &AppMode, error_msg: &Option<String>) -> (out: String)
    ensures
        out@ == status_bar(*mode, message_view(*error_msg)),
{
    let mut out = status_text(mode).to_owned();
    match error_msg {
        Some(e) => {
            out.append(" | Error: ");
            out.append(e.as_str());
        },
        None => {},
    }
    out
}

} // verus!
