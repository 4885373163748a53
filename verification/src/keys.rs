//! What each key does: a key press and the dashboard's state decide the command to
//! carry out.
use vstd::prelude::*;
use crate::input::ModalKind;

verus! {

/// A key press, as far as the dashboard tells keys apart.
#[derive(Clone, Copy, PartialEq, Eq, Structural, Debug)]
pub enum Key {
    /// A character typed without Control.
    Char(char),
    /// A character typed with Control held.
    Ctrl(char),
    Enter,
    Esc,
    Backspace,
    Delete,
    Left,
    Right,
    Home,
    End,
    Up,
    Down,
    Tab,
    Other,
}

/// What a key press asks for.
#[derive(Clone, Copy, PartialEq, Eq, Structural, Debug)]
pub enum Command {
    Nothing,
    Quit,
    /// Close the dialog or message.
    Dismiss,
    OpenSubmit,
    /// List the user's jobs, then open the cancel dialog with them.
    ListUserJobs,
    OpenChdir,
    /// List the user's recent jobs, then open the log picker with them.
    ListRecentJobs,
    /// Take the dialog's line (or chosen job) and carry out what it asks.
    Submit,
    ClearCompletions,
    Backspace,
    Delete,
    Left,
    Right,
    Home,
    End,
    KillToEnd,
    KillToStart,
    KillWord,
    HistoryUp,
    HistoryDown,
    CompletionPrev,
    CompletionNext,
    SelectUp,
    SelectDown,
    /// Complete the word at the cursor: list the matching paths when no completion
    /// is shown, else show the next one.
    Complete,
    Insert(char),
}

/// The command for `key` on the dashboard itself (no dialog open).
pub open spec fn dashboard_command(key: Key) -> Command {
    match key {
        Key::Char(c) | Key::Ctrl(c) => if key == Key::Ctrl('c') {
            Command::Quit
        } else if c == 'q' || c == 'Q' {
            Command::Quit
        } else if c == 's' || c == 'S' {
            Command::OpenSubmit
        } else if c == 'c' || c == 'C' {
            Command::ListUserJobs
        } else if c == 'd' || c == 'D' {
            Command::OpenChdir
        } else if c == 'l' || c == 'L' {
            Command::ListRecentJobs
        } else {
            Command::Nothing
        },
        _ => Command::Nothing,
    }
}

/// The command for a Control key in a dialog: the line editor's shortcuts.
pub open spec fn ctrl_command(c: char, completing: bool) -> Command {
    if c == 'a' {
        Command::Home
    } else if c == 'e' {
        Command::End
    } else if c == 'b' {
        Command::Left
    } else if c == 'f' {
        Command::Right
    } else if c == 'd' {
        Command::Delete
    } else if c == 'k' {
        Command::KillToEnd
    } else if c == 'u' {
        Command::KillToStart
    } else if c == 'w' {
        Command::KillWord
    } else if c == 'p' && !completing {
        Command::HistoryUp
    } else if c == 'n' && !completing {
        Command::HistoryDown
    } else {
        Command::Nothing
    }
}

/// The command for `key` in a dialog of `kind`; `completing` says whether
/// completions are shown. Up and Down choose in the log picker, step through the
/// completions when there are some, and go through the history otherwise.
pub open spec fn dialog_command(kind: ModalKind, completing: bool, key: Key) -> Command {
    let picking = kind == ModalKind::Logs;
    match key {
        Key::Esc => Command::Dismiss,
        Key::Enter => if completing && !picking {
            Command::ClearCompletions
        } else {
            Command::Submit
        },
        Key::Backspace => Command::Backspace,
        Key::Delete => Command::Delete,
        Key::Left => Command::Left,
        Key::Right => Command::Right,
        Key::Home => Command::Home,
        Key::End => Command::End,
        Key::Up => if picking {
            Command::SelectUp
        } else if completing {
            Command::CompletionPrev
        } else {
            Command::HistoryUp
        },
        Key::Down => if picking {
            Command::SelectDown
        } else if completing {
            Command::CompletionNext
        } else {
            Command::HistoryDown
        },
        Key::Tab => if kind == ModalKind::Submit || kind == ModalKind::Chdir {
            Command::Complete
        } else {
            Command::Nothing
        },
        Key::Ctrl(c) => ctrl_command(c, completing),
        Key::Char(c) => if picking {
            Command::Nothing
        } else {
            Command::Insert(c)
        },
        Key::Other => Command::Nothing,
    }
}

/// The command for `key`: any key closes a timed message; otherwise the open
/// dialog, or the dashboard, decides.
pub open spec fn key_command_spec(
    dialog: Option<ModalKind>,
    timed: bool,
    completing: bool,
    key: Key,
) -> Command {
    if timed {
        Command::Dismiss
    } else {
        match dialog {
            Some(kind) => dialog_command(kind, completing, key),
            None => dashboard_command(key),
        }
    }
}

fn dashboard_command_exec(key: Key) -> (r: Command)
    ensures
        r == dashboard_command(key),
{
    let c = match key {
        Key::Char(c) => c,
        Key::Ctrl(c) => c,
        _ => {
            return Command::Nothing;
        },
    };
    if key == Key::Ctrl('c') {
        Command::Quit
    } else if c == 'q' || c == 'Q' {
        Command::Quit
    } else if c == 's' || c == 'S' {
        Command::OpenSubmit
    } else if c == 'c' || c == 'C' {
        Command::ListUserJobs
    } else if c == 'd' || c == 'D' {
        Command::OpenChdir
    } else if c == 'l' || c == 'L' {
        Command::ListRecentJobs
    } else {
        Command::Nothing
    }
}

fn ctrl_command_exec(c: char, completing: bool) -> (r: Command)
    ensures
        r == ctrl_command(c, completing),
{
    if c == 'a' {
        Command::Home
    } else if c == 'e' {
        Command::End
    } else if c == 'b' {
        Command::Left
    } else if c == 'f' {
        Command::Right
    } else if c == 'd' {
        Command::Delete
    } else if c == 'k' {
        Command::KillToEnd
    } else if c == 'u' {
        Command::KillToStart
    } else if c == 'w' {
        Command::KillWord
    } else if c == 'p' && !completing {
        Command::HistoryUp
    } else if c == 'n' && !completing {
        Command::HistoryDown
    } else {
        Command::Nothing
    }
}

/// The command for a key press (see `key_command_spec`).
pub fn key_command(dialog: Option<ModalKind>, timed: bool, completing: bool, key: Key) -> (r:
    Command)
    ensures
        r == key_command_spec(dialog, timed, completing, key),
{
    if timed {
        return Command::Dismiss;
    }
    let kind = match dialog {
        Some(k) => k,
        None => {
            return dashboard_command_exec(key);
        },
    };
    let picking = kind == ModalKind::Logs;
    match key {
        Key::Esc => Command::Dismiss,
        Key::Enter => if completing && !picking {
            Command::ClearCompletions
        } else {
            Command::Submit
        },
        Key::Backspace => Command::Backspace,
        Key::Delete => Command::Delete,
        Key::Left => Command::Left,
        Key::Right => Command::Right,
        Key::Home => Command::Home,
        Key::End => Command::End,
        Key::Up => if picking {
            Command::SelectUp
        } else if completing {
            Command::CompletionPrev
        } else {
            Command::HistoryUp
        },
        Key::Down => if picking {
            Command::SelectDown
        } else if completing {
            Command::CompletionNext
        } else {
            Command::HistoryDown
        },
        Key::Tab => if kind == ModalKind::Submit || kind == ModalKind::Chdir {
            Command::Complete
        } else {
            Command::Nothing
        },
        Key::Ctrl(c) => ctrl_command_exec(c, completing),
        Key::Char(c) => if picking {
            Command::Nothing
        } else {
            Command::Insert(c)
        },
        Key::Other => Command::Nothing,
    }
}

/// Whatever is open, Escape closes it, and with nothing open `q` quits.
pub proof fn law_escape_closes_and_q_quits(dialog: Option<ModalKind>, timed: bool, completing: bool)
    ensures
        dialog is Some || timed ==> key_command_spec(dialog, timed, completing, Key::Esc)
            == Command::Dismiss,
        !timed ==> key_command_spec(None, timed, completing, Key::Char('q')) == Command::Quit,
{
}

/// The line editor's Control keys in an open dialog: Ctrl-A to the start, Ctrl-E to
/// the end, Ctrl-B and Ctrl-F one character back and forth, Ctrl-D deletes the
/// character at the cursor, Ctrl-K deletes to the end of the line, Ctrl-U deletes to
/// its start, Ctrl-W deletes the word before the cursor, and Ctrl-P and Ctrl-N go
/// through the history unless completions are on show.
pub proof fn law_dialog_control_keys(kind: ModalKind, completing: bool)
    ensures
        key_command_spec(Some(kind), false, completing, Key::Ctrl('a')) == Command::Home,
        key_command_spec(Some(kind), false, completing, Key::Ctrl('e')) == Command::End,
        key_command_spec(Some(kind), false, completing, Key::Ctrl('b')) == Command::Left,
        key_command_spec(Some(kind), false, completing, Key::Ctrl('f')) == Command::Right,
        key_command_spec(Some(kind), false, completing, Key::Ctrl('d')) == Command::Delete,
        key_command_spec(Some(kind), false, completing, Key::Ctrl('k')) == Command::KillToEnd,
        key_command_spec(Some(kind), false, completing, Key::Ctrl('u')) == Command::KillToStart,
        key_command_spec(Some(kind), false, completing, Key::Ctrl('w')) == Command::KillWord,
        key_command_spec(Some(kind), false, completing, Key::Ctrl('p')) == (if completing {
            Command::Nothing
        } else {
            Command::HistoryUp
        }),
        key_command_spec(Some(kind), false, completing, Key::Ctrl('n')) == (if completing {
            Command::Nothing
        } else {
            Command::HistoryDown
        }),
{
}

/// The other keys of an open dialog: Backspace, Delete, Left, Right, Home and End edit
/// the line; Up and Down choose in the log picker, else step through the completions
/// on show, else through the history; Enter takes the line (or the chosen job), or
/// first drops the completions on show; a plain character is typed into the line,
/// except in the log picker.
pub proof fn law_dialog_keys(kind: ModalKind, completing: bool, c: char)
    ensures
        key_command_spec(Some(kind), false, completing, Key::Backspace) == Command::Backspace,
        key_command_spec(Some(kind), false, completing, Key::Delete) == Command::Delete,
        key_command_spec(Some(kind), false, completing, Key::Left) == Command::Left,
        key_command_spec(Some(kind), false, completing, Key::Right) == Command::Right,
        key_command_spec(Some(kind), false, completing, Key::Home) == Command::Home,
        key_command_spec(Some(kind), false, completing, Key::End) == Command::End,
        key_command_spec(Some(kind), false, completing, Key::Esc) == Command::Dismiss,
        key_command_spec(Some(kind), false, completing, Key::Up) == (if kind == ModalKind::Logs {
            Command::SelectUp
        } else if completing {
            Command::CompletionPrev
        } else {
            Command::HistoryUp
        }),
        key_command_spec(Some(kind), false, completing, Key::Down) == (if kind == ModalKind::Logs {
            Command::SelectDown
        } else if completing {
            Command::CompletionNext
        } else {
            Command::HistoryDown
        }),
        key_command_spec(Some(kind), false, completing, Key::Enter) == (if completing && kind
            != ModalKind::Logs {
            Command::ClearCompletions
        } else {
            Command::Submit
        }),
        key_command_spec(Some(kind), false, completing, Key::Char(c)) == (if kind == ModalKind::Logs {
            Command::Nothing
        } else {
            Command::Insert(c)
        }),
        key_command_spec(Some(kind), false, completing, Key::Tab) == (if kind == ModalKind::Submit
            || kind == ModalKind::Chdir {
            Command::Complete
        } else {
            Command::Nothing
        }),
{
}

/// The dashboard's keys, in either case: `q` quits (so does Ctrl-C), `s` submits,
/// `c` cancels, `d` changes the directory and `l` opens the logs.
pub proof fn law_dashboard_keys(completing: bool)
    ensures
        key_command_spec(None, false, completing, Key::Char('q')) == Command::Quit,
        key_command_spec(None, false, completing, Key::Char('Q')) == Command::Quit,
        key_command_spec(None, false, completing, Key::Ctrl('c')) == Command::Quit,
        key_command_spec(None, false, completing, Key::Char('s')) == Command::OpenSubmit,
        key_command_spec(None, false, completing, Key::Char('S')) == Command::OpenSubmit,
        key_command_spec(None, false, completing, Key::Char('c')) == Command::ListUserJobs,
        key_command_spec(None, false, completing, Key::Char('C')) == Command::ListUserJobs,
        key_command_spec(None, false, completing, Key::Char('d')) == Command::OpenChdir,
        key_command_spec(None, false, completing, Key::Char('D')) == Command::OpenChdir,
        key_command_spec(None, false, completing, Key::Char('l')) == Command::ListRecentJobs,
        key_command_spec(None, false, completing, Key::Char('L')) == Command::ListRecentJobs,
        key_command_spec(None, false, completing, Key::Enter) == Command::Nothing,
{
}

/// Any key closes a timed message, whatever is open.
pub proof fn law_any_key_closes_message(dialog: Option<ModalKind>, completing: bool, key: Key)
    ensures
        key_command_spec(dialog, true, completing, key) == Command::Dismiss,
{
}

} // verus!
