use slurm_tui::input::ModalKind;
use slurm_tui::keys::{key_command, Command, Key};

#[test]
fn any_key_closes_a_timed_message() {
    assert_eq!(key_command(Some(ModalKind::Submit), true, false, Key::Char('x')), Command::Dismiss);
    assert_eq!(key_command(None, true, false, Key::Enter), Command::Dismiss);
}

#[test]
fn dashboard_keys() {
    assert_eq!(key_command(None, false, false, Key::Char('q')), Command::Quit);
    assert_eq!(key_command(None, false, false, Key::Char('Q')), Command::Quit);
    assert_eq!(key_command(None, false, false, Key::Ctrl('c')), Command::Quit);
    assert_eq!(key_command(None, false, false, Key::Char('c')), Command::ListUserJobs);
    assert_eq!(key_command(None, false, false, Key::Ctrl('C')), Command::ListUserJobs);
    assert_eq!(key_command(None, false, false, Key::Char('S')), Command::OpenSubmit);
    assert_eq!(key_command(None, false, false, Key::Char('d')), Command::OpenChdir);
    assert_eq!(key_command(None, false, false, Key::Char('l')), Command::ListRecentJobs);
    assert_eq!(key_command(None, false, false, Key::Char('x')), Command::Nothing);
    assert_eq!(key_command(None, false, false, Key::Enter), Command::Nothing);
}

#[test]
fn dialog_editing_keys() {
    let d = Some(ModalKind::Submit);
    assert_eq!(key_command(d, false, false, Key::Esc), Command::Dismiss);
    assert_eq!(key_command(d, false, false, Key::Enter), Command::Submit);
    assert_eq!(key_command(d, false, true, Key::Enter), Command::ClearCompletions);
    assert_eq!(key_command(d, false, false, Key::Char('q')), Command::Insert('q'));
    assert_eq!(key_command(d, false, false, Key::Ctrl('w')), Command::KillWord);
    assert_eq!(key_command(d, false, false, Key::Ctrl('a')), Command::Home);
    assert_eq!(key_command(d, false, false, Key::Ctrl('p')), Command::HistoryUp);
    assert_eq!(key_command(d, false, true, Key::Ctrl('p')), Command::Nothing);
    assert_eq!(key_command(d, false, false, Key::Backspace), Command::Backspace);
}

#[test]
fn up_down_by_dialog() {
    assert_eq!(key_command(Some(ModalKind::Chdir), false, false, Key::Up), Command::HistoryUp);
    assert_eq!(key_command(Some(ModalKind::Chdir), false, true, Key::Up), Command::CompletionPrev);
    assert_eq!(key_command(Some(ModalKind::Chdir), false, true, Key::Down), Command::CompletionNext);
    assert_eq!(key_command(Some(ModalKind::Logs), false, false, Key::Down), Command::SelectDown);
    assert_eq!(key_command(Some(ModalKind::Logs), false, false, Key::Enter), Command::Submit);
    assert_eq!(key_command(Some(ModalKind::Logs), false, false, Key::Char('a')), Command::Nothing);
}

#[test]
fn tab_completes_paths_only() {
    assert_eq!(key_command(Some(ModalKind::Submit), false, false, Key::Tab), Command::Complete);
    assert_eq!(key_command(Some(ModalKind::Chdir), false, true, Key::Tab), Command::Complete);
    assert_eq!(key_command(Some(ModalKind::Cancel), false, false, Key::Tab), Command::Nothing);
}
