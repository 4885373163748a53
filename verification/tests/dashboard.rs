use slurm_tui::app::{chdir_target, expand_home, Action, App, MESSAGE_MS};
use slurm_tui::history::InputHistory;
use slurm_tui::input::{BodyStyle, ModalKind, MsgStyle};
use slurm_tui::palette::Palette;

fn app() -> App {
    App::new(true, "login1".to_string(), "/home/u".to_string(), InputHistory::empty("h".to_string()))
}

fn type_into(a: &mut App, s: &str) {
    let m = a.modal.as_mut().unwrap();
    for c in s.chars() {
        m.insert_char(c);
    }
}

fn message(a: &App) -> (String, String, MsgStyle) {
    let m = a.modal.as_ref().unwrap();
    let (t, s) = m.message.clone().unwrap();
    (m.title.clone(), t, s)
}

#[test]
fn new_app_defaults() {
    let a = app();
    assert_eq!(a.palette, Palette::dark());
    assert_eq!(a.cwd, "/home/u");
    assert_eq!(a.login_node, "login1");
    assert_eq!(a.max_jobs, 20);
    assert!(a.modal.is_none());
    assert!(!a.should_quit);
    assert!(!a.has_timed_message());
    let b = App::new(false, String::new(), "/".to_string(), InputHistory::empty("h".to_string()));
    assert_eq!(b.palette, Palette::light());
}

#[test]
fn calc_max_jobs_two_columns_of_seven_rows() {
    let mut a = app();
    a.calc_max_jobs(40);
    assert_eq!(a.max_jobs, 6);
    a.calc_max_jobs(10);
    assert_eq!(a.max_jobs, 2);
    a.calc_max_jobs(18 + 7 * 5 + 6);
    assert_eq!(a.max_jobs, 10);
}

#[test]
fn open_submit_shows_cwd() {
    let mut a = app();
    a.open_submit();
    let m = a.modal.as_ref().unwrap();
    assert_eq!(m.kind, ModalKind::Submit);
    assert_eq!(m.title, " Submit Job ");
    assert_eq!(m.prompt, ":sbatch ");
    assert_eq!(m.body_lines[0], ("cwd: /home/u".to_string(), BodyStyle::Gray));
    assert_eq!(m.body_lines[1], ("Enter sbatch args (Esc to cancel)".to_string(), BodyStyle::Dim));
    assert_eq!(m.hist_index, 0);
}

#[test]
fn submit_flow_records_history_and_reports() {
    let mut a = app();
    a.open_submit();
    type_into(&mut a, "  run.sh  ");
    let act = a.handle_modal_submit();
    assert!(matches!(act, Action::Submit(ref s) if s == "run.sh"));
    assert!(a.modal.is_none());
    assert_eq!(a.history.get(" Submit Job "), &["run.sh".to_string()]);
    a.after_submit(true, "Submitted batch job 5", "", 1000);
    assert_eq!(message(&a), (" Submit Job ".to_string(), "Submitted batch job 5".to_string(), MsgStyle::Green));
    assert_eq!(a.msg_deadline, Some(1000 + MESSAGE_MS));
    a.after_submit(false, "", "bad option", 1000);
    assert_eq!(message(&a).1, "Error: bad option");
    assert_eq!(message(&a).2, MsgStyle::Red);
}

#[test]
fn blank_line_submits_nothing() {
    let mut a = app();
    a.open_submit();
    type_into(&mut a, "   ");
    assert!(matches!(a.handle_modal_submit(), Action::Nothing));
    assert!(a.modal.is_none());
    assert!(a.history.get(" Submit Job ").is_empty());
    assert!(matches!(a.handle_modal_submit(), Action::Nothing));
}

#[test]
fn message_times_out() {
    let mut a = app();
    a.flash_message(" T ", "hi", MsgStyle::Gray, 500);
    assert!(a.has_timed_message());
    assert!(!a.check_message_timeout(500 + MESSAGE_MS - 1));
    assert!(a.modal.is_some());
    assert!(a.check_message_timeout(500 + MESSAGE_MS));
    assert!(a.modal.is_none());
    assert!(!a.has_timed_message());
    assert!(!a.check_message_timeout(u64::MAX));
}

#[test]
fn open_cancel_lists_jobs() {
    let mut a = app();
    a.open_cancel("101|train|RUNNING\n 102|x|PENDING \nbad\n103|y|COMPLETING", 0);
    let m = a.modal.as_ref().unwrap();
    assert_eq!(m.kind, ModalKind::Cancel);
    assert_eq!(m.prompt, ":cancel ");
    assert_eq!(m.body_lines.len(), 4);
    assert_eq!(m.body_lines[0].0, "Enter JobID or 'all' (Esc to cancel)");
    assert_eq!(m.body_lines[1].0, format!("  {:>8}  {:<20} {}", "101", "train", "RUNNING"));
    assert_eq!(m.body_lines[1].1, BodyStyle::Blue);
    assert_eq!(m.body_lines[2].1, BodyStyle::Yellow);
    assert_eq!(m.body_lines[3].0, format!("  {:>8}  {:<20} {}", "103", "y", "COMPLETING"));
    assert_eq!(m.body_lines[3].1, BodyStyle::Fg);
    assert!(!a.has_timed_message());
}

#[test]
fn open_cancel_without_jobs_says_so() {
    let mut a = app();
    a.open_cancel("", 10);
    assert_eq!(message(&a), (" Cancel Job ".to_string(), "No jobs to cancel".to_string(), MsgStyle::Yellow));
    assert_eq!(a.msg_deadline, Some(10 + MESSAGE_MS));
    let mut a = app();
    a.open_cancel("Error: squeue", 10);
    assert_eq!(message(&a).1, "No jobs to cancel");
}

#[test]
fn cancel_one_job() {
    let mut a = app();
    a.open_cancel("101|train|RUNNING", 0);
    type_into(&mut a, "101");
    assert!(matches!(a.handle_modal_submit(), Action::Cancel(ref s) if s == "101"));
    assert_eq!(a.history.get(" Cancel Job "), &["101".to_string()]);
    a.after_cancel(true, "", 7);
    assert_eq!(message(&a).1, "Job(s) cancelled");
    a.after_cancel(false, "denied", 7);
    assert_eq!(message(&a).1, "Error: denied");
}

#[test]
fn cancel_all_asks_first() {
    let mut a = app();
    a.open_cancel("101|train|RUNNING", 0);
    type_into(&mut a, "All");
    assert!(matches!(a.handle_modal_submit(), Action::Nothing));
    assert!(a.history.get(" Cancel Job ").is_empty());
    let m = a.modal.as_ref().unwrap();
    assert_eq!(m.kind, ModalKind::CancelConfirm);
    assert_eq!(m.prompt, ":cancel ALL jobs? [y/N] ");
    assert_eq!(m.body_lines[0], ("This will cancel every job you own.".to_string(), BodyStyle::Red));
    type_into(&mut a, "Y");
    assert!(matches!(a.handle_modal_submit(), Action::CancelAll));
    assert!(a.modal.is_none());
}

#[test]
fn cancel_all_declined() {
    let mut a = app();
    a.open_cancel("101|train|RUNNING", 0);
    type_into(&mut a, "all");
    a.handle_modal_submit();
    type_into(&mut a, "no");
    assert!(matches!(a.handle_modal_submit(), Action::Nothing));
    assert!(a.modal.is_none());
}

#[test]
fn chdir_flow() {
    let mut a = app();
    a.open_chdir();
    assert_eq!(a.modal.as_ref().unwrap().body_lines[0].0, "Current: /home/u");
    type_into(&mut a, "~/data");
    assert!(matches!(a.handle_modal_submit(), Action::ChangeDir(ref s) if s == "~/data"));
    assert_eq!(a.history.get(" Change Directory "), &["~/data".to_string()]);
    a.after_chdir(Some("/home/u/data".to_string()), "/home/u/data", 0);
    assert_eq!(a.cwd, "/home/u/data");
    assert_eq!(message(&a).1, "cwd: /home/u/data");
    a.after_chdir(None, "/nope", 0);
    assert_eq!(a.cwd, "/home/u/data");
    assert_eq!(message(&a), (" Change Directory ".to_string(), "Not a directory: /nope".to_string(), MsgStyle::Red));
}

#[test]
fn chdir_target_joins_and_expands_home() {
    assert_eq!(chdir_target("/home/u", "~/x", Some("/home/u")), "/home/u/x");
    assert_eq!(chdir_target("/a", "b", None), "/a/b");
    assert_eq!(chdir_target("/a/", "b", None), "/a/b");
    assert_eq!(chdir_target("/a", "/c", None), "/c");
    assert_eq!(chdir_target("", "b", None), "b");
    assert_eq!(chdir_target("/a", "~", None), "/a/~");
}

#[test]
fn expand_home_only_leading_tilde() {
    assert_eq!(expand_home("~/x", Some("/h")), "/h/x");
    assert_eq!(expand_home("~", Some("/h")), "/h");
    assert_eq!(expand_home("a~", Some("/h")), "a~");
    assert_eq!(expand_home("~/x", None), "~/x");
}

#[test]
fn history_up_and_down() {
    let mut h = InputHistory::empty("h".to_string());
    h.push(" Submit Job ", "a".to_string());
    h.push(" Submit Job ", "b".to_string());
    let mut a = App::new(true, String::new(), "/".to_string(), h);
    a.open_submit();
    type_into(&mut a, "draft");
    a.history_up();
    let m = a.modal.as_ref().unwrap();
    assert_eq!((m.buf.as_str(), m.hist_index, m.cursor, m.saved_buf.as_str()), ("b", 1, 1, "draft"));
    a.history_up();
    a.history_up();
    assert_eq!((a.modal.as_ref().unwrap().buf.as_str(), a.modal.as_ref().unwrap().hist_index), ("a", 0));
    a.history_down();
    assert_eq!(a.modal.as_ref().unwrap().buf, "b");
    a.history_down();
    let m = a.modal.as_ref().unwrap();
    assert_eq!((m.buf.as_str(), m.hist_index, m.cursor), ("draft", 2, 5));
    a.history_down();
    assert_eq!(a.modal.as_ref().unwrap().buf, "draft");
}

#[test]
fn history_keys_without_dialog_or_history() {
    let mut a = app();
    a.history_up();
    a.history_down();
    assert!(a.modal.is_none());
    a.open_submit();
    type_into(&mut a, "x");
    a.history_up();
    assert_eq!(a.modal.as_ref().unwrap().buf, "x");
}

#[test]
fn dismiss_modal_clears_message() {
    let mut a = app();
    a.flash_message(" T ", "hi", MsgStyle::Green, 0);
    a.dismiss_modal();
    assert!(a.modal.is_none());
    assert!(a.msg_deadline.is_none());
}

#[test]
fn logs_picker_lists_recent_jobs() {
    let mut a = app();
    a.open_logs("201|train|COMPLETED\n200|prep|FAILED", 0);
    let m = a.modal.as_ref().unwrap();
    assert_eq!(m.kind, ModalKind::Logs);
    assert_eq!(m.title, " Logs ");
    assert_eq!(m.selection, 1);
    assert_eq!(m.body_lines.len(), 3);
    assert_eq!(m.body_lines[2].0, format!("  {:>8}  {:<20} {}", "200", "prep", "FAILED"));
    a.modal.as_mut().unwrap().select_down();
    a.modal.as_mut().unwrap().select_down();
    assert_eq!(a.modal.as_ref().unwrap().selection, 2);
    a.modal.as_mut().unwrap().select_up();
    a.modal.as_mut().unwrap().select_up();
    assert_eq!(a.modal.as_ref().unwrap().selection, 1);
    a.modal.as_mut().unwrap().select_down();
    assert!(matches!(a.handle_modal_submit(), Action::ShowLog(ref s) if s == "200"));
    assert!(a.modal.is_none());
    assert!(a.history.get(" Logs ").is_empty());
}

#[test]
fn logs_picker_without_jobs() {
    let mut a = app();
    a.open_logs("", 3);
    assert_eq!(message(&a), (" Logs ".to_string(), "No recent jobs".to_string(), MsgStyle::Yellow));
    a.open_logs("Error: sacct", 3);
    assert_eq!(message(&a).1, "No recent jobs");
}

#[test]
fn log_lookup_outcome() {
    let mut a = app();
    a.open_logs("201|train|COMPLETED", 0);
    assert!(matches!(a.handle_modal_submit(), Action::ShowLog(ref s) if s == "201"));
    a.after_log_lookup(Ok("/logs/201.out".to_string()), 0);
    assert!(a.modal.is_none());
    assert_eq!(a.take_pending_log(), Some("/logs/201.out".to_string()));
    assert_eq!(a.take_pending_log(), None);
    a.after_log_lookup(Err("No StdOut configured for job 201".to_string()), 5);
    assert_eq!(message(&a), (" Logs ".to_string(), "No StdOut configured for job 201".to_string(), MsgStyle::Red));
    assert_eq!(a.pending_less_path, None);
}

#[test]
fn refresh_and_key_wait() {
    let mut a = app();
    assert!(a.refresh_due(1000, 1000));
    assert!(!a.refresh_due(999, 1000));
    assert_eq!(a.key_wait_ms(5000), 1000);
    assert_eq!(a.key_wait_ms(300), 300);
    a.open_submit();
    assert!(!a.refresh_due(5000, 1000));
    a.flash_message(" T ", "hi", MsgStyle::Green, 0);
    assert!(a.refresh_due(5000, 1000));
    assert_eq!(a.key_wait_ms(300), 100);
    assert_eq!(a.key_wait_ms(40), 40);
}

#[test]
fn picker_without_a_job_stays_open() {
    let mut a = app();
    a.modal = Some(slurm_tui::input::Modal::new(ModalKind::Logs, " Logs ", ""));
    assert!(matches!(a.handle_modal_submit(), Action::Nothing));
    assert_eq!(a.modal.as_ref().unwrap().kind, ModalKind::Logs);
}
