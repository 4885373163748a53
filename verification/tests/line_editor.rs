use slurm_tui::input::{handle_tab, BodyStyle, Modal, ModalKind, MsgStyle};

fn typed(s: &str) -> Modal {
    let mut m = Modal::new(ModalKind::Submit, " Submit Job ", ":sbatch ");
    for c in s.chars() {
        m.insert_char(c);
    }
    m
}

#[test]
fn new_modal_is_empty() {
    let m = Modal::new(ModalKind::Chdir, " Change Directory ", ":cd ");
    assert_eq!(m.kind, ModalKind::Chdir);
    assert_eq!(m.title, " Change Directory ");
    assert_eq!(m.prompt, ":cd ");
    assert_eq!(m.buf, "");
    assert_eq!(m.cursor, 0);
    assert!(m.body_lines.is_empty());
    assert!(m.message.is_none());
    assert!(m.completions.is_empty());
    assert_eq!(m.comp_index, -1);
    assert_eq!(m.hist_index, 0);
}

#[test]
fn with_body_and_set_message() {
    let m = Modal::new(ModalKind::Submit, "t", "p").with_body(vec![("hello".to_string(), BodyStyle::Dim)]);
    assert_eq!(m.body_lines.len(), 1);
    assert_eq!(m.body_lines[0].0, "hello");
    assert_eq!(m.body_lines[0].1, BodyStyle::Dim);
    let mut m = m;
    m.set_message("done".to_string(), MsgStyle::Green);
    assert_eq!(m.message, Some(("done".to_string(), MsgStyle::Green)));
}

#[test]
fn insert_moves_cursor_by_bytes() {
    let mut m = typed("ab");
    assert_eq!((m.buf.as_str(), m.cursor), ("ab", 2));
    m.move_left();
    m.insert_char('é');
    assert_eq!((m.buf.as_str(), m.cursor), ("aéb", 3));
}

#[test]
fn insert_then_backspace_restores_line() {
    let mut m = typed("abc");
    m.move_left();
    m.insert_char('Ω');
    m.backspace();
    assert_eq!((m.buf.as_str(), m.cursor), ("abc", 2));
}

#[test]
fn backspace_and_delete_at_edges() {
    let mut m = typed("xy");
    m.delete_char();
    assert_eq!(m.buf, "xy");
    m.home();
    m.backspace();
    assert_eq!((m.buf.as_str(), m.cursor), ("xy", 0));
    m.delete_char();
    assert_eq!((m.buf.as_str(), m.cursor), ("y", 0));
}

#[test]
fn left_then_delete_equals_backspace() {
    let mut a = typed("héllo");
    let mut b = typed("héllo");
    for _ in 0..3 {
        a.move_left();
        b.move_left();
    }
    a.move_left();
    a.delete_char();
    b.backspace();
    assert_eq!((a.buf.as_str(), a.cursor), (b.buf.as_str(), b.cursor));
    assert_eq!(a.buf, "hllo");
}

#[test]
fn moves_stop_at_ends() {
    let mut m = typed("añ");
    m.move_right();
    assert_eq!(m.cursor, 3);
    m.move_left();
    assert_eq!(m.cursor, 1);
    m.move_right();
    assert_eq!(m.cursor, 3);
    m.home();
    m.move_left();
    assert_eq!(m.cursor, 0);
    m.end();
    assert_eq!(m.cursor, 3);
}

#[test]
fn kill_to_end_and_start() {
    let mut m = typed("hello world");
    for _ in 0..5 {
        m.move_left();
    }
    m.kill_to_end();
    assert_eq!((m.buf.as_str(), m.cursor), ("hello ", 6));
    m.move_left();
    m.kill_to_start();
    assert_eq!((m.buf.as_str(), m.cursor), (" ", 0));
}

#[test]
fn kill_word_stops_after_space_or_slash() {
    let mut m = typed("cd /usr/lo");
    m.kill_word();
    assert_eq!((m.buf.as_str(), m.cursor), ("cd /usr/", 8));
    let mut m = typed("run  foo   ");
    m.kill_word();
    assert_eq!((m.buf.as_str(), m.cursor), ("run  ", 5));
    let mut m = typed("word");
    m.kill_word();
    assert_eq!((m.buf.as_str(), m.cursor), ("", 0));
}

#[test]
fn submit_trims_or_gives_none() {
    assert_eq!(typed("  x y  ").submit(), Some("x y".to_string()));
    assert_eq!(typed(" \t ").submit(), None);
    assert_eq!(typed("").submit(), None);
}

#[test]
fn completion_word_around_cursor() {
    let mut m = typed("a bc d");
    m.move_left();
    m.move_left();
    m.move_left();
    assert_eq!(m.completion_word(), "bc");
    assert_eq!(typed("cd sr").completion_word(), "sr");
}

#[test]
fn tab_fills_in_and_cycles_completions() {
    let mut m = typed("cd sr");
    handle_tab(&mut m, vec!["src/".to_string(), "srv/".to_string()]);
    assert_eq!((m.buf.as_str(), m.cursor, m.comp_index), ("cd src/", 7, 0));
    handle_tab(&mut m, Vec::new());
    assert_eq!((m.buf.as_str(), m.cursor, m.comp_index), ("cd srv/", 7, 1));
    handle_tab(&mut m, Vec::new());
    assert_eq!((m.buf.as_str(), m.comp_index), ("cd src/", 0));
    m.insert_char('x');
    assert!(m.completions.is_empty());
    assert_eq!(m.comp_index, -1);
}

#[test]
fn tab_in_middle_keeps_suffix() {
    let mut m = typed("a bc d");
    m.move_left();
    m.move_left();
    m.move_left();
    handle_tab(&mut m, vec!["bcx".to_string()]);
    assert_eq!((m.buf.as_str(), m.cursor), ("a bcx d", 5));
    assert_eq!(m.comp_prefix, "a ");
    assert_eq!(m.comp_suffix, " d");
}

#[test]
fn tab_without_candidates_changes_nothing() {
    let mut m = typed("cd zz");
    handle_tab(&mut m, Vec::new());
    assert_eq!((m.buf.as_str(), m.cursor), ("cd zz", 5));
    assert!(m.completions.is_empty());
}

#[test]
fn step_completion_back_and_forth() {
    let mut m = typed("x");
    handle_tab(&mut m, vec!["x1".to_string(), "x2".to_string(), "x3".to_string()]);
    m.step_completion(true);
    m.step_completion(false);
    assert_eq!((m.buf.as_str(), m.comp_index), ("x1", 0));
    m.step_completion(false);
    assert_eq!((m.buf.as_str(), m.comp_index), ("x3", 2));
}

#[test]
fn left_then_right_returns_and_kills_empty_line() {
    let mut m = typed("añb");
    m.move_left();
    let c = m.cursor;
    m.move_left();
    m.move_right();
    assert_eq!(m.cursor, c);
    m.kill_to_end();
    m.kill_to_start();
    assert_eq!((m.buf.as_str(), m.cursor), ("", 0));
}

#[test]
fn n_tabs_bring_back_the_same_completion() {
    let mut m = typed("cd s");
    handle_tab(&mut m, vec!["src/".to_string(), "srv/".to_string(), "sys/".to_string()]);
    let before = (m.comp_index, m.buf.clone(), m.cursor);
    for _ in 0..3 {
        handle_tab(&mut m, Vec::new());
    }
    assert_eq!((m.comp_index, m.buf.clone(), m.cursor), before);
}
