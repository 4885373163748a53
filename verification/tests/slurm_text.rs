use slurm_tui::slurm::{expand_stdout_path, resolve_cr, shorten_reason, strip_ansi};

#[test]
fn shorten_reason_known_reasons() {
    assert_eq!(shorten_reason("(Resources)"), "Rsrc");
    assert_eq!(shorten_reason("(ReqNodeNotAvail, UnavailableNodes:n[1-2])"), "NodeNA");
    assert_eq!(shorten_reason("(Priority)"), "Prio");
    assert_eq!(shorten_reason("(Dependency)"), "Dep");
    assert_eq!(shorten_reason("(QOSMaxJobsPerUserLimit)"), "QOS");
}

#[test]
fn shorten_reason_other_reason_keeps_eight_chars() {
    assert_eq!(shorten_reason("(BeginTime)"), "BeginTim");
    assert_eq!(shorten_reason("(None)"), "None");
    assert_eq!(shorten_reason("((JobHeld))"), "JobHeld");
}

#[test]
fn shorten_reason_nodelist_unchanged() {
    assert_eq!(shorten_reason("node[01-04]"), "node[01-04]");
    assert_eq!(shorten_reason(""), "");
}

#[test]
fn strip_ansi_removes_color_codes() {
    assert_eq!(strip_ansi("\x1b[0;32mOK\x1b[0m done"), "OK done");
    assert_eq!(strip_ansi("plain"), "plain");
}

#[test]
fn strip_ansi_other_escape_drops_two_chars() {
    assert_eq!(strip_ansi("a\x1b(Bb"), "aBb");
    assert_eq!(strip_ansi("end\x1b"), "end");
}

#[test]
fn strip_ansi_csi_stops_at_letter() {
    // The sequence runs to the first ASCII letter, which is dropped too.
    assert_eq!(strip_ansi("\x1b[2Kline"), "line");
    assert_eq!(strip_ansi("\x1b[12;34Hxy"), "xy");
}

#[test]
fn resolve_cr_keeps_last_progress_update() {
    assert_eq!(resolve_cr("10%\r50%\r100%\nnext"), "100%\nnext");
    assert_eq!(resolve_cr("a\r\r"), "a");
    assert_eq!(resolve_cr("\r\r"), "");
}

#[test]
fn resolve_cr_plain_lines_and_crlf() {
    assert_eq!(resolve_cr("one\r\ntwo\n"), "one\ntwo");
    assert_eq!(resolve_cr("\x1b[1mbold\x1b[0m\rredo"), "redo");
    assert_eq!(resolve_cr(""), "");
}

#[test]
fn expand_stdout_path_replaces_patterns() {
    assert_eq!(expand_stdout_path("/logs/%x-%j.out", "42", "train"), "/logs/train-42.out");
    assert_eq!(expand_stdout_path("slurm-%A.out", "7", "x"), "slurm-7.out");
    assert_eq!(expand_stdout_path("plain.log", "7", "x"), "plain.log");
}

#[test]
fn expand_stdout_path_name_with_pattern_is_not_rescanned() {
    // `%j` is replaced before `%x`, so a job name holding `%j` stays as it is.
    assert_eq!(expand_stdout_path("%x.out", "9", "a%jb"), "a%jb.out");
}

#[test]
fn tidied_tail_has_no_carriage_return_or_escape() {
    let raw = "\x1b[32mepoch 1\x1b[0m\r\x1b[2K\rprogress 50%\r\x1b\rprogress 100%\nnext\r\r\nlast\x1b";
    let t = resolve_cr(raw);
    assert!(!t.contains('\r'));
    assert!(!t.contains('\x1b'));
    assert_eq!(t, "progress 100%\nnext\nlast");
    assert!(!strip_ansi("\x1b\x1b[1m\x1b").contains('\x1b'));
}

#[test]
fn strip_ansi_only_removes_and_is_idempotent() {
    for s in ["\x1b[1mbold\x1b[0m and \x1b(Bplain", "no escapes here", "", "a\x1b"] {
        let r = strip_ansi(s);
        assert_eq!(strip_ansi(&r), r);
        let mut it = s.chars();
        assert!(r.chars().all(|c| it.any(|d| d == c)));
    }
    assert_eq!(strip_ansi("no escapes here"), "no escapes here");
}
