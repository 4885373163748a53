use slurm_tui::history::{InputHistory, HISTORY_MAX};

#[test]
fn empty_history_has_path_and_no_entries() {
    let h = InputHistory::empty("/tmp/h".to_string());
    assert_eq!(h.path(), "/tmp/h");
    assert!(h.get(" Submit Job ").is_empty());
    assert_eq!(h.serialize(), "");
}

#[test]
fn push_then_get_keeps_order_per_section() {
    let mut h = InputHistory::empty("p".to_string());
    h.push(" Submit Job ", "a.sh".to_string());
    h.push(" Cancel Job ", "12".to_string());
    h.push(" Submit Job ", "b.sh".to_string());
    assert_eq!(h.get(" Submit Job "), &["a.sh".to_string(), "b.sh".to_string()]);
    assert_eq!(h.get(" Cancel Job "), &["12".to_string()]);
    assert!(h.get(" Change Directory ").is_empty());
}

#[test]
fn load_reads_sections_and_skips_stray_lines() {
    let h = InputHistory::load("p".to_string(), "stray\n[A]\na1\n\n[B]\nb1\n[A]\na2\n[C]\n");
    assert_eq!(h.get("A"), &["a1".to_string(), "a2".to_string()]);
    assert_eq!(h.get("B"), &["b1".to_string()]);
    assert!(h.get("C").is_empty());
    assert!(h.get("stray").is_empty());
    assert_eq!(h.serialize(), "[A]\na1\na2\n[B]\nb1\n[C]\n");
}

#[test]
fn load_crlf_file() {
    let h = InputHistory::load("p".to_string(), "[ Submit Job ]\r\nrun.sh\r\n");
    assert_eq!(h.get(" Submit Job "), &["run.sh".to_string()]);
}

#[test]
fn save_then_load_gives_same_history() {
    let mut h = InputHistory::empty("p".to_string());
    h.push(" Submit Job ", "--time=1:00 job.sh".to_string());
    h.push(" Change Directory ", "~/work".to_string());
    h.push(" Submit Job ", "other.sh".to_string());
    let text = h.serialize();
    let back = InputHistory::load("p".to_string(), &text);
    assert_eq!(back.get(" Submit Job "), h.get(" Submit Job "));
    assert_eq!(back.get(" Change Directory "), h.get(" Change Directory "));
    assert_eq!(back.serialize(), text);
}

#[test]
fn save_keeps_last_entries_only() {
    let mut h = InputHistory::empty("p".to_string());
    for i in 0..150 {
        h.push("S", format!("e{i}"));
    }
    let back = InputHistory::load("p".to_string(), &h.serialize());
    let es = back.get("S");
    assert_eq!(es.len(), HISTORY_MAX);
    assert_eq!(es[0], "e50");
    assert_eq!(es[HISTORY_MAX - 1], "e149");
}
