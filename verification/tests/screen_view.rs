use slurm_tui::input::{handle_tab, BodyStyle, Modal, ModalKind, MsgStyle};
use slurm_tui::slurm::{JobDetail, PartitionStats, QueueJob};
use slurm_tui::view::{
    body_tone, column_split, completion_lines, detail_block, details_title, input_line, job_counts,
    msg_tone, node_row, nodes_column_widths, ratio_text, state_segments, state_tone, u64_text,
    upper_height, upper_widths, Tone,
};

fn stats(name: &str, idle: u32, mix: u32, alloc: u32, down: u32, other: u32) -> PartitionStats {
    PartitionStats {
        partition: name.to_string(),
        total_nodes: idle + mix + alloc + down + other,
        idle_nodes: idle,
        mix_nodes: mix,
        alloc_nodes: alloc,
        down_nodes: down,
        other_nodes: other,
        cpu_idle: 0,
        cpu_total: 64,
        mem_free_mb: 10,
        mem_total_mb: 20,
        gpu_free: 0,
        gpu_total: 0,
    }
}

#[test]
fn numbers_as_text() {
    assert_eq!(u64_text(0), "0");
    assert_eq!(u64_text(907), "907");
    assert_eq!(u64_text(u64::MAX), "18446744073709551615");
    assert_eq!(ratio_text(3, 10), "3/10");
}

#[test]
fn job_counts_running_and_pending() {
    let j = |s: &str| QueueJob { state: s.to_string(), ..Default::default() };
    let jobs = vec![j("RUNNING"), j("PENDING"), j("RUNNING"), j("COMPLETING"), j("running")];
    assert_eq!(job_counts(&jobs), (2, 1));
    assert_eq!(job_counts(&[]), (0, 0));
}

#[test]
fn upper_pane_height_and_widths() {
    assert_eq!(upper_height(3, 40), 12);
    assert_eq!(upper_height(20, 40), 22);
    assert_eq!(upper_height(50, 40), 30);
    assert_eq!(upper_height(0, 5), 12);
    assert_eq!(upper_widths(100), (66, 33));
    assert_eq!(upper_widths(1), (0, 0));
    assert_eq!(upper_widths(0), (0, 0));
}

#[test]
fn state_colors() {
    assert_eq!(state_tone("RUNNING"), Tone::Blue);
    assert_eq!(state_tone("PENDING"), Tone::Yellow);
    assert_eq!(state_tone("COMPLETING"), Tone::Aqua);
    assert_eq!(state_tone("FAILED"), Tone::Red);
    assert_eq!(state_tone("CANCELLED"), Tone::Red);
    assert_eq!(state_tone("SUSPENDED"), Tone::Fg);
}

#[test]
fn details_title_mentions_what_is_shown() {
    assert_eq!(details_title(3, 20), "Running Job Details (3)");
    assert_eq!(details_title(20, 20), "Running Job Details (20)");
    assert_eq!(details_title(25, 20), "Running Job Details (25) - showing 20 of 25");
}

#[test]
fn state_segments_skip_empty_states() {
    let s = stats("p", 3, 0, 2, 0, 1);
    assert_eq!(
        state_segments(&s),
        vec![("3i".to_string(), Tone::Aqua), ("2a".to_string(), Tone::Yellow), ("1o".to_string(), Tone::Fg)]
    );
    assert!(state_segments(&stats("p", 0, 0, 0, 0, 0)).is_empty());
}

#[test]
fn node_row_cells() {
    let mut s = stats("gpu", 3, 4, 0, 3, 0);
    let r = node_row(&s);
    assert_eq!(r.partition, "gpu");
    assert_eq!((r.idle.num.as_str(), r.idle.den.as_deref(), r.idle.tone), ("3", Some("10"), Tone::Aqua));
    assert_eq!((r.cpu.num.as_str(), r.cpu.den.as_deref(), r.cpu.tone), ("0", Some("64"), Tone::Gray));
    assert_eq!(r.mem_tone, Tone::Aqua);
    assert_eq!((r.gpu.num.as_str(), r.gpu.den.as_deref(), r.gpu.tone), ("-", None, Tone::Gray));
    s.gpu_total = 8;
    s.gpu_free = 0;
    let r = node_row(&s);
    assert_eq!((r.gpu.num.as_str(), r.gpu.den.as_deref(), r.gpu.tone), ("0", Some("8"), Tone::Yellow));
    s.gpu_free = 2;
    assert_eq!(node_row(&s).gpu.tone, Tone::Aqua);
}

#[test]
fn nodes_column_widths_fit_entries() {
    let rows = vec![stats("gpu-long-name", 3, 0, 2, 0, 1), stats("cpu", 0, 0, 0, 0, 0)];
    assert_eq!(nodes_column_widths(&rows), [13, 4, 8]);
    assert_eq!(nodes_column_widths(&[]), [4, 4, 6]);
    assert_eq!(nodes_column_widths(&[stats("p", 100, 0, 0, 0, 0)]), [4, 7, 6]);
}

fn detail(user: &str, name: &str, stdout: &str, tail: &str, gpu: &str) -> JobDetail {
    JobDetail {
        job_id: "42".to_string(),
        name: name.to_string(),
        user: user.to_string(),
        node: "n1".to_string(),
        elapsed: "0:10".to_string(),
        timelimit: "1:00".to_string(),
        cpus: "4".to_string(),
        mem: "8G".to_string(),
        gpu: gpu.to_string(),
        stdout: stdout.to_string(),
        tail: tail.to_string(),
    }
}

fn texts(b: &[Vec<slurm_tui::view::Piece>]) -> Vec<String> {
    b.iter().map(|l| l.iter().map(|p| p.text.as_str()).collect::<String>()).collect()
}

#[test]
fn detail_block_for_own_job_shows_five_log_lines() {
    let d = detail("bob", "train", "/logs/42.out", "l1\nl2\nl3\nl4\nl5\nl6", "2");
    let b = detail_block(&d, "bob");
    assert_eq!(
        texts(&b),
        vec![
            "Job 42 - train", "User: bob  Node: n1", "Time: 0:10 / 1:00",
            "CPUs: 4  Mem: 8G  GPU: 2", "Log: /logs/42.out", "  l2", "  l3", "  l4", "  l5", "  l6", "",
        ]
    );
    assert_eq!((b[0][0].tone, b[0][0].bold), (Tone::Blue, true));
    assert_eq!(b[1][1].tone, Tone::Aqua);
    assert_eq!(b[5][0].tone, Tone::Dim);
}

#[test]
fn detail_block_for_other_job_and_no_log() {
    let d = detail("alice", "a-rather-long-job-name-indeed", "/l", "x\ny\nz", "");
    assert_eq!(
        texts(&detail_block(&d, "bob")),
        vec![
            "Job 42 - a-rather-long-job-na", "User: alice  Node: n1", "Time: 0:10 / 1:00",
            "CPUs: 4  Mem: 8G", "Log: /l", "  y", "  z", "",
        ]
    );
    let d = detail("bob", "t", "N/A", "x", "");
    assert_eq!(texts(&detail_block(&d, "bob")).len(), 5);
    let d = detail("bob", "t", "/l", "", "");
    assert_eq!(texts(&detail_block(&d, "bob")).len(), 6);
}

#[test]
fn column_split_when_lines_do_not_fit() {
    assert_eq!(column_split(&vec![6, 6, 6], 10), Some(2));
    assert_eq!(column_split(&vec![6, 6, 6, 6], 10), Some(2));
    assert_eq!(column_split(&vec![3, 3], 10), None);
    assert_eq!(column_split(&vec![60], 3), None);
    // The line count is taken in 16 bits.
    assert_eq!(column_split(&vec![65536, 1], 5), None);
}

#[test]
fn dialog_colors() {
    assert_eq!(body_tone(BodyStyle::Gray), Tone::Gray);
    assert_eq!(body_tone(BodyStyle::Red), Tone::Red);
    assert_eq!(msg_tone(MsgStyle::Green), Tone::Green);
    assert_eq!(msg_tone(MsgStyle::Yellow), Tone::Yellow);
}

#[test]
fn input_line_split_at_cursor() {
    let mut m = Modal::new(ModalKind::Submit, "t", "p");
    for c in "héllo".chars() {
        m.insert_char(c);
    }
    let l = input_line(&m);
    assert_eq!((l.before.as_str(), l.at.as_deref(), l.after.as_str()), ("héllo", None, ""));
    m.home();
    m.move_right();
    let l = input_line(&m);
    assert_eq!((l.before.as_str(), l.at.as_deref(), l.after.as_str()), ("h", Some("é"), "llo"));
}

#[test]
fn completion_lines_mark_selection() {
    let mut m = Modal::new(ModalKind::Chdir, "t", "p");
    m.insert_char('s');
    handle_tab(&mut m, vec!["src/".to_string(), "srv/".to_string()]);
    assert_eq!(
        completion_lines(&m),
        vec![(" > src/".to_string(), true), ("   srv/".to_string(), false)]
    );
}

#[test]
fn upper_height_counts_rows_in_sixteen_bits() {
    assert_eq!(upper_height(65536 + 20, 40), 22);
}

#[test]
fn decimal_text_reads_back() {
    for n in [0u64, 7, 10, 99, 12345, u64::MAX] {
        assert_eq!(u64_text(n).parse::<u64>(), Ok(n));
    }
}
