use slurm_tui::layout::{inset_horizontal, inset_left, inset_right, jobs_column_widths, truncate, Area};
use slurm_tui::palette::{Palette, Rgb};
use slurm_tui::slurm::QueueJob;

fn job(id: &str, user: &str, name: &str, nodelist: &str) -> QueueJob {
    QueueJob {
        job_id: id.to_string(),
        user: user.to_string(),
        name: name.to_string(),
        partition: "gpu".to_string(),
        state: "RUNNING".to_string(),
        time: "1:00".to_string(),
        nodes: "1".to_string(),
        nodelist: nodelist.to_string(),
    }
}

#[test]
fn column_widths_without_jobs() {
    assert_eq!(jobs_column_widths(&[]), [5, 4, 16, 4, 5, 4, 1, 8]);
}

#[test]
fn column_widths_fit_widest_entry_up_to_cap() {
    let jobs = vec![
        job("1234567", "alice", "a-very-long-job-name-that-goes-on-and-on", "n1"),
        job("1", "bartholomew-the-long-user", "x", "n[001-128],gpu[01-64],cpu[001-512],bigmem-x"),
    ];
    assert_eq!(jobs_column_widths(&jobs), [7, 20, 30, 4, 7, 4, 1, 40]);
}

#[test]
fn column_widths_count_bytes() {
    let jobs = vec![job("1", "éééé", "ñññññ", "n1")];
    let w = jobs_column_widths(&jobs);
    assert_eq!(w[1], 8);
    assert_eq!(w[2], 10);
}

#[test]
fn truncate_cuts_at_byte_count() {
    assert_eq!(truncate("hello", 10), "hello");
    assert_eq!(truncate("hello", 5), "hello");
    assert_eq!(truncate("hello world", 5), "hello");
    assert_eq!(truncate("héllo", 3), "hé");
    assert_eq!(truncate("abc", 0), "");
}

#[test]
fn insets_narrow_or_keep_area() {
    let a = Area { x: 2, y: 3, width: 10, height: 4 };
    assert_eq!(inset_left(a, 1), Area { x: 3, y: 3, width: 9, height: 4 });
    assert_eq!(inset_right(a, 1), Area { x: 2, y: 3, width: 9, height: 4 });
    assert_eq!(inset_horizontal(a, 2), Area { x: 4, y: 3, width: 6, height: 4 });
    assert_eq!(inset_left(a, 10), a);
    assert_eq!(inset_right(a, 12), a);
    assert_eq!(inset_horizontal(a, 5), a);
}

#[test]
fn palettes() {
    let d = Palette::dark();
    assert_eq!(d.fg, Rgb { r: 0xeb, g: 0xdb, b: 0xb2 });
    assert_eq!(d.orange, Rgb { r: 0xfe, g: 0x80, b: 0x19 });
    let l = Palette::light();
    assert_eq!(l.fg, Rgb { r: 0x3c, g: 0x37, b: 0x35 });
    assert_eq!(l.blue, Rgb { r: 0x45, g: 0x85, b: 0x88 });
    assert_ne!(d, l);
}
