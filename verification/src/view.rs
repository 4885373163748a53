//! What the screen shows, as text and color roles: the summary counts, the layout
//! of the upper panes, the cells of the cluster table, the job details and the
//! dialog's input line. Drawing them is left to the caller.
use vstd::prelude::*;
use crate::slurm::{JobDetail, PartitionStats, QueueJob};
use crate::input::{BodyStyle, Modal, MsgStyle};
use crate::layout::{lemma_max_push, max_of};
use crate::text::{
    byte_len, char_pos, char_pos_exec, chars_of, extend_range, extend_str, is_boundary, lines, lines_of, seqs,
    str_bytes, string_of,
};

verus! {

broadcast use vstd::string::group_string_axioms;

/// A color role of the palette.
#[derive(Clone, Copy, PartialEq, Eq, Structural, Debug)]
pub enum Tone {
    Fg,
    Gray,
    Dim,
    Red,
    Green,
    Yellow,
    Blue,
    Purple,
    Aqua,
    Orange,
}

// ───────────────────────── numbers as text ─────────────────────────

/// The digit for `d` (0 to 9).
pub open spec fn digit_char(d: int) -> char {
    if d == 0 {
        '0'
    } else if d == 1 {
        '1'
    } else if d == 2 {
        '2'
    } else if d == 3 {
        '3'
    } else if d == 4 {
        '4'
    } else if d == 5 {
        '5'
    } else if d == 6 {
        '6'
    } else if d == 7 {
        '7'
    } else if d == 8 {
        '8'
    } else {
        '9'
    }
}

/// `n` in decimal, without leading zeros.
pub open spec fn decimal(n: nat) -> Seq<char>
    decreases n,
{
    if n < 10 {
        seq![digit_char(n as int)]
    } else {
        decimal(n / 10).push(digit_char((n % 10) as int))
    }
}

fn digit(d: u64) -> (c: char)
    requires
        d < 10,
    ensures
        c == digit_char(d as int),
{
    if d == 0 {
        '0'
    } else if d == 1 {
        '1'
    } else if d == 2 {
        '2'
    } else if d == 3 {
        '3'
    } else if d == 4 {
        '4'
    } else if d == 5 {
        '5'
    } else if d == 6 {
        '6'
    } else if d == 7 {
        '7'
    } else if d == 8 {
        '8'
    } else {
        '9'
    }
}

fn push_decimal(out: &mut Vec<char>, n: u64)
    ensures
        final(out)@ == old(out)@ + decimal(n as nat),
    decreases n,
{
    if n >= 10 {
        push_decimal(out, n / 10);
    }
    out.push(digit(n % 10));
}

/// `n` in decimal.
pub fn u64_text(n: u64) -> (r: String)
    ensures
        r@ == decimal(n as nat),
{
    let mut v: Vec<char> = Vec::new();
    push_decimal(&mut v, n);
    assert(v@ =~= decimal(n as nat));
    string_of(&v)
}

/// `a/b`, both in decimal.
pub open spec fn ratio(a: nat, b: nat) -> Seq<char> {
    decimal(a) + seq!['/'] + decimal(b)
}

/// `a/b`, both in decimal.
pub fn ratio_text(a: u64, b: u64) -> (r: String)
    ensures
        r@ == ratio(a as nat, b as nat),
{
    let mut v: Vec<char> = Vec::new();
    push_decimal(&mut v, a);
    v.push('/');
    push_decimal(&mut v, b);
    assert(v@ =~= ratio(a as nat, b as nat));
    string_of(&v)
}

// ───────────────────────── summary and layout ─────────────────────────

/// How many of `jobs` are in `state`.
pub open spec fn count_state(jobs: Seq<QueueJob>, state: Seq<char>) -> nat
    decreases jobs.len(),
{
    if jobs.len() == 0 {
        0
    } else {
        count_state(jobs.drop_last(), state) + if jobs.last().state@ == state {
            1nat
        } else {
            0nat
        }
    }
}

/// The running and the pending jobs of the queue, counted for the summary line.
pub fn job_counts(jobs: &[QueueJob]) -> (r: (usize, usize))
    ensures
        r.0 == count_state(jobs@, "RUNNING"@),
        r.1 == count_state(jobs@, "PENDING"@),
{
    let mut running: usize = 0;
    let mut pending: usize = 0;
    let mut i: usize = 0;
    assert(jobs@.take(0) == Seq::<QueueJob>::empty());
    while i < jobs.len()
        invariant
            i <= jobs.len(),
            running == count_state(jobs@.take(i as int), "RUNNING"@),
            pending == count_state(jobs@.take(i as int), "PENDING"@),
            running + pending <= i,
        decreases jobs.len() - i,
    {
        assert(jobs@.take(i + 1).drop_last() == jobs@.take(i as int));
        assert(jobs@.take(i + 1).last() == jobs@[i as int]);
        let st = chars_of(jobs[i].state.as_str());
        if crate::text::eq_str(&st, "RUNNING") {
            running = running + 1;
        } else if crate::text::eq_str(&st, "PENDING") {
            pending = pending + 1;
        }
        proof {
            reveal_strlit("RUNNING");
            reveal_strlit("PENDING");
            assert("RUNNING"@ != "PENDING"@) by {
                assert("RUNNING"@[0] != "PENDING"@[0]);
            }
        }
        i = i + 1;
    }
    assert(jobs@.take(jobs.len() as int) == jobs@);
    (running, pending)
}

/// The height of the upper panes on a screen `height` rows high with `partitions`
/// rows in the cluster table: room for every row (and the banner and header), at
/// least 12, and at most what leaves the summary, a gap and 6 rows of details. The
/// row count is taken in 16 bits.
pub open spec fn upper_height_spec(partitions: usize, height: nat) -> nat {
    let required = ((partitions as u16) + 2) as nat;
    let upper_max = if height >= 10 && height - 10 >= 12 {
        (height - 10) as nat
    } else {
        12
    };
    let at_least = if required > 12 {
        required
    } else {
        12
    };
    if at_least < upper_max {
        at_least
    } else {
        upper_max
    }
}

/// See `upper_height_spec`.
pub fn upper_height(partitions: usize, height: u16) -> (h: u16)
    requires
        (partitions as u16) + 2 <= u16::MAX,
    ensures
        h == upper_height_spec(partitions, height as nat),
{
    let required = partitions as u16 + 2;
    let upper_min: u16 = 12;
    let room = height.saturating_sub(3 + 1 + 6);
    let upper_max = if room > upper_min {
        room
    } else {
        upper_min
    };
    let at_least = if required > upper_min {
        required
    } else {
        upper_min
    };
    if at_least < upper_max {
        at_least
    } else {
        upper_max
    }
}

/// The widths of the job queue and the cluster table in an upper pane `width`
/// columns wide: the table gets a third, a column separates them, the queue the rest.
pub fn upper_widths(width: u16) -> (r: (u16, u16))
    ensures
        r.1 == width / 3,
        r.0 == (if width >= width / 3 + 1 {
            width - (width / 3 + 1)
        } else {
            0
        }),
{
    let cluster_w = width / 3;
    let jobs_w = width.saturating_sub(cluster_w + 1);
    (jobs_w, cluster_w)
}

/// The color of a job's state in the queue.
pub open spec fn state_tone_spec(state: Seq<char>) -> Tone {
    if state == "RUNNING"@ {
        Tone::Blue
    } else if state == "PENDING"@ {
        Tone::Yellow
    } else if state == "COMPLETING"@ {
        Tone::Aqua
    } else if state == "FAILED"@ || state == "CANCELLED"@ {
        Tone::Red
    } else {
        Tone::Fg
    }
}

/// See `state_tone_spec`.
pub fn state_tone(state: &str) -> (t: Tone)
    ensures
        t == state_tone_spec(state@),
{
    let v = chars_of(state);
    if crate::text::eq_str(&v, "RUNNING") {
        Tone::Blue
    } else if crate::text::eq_str(&v, "PENDING") {
        Tone::Yellow
    } else if crate::text::eq_str(&v, "COMPLETING") {
        Tone::Aqua
    } else if crate::text::eq_str(&v, "FAILED") || crate::text::eq_str(&v, "CANCELLED") {
        Tone::Red
    } else {
        Tone::Fg
    }
}

/// The title of the job details: the number of running jobs, and how many are
/// shown when not all are.
pub open spec fn details_title_spec(total: nat, max_jobs: nat) -> Seq<char> {
    if total > max_jobs {
        "Running Job Details ("@ + decimal(total) + ") - showing "@ + decimal(max_jobs) + " of "@
            + decimal(total)
    } else {
        "Running Job Details ("@ + decimal(total) + ")"@
    }
}

/// See `details_title_spec`.
pub fn details_title(total: usize, max_jobs: usize) -> (r: String)
    requires
        total <= u64::MAX,
        max_jobs <= u64::MAX,
    ensures
        r@ == details_title_spec(total as nat, max_jobs as nat),
{
    let mut v: Vec<char> = Vec::new();
    extend_str(&mut v, "Running Job Details (");
    push_decimal(&mut v, total as u64);
    if total > max_jobs {
        extend_str(&mut v, ") - showing ");
        push_decimal(&mut v, max_jobs as u64);
        extend_str(&mut v, " of ");
        push_decimal(&mut v, total as u64);
    } else {
        extend_str(&mut v, ")");
    }
    string_of(&v)
}

// ───────────────────────── the cluster table ─────────────────────────

/// A cell that shows `num` in its color, followed by `/den` in the text color when
/// there is a `den`.
pub struct RatioCell {
    pub num: String,
    pub den: Option<String>,
    pub tone: Tone,
}

/// The cells of one partition's row; the memory cell's text is formatted by the
/// caller.
pub struct NodeRow {
    pub partition: String,
    pub idle: RatioCell,
    pub states: Vec<(String, Tone)>,
    pub cpu: RatioCell,
    pub mem_tone: Tone,
    pub gpu: RatioCell,
}

/// The node counts of a partition with the letter and color of each state.
pub open spec fn state_counts(s: PartitionStats) -> Seq<(nat, char, Tone)> {
    seq![
        (s.idle_nodes as nat, 'i', Tone::Aqua),
        (s.mix_nodes as nat, 'm', Tone::Purple),
        (s.alloc_nodes as nat, 'a', Tone::Yellow),
        (s.down_nodes as nat, 'd', Tone::Red),
        (s.other_nodes as nat, 'o', Tone::Fg),
    ]
}

/// The States column's segments, such as `3i` and `2m`: one per state with nodes.
pub open spec fn segments(counts: Seq<(nat, char, Tone)>) -> Seq<(Seq<char>, Tone)>
    decreases counts.len(),
{
    if counts.len() == 0 {
        Seq::empty()
    } else {
        let (n, letter, tone) = counts.last();
        if n == 0 {
            segments(counts.drop_last())
        } else {
            segments(counts.drop_last()).push((decimal(n).push(letter), tone))
        }
    }
}

/// How wide the segments are with one space between each two.
pub open spec fn segments_width(segs: Seq<(Seq<char>, Tone)>) -> nat
    decreases segs.len(),
{
    if segs.len() == 0 {
        0
    } else if segs.len() == 1 {
        segs[0].0.len()
    } else {
        segments_width(segs.drop_last()) + 1 + segs.last().0.len()
    }
}

/// A count's color: `Aqua` when some is free, else `Gray`.
pub open spec fn free_tone(free: nat) -> Tone {
    if free > 0 {
        Tone::Aqua
    } else {
        Tone::Gray
    }
}

/// The GPU cell's color: `Gray` without GPUs, `Aqua` when some are free, else `Yellow`.
pub open spec fn gpu_tone(free: nat, total: nat) -> Tone {
    if total == 0 {
        Tone::Gray
    } else if free > 0 {
        Tone::Aqua
    } else {
        Tone::Yellow
    }
}

/// `cell` shows `num/den` in the color `tone`.
pub open spec fn shows_ratio(cell: RatioCell, num: nat, den: nat, tone: Tone) -> bool {
    &&& cell.num@ == decimal(num)
    &&& cell.den matches Some(d) && d@ == decimal(den)
    &&& cell.tone == tone
}

/// The row is that of `s` in the cluster table.
pub open spec fn row_of(r: NodeRow, s: PartitionStats) -> bool {
    &&& r.partition == s.partition
    &&& shows_ratio(r.idle, s.idle_nodes as nat, s.total_nodes as nat, free_tone(s.idle_nodes as nat))
    &&& Seq::new(r.states@.len(), |i: int| (r.states@[i].0@, r.states@[i].1)) == segments(
        state_counts(s),
    )
    &&& shows_ratio(r.cpu, s.cpu_idle as nat, s.cpu_total as nat, free_tone(s.cpu_idle as nat))
    &&& r.mem_tone == free_tone(s.mem_free_mb as nat)
    &&& if s.gpu_total > 0 {
        shows_ratio(r.gpu, s.gpu_free as nat, s.gpu_total as nat, gpu_tone(s.gpu_free as nat, s.gpu_total as nat))
    } else {
        r.gpu.num@ == "-"@ && r.gpu.den is None && r.gpu.tone == Tone::Gray
    }
}

fn ratio_cell(num: u64, den: u64, tone: Tone) -> (c: RatioCell)
    ensures
        shows_ratio(c, num as nat, den as nat, tone),
{
    RatioCell { num: u64_text(num), den: Some(u64_text(den)), tone }
}

fn free_tone_exec(free: u64) -> (t: Tone)
    ensures
        t == free_tone(free as nat),
{
    if free > 0 {
        Tone::Aqua
    } else {
        Tone::Gray
    }
}

/// The segments of the States column of `s` (see `segments`).
pub fn state_segments(s: &PartitionStats) -> (r: Vec<(String, Tone)>)
    ensures
        Seq::new(r@.len(), |i: int| (r@[i].0@, r@[i].1)) == segments(state_counts(*s)),
{
    let counts: [(u32, char, Tone); 5] = [
        (s.idle_nodes, 'i', Tone::Aqua),
        (s.mix_nodes, 'm', Tone::Purple),
        (s.alloc_nodes, 'a', Tone::Yellow),
        (s.down_nodes, 'd', Tone::Red),
        (s.other_nodes, 'o', Tone::Fg),
    ];
    let ghost all = state_counts(*s);
    let mut out: Vec<(String, Tone)> = Vec::new();
    let mut i: usize = 0;
    assert(all.take(0) == Seq::<(nat, char, Tone)>::empty());
    while i < 5
        invariant
            i <= 5,
            all == state_counts(*s),
            forall|k: int| 0 <= k < 5 ==> (#[trigger] counts@[k]).0 as nat == all[k].0
                && counts@[k].1 == all[k].1 && counts@[k].2 == all[k].2,
            Seq::new(out@.len(), |k: int| (out@[k].0@, out@[k].1)) == segments(all.take(i as int)),
        decreases 5 - i,
    {
        assert(all.take(i + 1).drop_last() == all.take(i as int));
        assert(all.take(i + 1).last() == all[i as int]);
        let (n, letter, tone) = counts[i];
        assert(counts@[i as int].0 as nat == all[i as int].0);
        if n != 0 {
            let mut v: Vec<char> = Vec::new();
            push_decimal(&mut v, n as u64);
            v.push(letter);
            let ghost before = Seq::new(out@.len(), |k: int| (out@[k].0@, out@[k].1));
            out.push((string_of(&v), tone));
            assert(Seq::new(out@.len(), |k: int| (out@[k].0@, out@[k].1)) =~= before.push(
                (decimal(n as nat).push(letter), tone),
            ));
        }
        i = i + 1;
    }
    assert(all.take(5) == all);
    out
}

/// The cells of the row of `s` in the cluster table.
pub fn node_row(s: &PartitionStats) -> (r: NodeRow)
    ensures
        row_of(r, *s),
{
    let gpu = if s.gpu_total > 0 {
        let tone = if s.gpu_free > 0 {
            Tone::Aqua
        } else {
            Tone::Yellow
        };
        ratio_cell(s.gpu_free, s.gpu_total, tone)
    } else {
        RatioCell { num: "-".to_owned(), den: None, tone: Tone::Gray }
    };
    NodeRow {
        partition: s.partition.clone(),
        idle: ratio_cell(s.idle_nodes as u64, s.total_nodes as u64, free_tone_exec(s.idle_nodes as u64)),
        states: state_segments(s),
        cpu: ratio_cell(s.cpu_idle, s.cpu_total, free_tone_exec(s.cpu_idle)),
        mem_tone: free_tone_exec(s.mem_free_mb),
        gpu,
    }
}

/// The widest of each value, or `floor` when that is wider.
pub open spec fn at_least(m: nat, floor: nat) -> nat {
    if m > floor {
        m
    } else {
        floor
    }
}

/// The widths of the cluster table's Part, Idle and States columns: the widest
/// entry or the header, cut to 16 bits.
pub open spec fn nodes_widths_spec(stats: Seq<PartitionStats>) -> Seq<u16> {
    let part = Seq::new(stats.len(), |i: int| byte_len(stats[i].partition@));
    let idle = Seq::new(
        stats.len(),
        |i: int| ratio(stats[i].idle_nodes as nat, stats[i].total_nodes as nat).len(),
    );
    let states = Seq::new(
        stats.len(),
        |i: int| segments_width(segments(state_counts(stats[i]))),
    );
    seq![
        at_least(max_of(part), 4) as u16,
        at_least(max_of(idle), 4) as u16,
        at_least(max_of(states), 6) as u16,
    ]
}

/// The segments written out with a space between each two.
fn joined_width(segs: &Vec<(String, Tone)>) -> (n: usize)
    ensures
        n == segments_width(Seq::new(segs@.len(), |i: int| (segs@[i].0@, segs@[i].1))),
{
    let ghost sv = Seq::new(segs@.len(), |i: int| (segs@[i].0@, segs@[i].1));
    let mut v: Vec<char> = Vec::new();
    let mut i: usize = 0;
    assert(sv.take(0) == Seq::<(Seq<char>, Tone)>::empty());
    while i < segs.len()
        invariant
            i <= segs.len(),
            sv == Seq::new(segs@.len(), |i: int| (segs@[i].0@, segs@[i].1)),
            v@.len() == segments_width(sv.take(i as int)),
        decreases segs.len() - i,
    {
        assert(sv.take(i + 1).drop_last() == sv.take(i as int));
        assert(sv.take(i + 1).last() == sv[i as int]);
        if i > 0 {
            v.push(' ');
        }
        extend_str(&mut v, segs[i].0.as_str());
        i = i + 1;
    }
    assert(sv.take(segs.len() as int) == sv);
    v.len()
}

/// The widths of the cluster table's first three columns (see `nodes_widths_spec`).
pub fn nodes_column_widths(stats: &[PartitionStats]) -> (r: [u16; 3])
    ensures
        r@ == nodes_widths_spec(stats@),
{
    let ghost part = Seq::new(stats@.len(), |i: int| byte_len(stats@[i].partition@));
    let ghost idle = Seq::new(
        stats@.len(),
        |i: int| ratio(stats@[i].idle_nodes as nat, stats@[i].total_nodes as nat).len(),
    );
    let ghost states = Seq::new(
        stats@.len(),
        |i: int| segments_width(segments(state_counts(stats@[i]))),
    );
    let mut pw: usize = 0;
    let mut iw: usize = 0;
    let mut sw: usize = 0;
    let mut i: usize = 0;
    assert(part.take(0) == Seq::<nat>::empty());
    assert(idle.take(0) == Seq::<nat>::empty());
    assert(states.take(0) == Seq::<nat>::empty());
    while i < stats.len()
        invariant
            i <= stats.len(),
            part == Seq::new(stats@.len(), |i: int| byte_len(stats@[i].partition@)),
            idle == Seq::new(
                stats@.len(),
                |i: int| ratio(stats@[i].idle_nodes as nat, stats@[i].total_nodes as nat).len(),
            ),
            states == Seq::new(
                stats@.len(),
                |i: int| segments_width(segments(state_counts(stats@[i]))),
            ),
            pw == max_of(part.take(i as int)),
            iw == max_of(idle.take(i as int)),
            sw == max_of(states.take(i as int)),
        decreases stats.len() - i,
    {
        let s = &stats[i];
        let p = str_bytes(s.partition.as_str());
        let it = ratio_text(s.idle_nodes as u64, s.total_nodes as u64);
        let il = chars_of(it.as_str()).len();
        let segs = state_segments(s);
        let sl = joined_width(&segs);
        proof {
            lemma_max_push(part.take(i as int), p as nat);
            lemma_max_push(idle.take(i as int), il as nat);
            lemma_max_push(states.take(i as int), sl as nat);
            assert(part.take(i + 1) == part.take(i as int).push(p as nat));
            assert(idle.take(i + 1) == idle.take(i as int).push(il as nat));
            assert(states.take(i + 1) == states.take(i as int).push(sl as nat));
        }
        if p > pw {
            pw = p;
        }
        if il > iw {
            iw = il;
        }
        if sl > sw {
            sw = sl;
        }
        i = i + 1;
    }
    assert(part.take(stats.len() as int) == part);
    assert(idle.take(stats.len() as int) == idle);
    assert(states.take(stats.len() as int) == states);
    let pw2 = if pw > 4 {
        pw
    } else {
        4
    };
    let iw2 = if iw > 4 {
        iw
    } else {
        4
    };
    let sw2 = if sw > 6 {
        sw
    } else {
        6
    };
    let r = [pw2 as u16, iw2 as u16, sw2 as u16];
    assert(r@ =~= nodes_widths_spec(stats@));
    r
}

// ───────────────────────── the job details ─────────────────────────

/// A run of text in one color, bold or not.
pub struct Piece {
    pub text: String,
    pub tone: Tone,
    pub bold: bool,
}

pub type PieceView = (Seq<char>, Tone, bool);

pub open spec fn line_view(l: Seq<Piece>) -> Seq<PieceView> {
    Seq::new(l.len(), |i: int| (l[i].text@, l[i].tone, l[i].bold))
}

pub open spec fn lines_view(b: Seq<Vec<Piece>>) -> Seq<Seq<PieceView>> {
    Seq::new(b.len(), |i: int| line_view(b[i]@))
}

/// A job's name as the details show it: its first 20 bytes.
pub open spec fn short_name(name: Seq<char>) -> Seq<char> {
    if byte_len(name) <= 20 {
        name
    } else {
        name.take(char_pos(name, 20))
    }
}

/// The last lines of a job's log that the details show: 5 for the current user's
/// jobs, else 2.
pub open spec fn tail_lines(tail: Seq<char>, mine: bool) -> Seq<Seq<char>> {
    let ls = lines(tail);
    let n: int = if mine {
        5
    } else {
        2
    };
    if ls.len() > n {
        ls.skip(ls.len() - n)
    } else {
        ls
    }
}

/// The lines that show job `d` to `current_user`, ending with a blank line.
pub open spec fn detail_block_spec(d: JobDetail, current_user: Seq<char>) -> Seq<Seq<PieceView>> {
    let title = seq![
        ("Job "@ + d.job_id@, Tone::Blue, true),
        (" - "@ + short_name(d.name@), Tone::Fg, false),
    ];
    let who = seq![
        ("User: "@, Tone::Gray, false),
        (d.user@, Tone::Aqua, false),
        ("  Node: "@, Tone::Gray, false),
        (d.node@, Tone::Yellow, false),
    ];
    let time = seq![
        ("Time: "@, Tone::Gray, false),
        (d.elapsed@, Tone::Purple, false),
        (" / "@ + d.timelimit@, Tone::Dim, false),
    ];
    let res = seq![
        ("CPUs: "@, Tone::Gray, false),
        (d.cpus@, Tone::Orange, false),
        ("  Mem: "@, Tone::Gray, false),
        (d.mem@, Tone::Orange, false),
    ];
    let res = if d.gpu@.len() > 0 {
        res + seq![("  GPU: "@, Tone::Gray, false), (d.gpu@, Tone::Orange, false)]
    } else {
        res
    };
    let log = if d.stdout@.len() > 0 && d.stdout@ != "N/A"@ {
        let tl = if d.tail@.len() > 0 {
            tail_lines(d.tail@, d.user@ == current_user)
        } else {
            Seq::empty()
        };
        seq![seq![("Log: "@, Tone::Gray, false), (d.stdout@, Tone::Dim, false)]] + Seq::new(
            tl.len(),
            |i: int| seq![("  "@ + tl[i], Tone::Dim, false)],
        )
    } else {
        Seq::empty()
    };
    seq![title, who, time, res] + log + seq![Seq::empty()]
}

fn piece(text: String, tone: Tone, bold: bool) -> (p: Piece)
    ensures
        p.text == text,
        p.tone == tone,
        p.bold == bold,
{
    Piece { text, tone, bold }
}

fn text_after(prefix: &str, s: &str) -> (r: String)
    ensures
        r@ == prefix@ + s@,
{
    crate::text::concat_str(prefix, s)
}

/// The lines that show job `d` to `current_user` (see `detail_block_spec`). The
/// name is cut at 20 bytes, which must fall between two of its characters.
pub fn detail_block(d: &JobDetail, current_user: &str) -> (r: Vec<Vec<Piece>>)
    requires
        byte_len(d.name@) <= 20 || is_boundary(d.name@, 20),
    ensures
        lines_view(r@) == detail_block_spec(*d, current_user@),
{
    let mut out: Vec<Vec<Piece>> = Vec::new();
    let mut l1: Vec<Piece> = Vec::new();
    l1.push(piece(text_after("Job ", d.job_id.as_str()), Tone::Blue, true));
    let short = crate::layout::truncate(d.name.as_str(), 20);
    l1.push(piece(text_after(" - ", short), Tone::Fg, false));
    let mut l2: Vec<Piece> = Vec::new();
    l2.push(piece("User: ".to_owned(), Tone::Gray, false));
    l2.push(piece(d.user.clone(), Tone::Aqua, false));
    l2.push(piece("  Node: ".to_owned(), Tone::Gray, false));
    l2.push(piece(d.node.clone(), Tone::Yellow, false));
    let mut l3: Vec<Piece> = Vec::new();
    l3.push(piece("Time: ".to_owned(), Tone::Gray, false));
    l3.push(piece(d.elapsed.clone(), Tone::Purple, false));
    l3.push(piece(text_after(" / ", d.timelimit.as_str()), Tone::Dim, false));
    let mut l4: Vec<Piece> = Vec::new();
    l4.push(piece("CPUs: ".to_owned(), Tone::Gray, false));
    l4.push(piece(d.cpus.clone(), Tone::Orange, false));
    l4.push(piece("  Mem: ".to_owned(), Tone::Gray, false));
    l4.push(piece(d.mem.clone(), Tone::Orange, false));
    let gv = chars_of(d.gpu.as_str());
    if gv.len() > 0 {
        l4.push(piece("  GPU: ".to_owned(), Tone::Gray, false));
        l4.push(piece(d.gpu.clone(), Tone::Orange, false));
    }
    let ghost v1 = line_view(l1@);
    let ghost v2 = line_view(l2@);
    let ghost v3 = line_view(l3@);
    let ghost v4 = line_view(l4@);
    out.push(l1);
    out.push(l2);
    out.push(l3);
    out.push(l4);
    let ghost spec = detail_block_spec(*d, current_user@);
    proof {
        assert(lines_view(out@) =~= seq![v1, v2, v3, v4]);
        assert(v1 =~= spec[0]);
        assert(v2 =~= spec[1]);
        assert(v3 =~= spec[2]);
        assert(v4 =~= spec[3]);
        assert(lines_view(out@) =~= spec.take(4));
    }
    let ghost head = lines_view(out@);
    let ghost f = |t: Seq<char>| seq![("  "@ + t, Tone::Dim, false)];
    let sv = chars_of(d.stdout.as_str());
    if sv.len() > 0 && !crate::text::eq_str(&sv, "N/A") {
        let mut l5: Vec<Piece> = Vec::new();
        l5.push(piece("Log: ".to_owned(), Tone::Gray, false));
        l5.push(piece(d.stdout.clone(), Tone::Dim, false));
        let ghost v5 = line_view(l5@);
        out.push(l5);
        assert(lines_view(out@) =~= head.push(v5));
        let ghost base = lines_view(out@);
        let tv = chars_of(d.tail.as_str());
        let ghost tl: Seq<Seq<char>> = if d.tail@.len() > 0 {
            tail_lines(d.tail@, d.user@ == current_user@)
        } else {
            Seq::empty()
        };
        if tv.len() > 0 {
            let uv = chars_of(d.user.as_str());
            let cv = chars_of(current_user);
            let mine = uv.len() == cv.len() && crate::scontrol::slice_eq(&uv, &cv);
            let n: usize = if mine {
                5
            } else {
                2
            };
            let ls = lines_of(&tv);
            let start: usize = if ls.len() > n {
                ls.len() - n
            } else {
                0
            };
            proof {
                if ls.len() <= n {
                    assert(seqs(ls@).skip(0) == seqs(ls@));
                }
                assert(tl =~= seqs(ls@).skip(start as int));
            }
            let mut k: usize = start;
            assert(base + Seq::new(0, |i: int| f(tl[i])) =~= base);
            while k < ls.len()
                invariant
                    start <= k <= ls.len(),
                    tl =~= seqs(ls@).skip(start as int),
                    f == (|t: Seq<char>| seq![("  "@ + t, Tone::Dim, false)]),
                    lines_view(out@) =~= base + Seq::new((k - start) as nat, |i: int| f(tl[i])),
                decreases ls.len() - k,
            {
                let mut t: Vec<char> = Vec::new();
                t.push(' ');
                t.push(' ');
                extend_range(&mut t, &ls[k], 0, ls[k].len());
                proof {
                    reveal_strlit("  ");
                    assert(ls@[k as int]@.subrange(0, ls@[k as int]@.len() as int) == ls@[k as int]@);
                    assert(tl[k - start] == ls@[k as int]@);
                    assert(t@ =~= "  "@ + tl[k - start]);
                }
                let mut lt: Vec<Piece> = Vec::new();
                lt.push(piece(string_of(&t), Tone::Dim, false));
                let ghost vt = line_view(lt@);
                assert(vt =~= f(tl[k - start]));
                let ghost prev = lines_view(out@);
                out.push(lt);
                assert(lines_view(out@) =~= prev.push(vt));
                assert(base + Seq::new((k + 1 - start) as nat, |i: int| f(tl[i])) =~= (base
                    + Seq::new((k - start) as nat, |i: int| f(tl[i]))).push(f(tl[k - start])));
                k = k + 1;
            }
        } else {
            assert(base + Seq::new(tl.len(), |i: int| f(tl[i])) =~= base);
        }
        assert(lines_view(out@) =~= head + (seq![v5] + Seq::new(tl.len(), |i: int| f(tl[i]))));
        assert(v5 =~= seq![("Log: "@, Tone::Gray, false), (d.stdout@, Tone::Dim, false)]);
        assert(Seq::new(tl.len(), |i: int| f(tl[i])) =~= Seq::new(
            tl.len(),
            |i: int| seq![("  "@ + tl[i], Tone::Dim, false)],
        ));
    }
    let ghost before = lines_view(out@);
    let blank: Vec<Piece> = Vec::new();
    assert(line_view(blank@) =~= Seq::<PieceView>::empty());
    out.push(blank);
    assert(lines_view(out@) =~= before.push(Seq::empty()));
    assert(lines_view(out@) =~= spec);
    out
}

/// Where the job blocks split into two columns on a pane `height` rows high: none
/// when all their lines (counted in 16 bits) fit or there is only one block; else
/// the left column takes the first half, rounded up.
pub open spec fn column_split_spec(lens: Seq<usize>, height: u16) -> Option<int> {
    let total = sum_lens(lens);
    if (total as u16) <= height || lens.len() < 2 {
        None
    } else {
        Some(((lens.len() + 1) / 2) as int)
    }
}

pub open spec fn sum_lens(lens: Seq<usize>) -> nat
    decreases lens.len(),
{
    if lens.len() == 0 {
        0
    } else {
        sum_lens(lens.drop_last()) + lens.last() as nat
    }
}

/// See `column_split_spec`; `lens` are the blocks' line counts.
pub fn column_split(lens: &Vec<usize>, height: u16) -> (r: Option<usize>)
    requires
        sum_lens(lens@) <= usize::MAX,
    ensures
        match column_split_spec(lens@, height) {
            Some(m) => r == Some(m as usize),
            None => r is None,
        },
{
    let mut total: usize = 0;
    let mut i: usize = 0;
    assert(lens@.take(0) == Seq::<usize>::empty());
    while i < lens.len()
        invariant
            i <= lens.len(),
            sum_lens(lens@) <= usize::MAX,
            total == sum_lens(lens@.take(i as int)),
        decreases lens.len() - i,
    {
        assert(lens@.take(i + 1).drop_last() == lens@.take(i as int));
        proof {
            lemma_sum_prefix(lens@, i + 1);
        }
        total = total + lens[i];
        i = i + 1;
    }
    assert(lens@.take(lens.len() as int) == lens@);
    if total as u16 <= height || lens.len() < 2 {
        None
    } else {
        Some(lens.len() / 2 + lens.len() % 2)
    }
}

proof fn lemma_sum_prefix(lens: Seq<usize>, k: int)
    requires
        0 <= k <= lens.len(),
    ensures
        sum_lens(lens.take(k)) <= sum_lens(lens),
    decreases lens.len() - k,
{
    if k < lens.len() {
        lemma_sum_prefix(lens, k + 1);
        assert(lens.take(k + 1).drop_last() == lens.take(k));
    } else {
        assert(lens.take(k) == lens);
    }
}

// ───────────────────────── the dialog ─────────────────────────

/// The color of a body line's role.
pub open spec fn body_tone_spec(style: BodyStyle) -> Tone {
    match style {
        BodyStyle::Gray => Tone::Gray,
        BodyStyle::Dim => Tone::Dim,
        BodyStyle::Blue => Tone::Blue,
        BodyStyle::Yellow => Tone::Yellow,
        BodyStyle::Fg => Tone::Fg,
        BodyStyle::Red => Tone::Red,
    }
}

pub fn body_tone(style: BodyStyle) -> (t: Tone)
    ensures
        t == body_tone_spec(style),
{
    match style {
        BodyStyle::Gray => Tone::Gray,
        BodyStyle::Dim => Tone::Dim,
        BodyStyle::Blue => Tone::Blue,
        BodyStyle::Yellow => Tone::Yellow,
        BodyStyle::Fg => Tone::Fg,
        BodyStyle::Red => Tone::Red,
    }
}

/// The color of a message's role.
pub open spec fn msg_tone_spec(style: MsgStyle) -> Tone {
    match style {
        MsgStyle::Green => Tone::Green,
        MsgStyle::Red => Tone::Red,
        MsgStyle::Yellow => Tone::Yellow,
        MsgStyle::Gray => Tone::Gray,
    }
}

pub fn msg_tone(style: MsgStyle) -> (t: Tone)
    ensures
        t == msg_tone_spec(style),
{
    match style {
        MsgStyle::Green => Tone::Green,
        MsgStyle::Red => Tone::Red,
        MsgStyle::Yellow => Tone::Yellow,
        MsgStyle::Gray => Tone::Gray,
    }
}

/// The input line split at the cursor: what comes before it, the character under it
/// (none at the end of the line, where a block is drawn), and what follows.
pub struct InputLine {
    pub before: String,
    pub at: Option<String>,
    pub after: String,
}

/// See `InputLine`.
pub fn input_line(m: &Modal) -> (r: InputLine)
    requires
        m.wf(),
    ensures
        r.before@ == m.buf@.take(m.pos()),
        m.pos() < m.buf@.len() ==> (r.at matches Some(c) && c@ == seq![m.buf@[m.pos()]])
            && r.after@ == m.buf@.skip(m.pos() + 1),
        m.pos() >= m.buf@.len() ==> r.at is None && r.after@.len() == 0,
{
    let v = chars_of(m.buf.as_str());
    let k = char_pos_exec(&v, m.cursor);
    let before = crate::text::string_of_range(&v, 0, k);
    assert(v@.subrange(0, k as int) == v@.take(k as int));
    if k < v.len() {
        let mut c: Vec<char> = Vec::new();
        c.push(v[k]);
        let after = crate::text::string_of_range(&v, k + 1, v.len());
        assert(v@.subrange(k + 1, v@.len() as int) == v@.skip(k + 1));
        assert(c@ =~= seq![v@[k as int]]);
        InputLine { before, at: Some(string_of(&c)), after }
    } else {
        InputLine { before, at: None, after: String::new() }
    }
}

/// The completion list: the selected one marked with ` > `, the others indented.
pub open spec fn completion_line(c: Seq<char>, selected: bool) -> Seq<char> {
    if selected {
        " > "@ + c
    } else {
        "   "@ + c
    }
}

/// The lines of the completion list, each with whether it is the selected one.
pub fn completion_lines(m: &Modal) -> (r: Vec<(String, bool)>)
    requires
        m.wf(),
    ensures
        r@.len() == m.completions@.len(),
        forall|i: int|
            0 <= i < r@.len() ==> (#[trigger] r@[i]).1 == (i == m.comp_index as int) && r@[i].0@
                == completion_line(m.completions@[i]@, i == m.comp_index as int),
{
    let mut out: Vec<(String, bool)> = Vec::new();
    let mut i: usize = 0;
    while i < m.completions.len()
        invariant
            i <= m.completions.len(),
            m.completions.len() <= isize::MAX,
            out@.len() == i,
            forall|j: int|
                0 <= j < i ==> (#[trigger] out@[j]).1 == (j == m.comp_index as int) && out@[j].0@
                    == completion_line(m.completions@[j]@, j == m.comp_index as int),
        decreases m.completions.len() - i,
    {
        let selected = i as isize == m.comp_index;
        let text = if selected {
            text_after(" > ", m.completions[i].as_str())
        } else {
            text_after("   ", m.completions[i].as_str())
        };
        out.push((text, selected));
        i = i + 1;
    }
    out
}

// ───────────────────────── laws of the shown numbers ─────────────────────────

proof fn lemma_digit_value(d: int)
    requires
        0 <= d < 10,
    ensures
        crate::text::is_digit(digit_char(d)),
        digit_char(d) as int - '0' as int == d,
{
}

proof fn lemma_decimal_digits(n: nat)
    ensures
        decimal(n).len() > 0,
        crate::text::all_digits(decimal(n)),
        crate::text::digits_value(decimal(n)) == n,
    decreases n,
{
    if n < 10 {
        lemma_digit_value(n as int);
        let s = seq![digit_char(n as int)];
        assert(s.drop_last() == Seq::<char>::empty());
        assert(s.last() == digit_char(n as int));
        assert(crate::text::digits_value(s) == crate::text::digits_value(Seq::<char>::empty()) * 10
            + ((s.last() as int - '0' as int) as nat));
    } else {
        lemma_decimal_digits(n / 10);
        lemma_digit_value((n % 10) as int);
        let s = decimal(n / 10).push(digit_char((n % 10) as int));
        assert(s.drop_last() == decimal(n / 10));
        assert(s.last() == digit_char((n % 10) as int));
        assert(crate::text::digits_value(s) == crate::text::digits_value(decimal(n / 10)) * 10 + ((
        s.last() as int - '0' as int) as nat));
        assert((n / 10) * 10 + n % 10 == n) by (nonlinear_arith);
        assert forall|i: int| 0 <= i < s.len() implies crate::text::is_digit(#[trigger] s[i]) by {
            if i < s.len() - 1 {
                assert(s[i] == decimal(n / 10)[i]);
            }
        }
    }
}

/// A number written out reads back as the same number.
pub proof fn law_decimal_reads_back(n: u64)
    ensures
        crate::text::parse_u64_spec(decimal(n as nat)) == Some(n),
{
    lemma_decimal_digits(n as nat);
    let s = decimal(n as nat);
    assert(crate::text::is_digit(s[0]));
}

/// The job table's columns are at least as wide as their headers and at most as wide
/// as their caps (30, 20, 30, 20, 12, 12, 6 and 40).
pub proof fn law_column_widths_bounded(jobs: Seq<QueueJob>)
    ensures
        ({
            let w = crate::layout::column_widths(jobs);
            &&& w.len() == 8
            &&& 5 <= w[0] <= 30
            &&& 4 <= w[1] <= 20
            &&& 4 <= w[2] <= 30
            &&& 4 <= w[3] <= 20
            &&& 5 <= w[4] <= 12
            &&& 4 <= w[5] <= 12
            &&& 1 <= w[6] <= 6
            &&& 8 <= w[7] <= 40
        }),
{
}

// ───────────────────────── laws of the States column ─────────────────────────

/// The segment that `n` nodes of the state lettered `letter` give: none for no nodes,
/// else the count followed by the letter, in the state's color.
pub open spec fn state_piece(n: nat, letter: char, tone: Tone) -> Seq<(Seq<char>, Tone)> {
    if n == 0 {
        Seq::empty()
    } else {
        seq![(decimal(n).push(letter), tone)]
    }
}

proof fn lemma_segments_push(c: Seq<(nat, char, Tone)>, x: (nat, char, Tone))
    ensures
        segments(c.push(x)) == segments(c) + state_piece(x.0, x.1, x.2),
{
    assert(c.push(x).drop_last() == c);
    assert(c.push(x).last() == x);
    if x.0 == 0 {
        assert(segments(c) + Seq::<(Seq<char>, Tone)>::empty() == segments(c));
    } else {
        assert(segments(c).push((decimal(x.0).push(x.1), x.2)) == segments(c) + seq![
            (decimal(x.0).push(x.1), x.2),
        ]);
    }
}

/// The States column of a partition lists, in this order, its idle nodes lettered
/// `i` in aqua, mixed `m` in purple, allocated `a` in yellow, down `d` in red and
/// other `o` in the text color, each with its count and only when there are some; so
/// the mixed and the down nodes, when there are some, stand under their own letters.
pub proof fn law_state_segments_letters(s: PartitionStats)
    ensures
        segments(state_counts(s)) == state_piece(s.idle_nodes as nat, 'i', Tone::Aqua)
            + state_piece(s.mix_nodes as nat, 'm', Tone::Purple) + state_piece(
            s.alloc_nodes as nat,
            'a',
            Tone::Yellow,
        ) + state_piece(s.down_nodes as nat, 'd', Tone::Red) + state_piece(
            s.other_nodes as nat,
            'o',
            Tone::Fg,
        ),
        s.mix_nodes > 0 ==> segments(state_counts(s)).contains(
            (decimal(s.mix_nodes as nat).push('m'), Tone::Purple),
        ),
        s.down_nodes > 0 ==> segments(state_counts(s)).contains(
            (decimal(s.down_nodes as nat).push('d'), Tone::Red),
        ),
        s.idle_nodes > 0 ==> segments(state_counts(s)).contains(
            (decimal(s.idle_nodes as nat).push('i'), Tone::Aqua),
        ),
        s.alloc_nodes > 0 ==> segments(state_counts(s)).contains(
            (decimal(s.alloc_nodes as nat).push('a'), Tone::Yellow),
        ),
        s.other_nodes > 0 ==> segments(state_counts(s)).contains(
            (decimal(s.other_nodes as nat).push('o'), Tone::Fg),
        ),
{
    let c = state_counts(s);
    let e = Seq::<(nat, char, Tone)>::empty();
    assert(segments(e) == Seq::<(Seq<char>, Tone)>::empty());
    let c1 = e.push(c[0]);
    let c2 = c1.push(c[1]);
    let c3 = c2.push(c[2]);
    let c4 = c3.push(c[3]);
    let c5 = c4.push(c[4]);
    assert(c5 =~= c);
    lemma_segments_push(e, c[0]);
    lemma_segments_push(c1, c[1]);
    lemma_segments_push(c2, c[2]);
    lemma_segments_push(c3, c[3]);
    lemma_segments_push(c4, c[4]);
    let pi = state_piece(s.idle_nodes as nat, 'i', Tone::Aqua);
    let pm = state_piece(s.mix_nodes as nat, 'm', Tone::Purple);
    let pa = state_piece(s.alloc_nodes as nat, 'a', Tone::Yellow);
    let pd = state_piece(s.down_nodes as nat, 'd', Tone::Red);
    let po = state_piece(s.other_nodes as nat, 'o', Tone::Fg);
    assert(Seq::<(Seq<char>, Tone)>::empty() + pi =~= pi);
    let all = pi + pm + pa + pd + po;
    assert(segments(c) == all);
    if s.idle_nodes > 0 {
        assert(all[0] == pi[0]);
    }
    if s.mix_nodes > 0 {
        assert(all[pi.len() as int] == pm[0]);
    }
    if s.alloc_nodes > 0 {
        assert(all[(pi.len() + pm.len()) as int] == pa[0]);
    }
    if s.down_nodes > 0 {
        assert(all[(pi.len() + pm.len() + pa.len()) as int] == pd[0]);
    }
    if s.other_nodes > 0 {
        assert(all[(pi.len() + pm.len() + pa.len() + pd.len()) as int] == po[0]);
    }
}

// ───────────────────────── laws of the colors ─────────────────────────

/// A running job shows blue, a pending one yellow, a completing one aqua, a failed or
/// cancelled one red, and any other in the text color.
pub proof fn law_state_tone_table(state: Seq<char>)
    ensures
        state == "RUNNING"@ ==> state_tone_spec(state) == Tone::Blue,
        state == "PENDING"@ ==> state_tone_spec(state) == Tone::Yellow,
        state == "COMPLETING"@ ==> state_tone_spec(state) == Tone::Aqua,
        state == "FAILED"@ ==> state_tone_spec(state) == Tone::Red,
        state == "CANCELLED"@ ==> state_tone_spec(state) == Tone::Red,
        state != "RUNNING"@ && state != "PENDING"@ && state != "COMPLETING"@ && state != "FAILED"@
            && state != "CANCELLED"@ ==> state_tone_spec(state) == Tone::Fg,
{
    reveal_strlit("RUNNING");
    reveal_strlit("PENDING");
    reveal_strlit("COMPLETING");
    reveal_strlit("FAILED");
    reveal_strlit("CANCELLED");
    assert("RUNNING"@ != "PENDING"@) by { assert("RUNNING"@[0] != "PENDING"@[0]); }
    assert("RUNNING"@ != "COMPLETING"@) by { assert("RUNNING"@[0] != "COMPLETING"@[0]); }
    assert("RUNNING"@ != "FAILED"@) by { assert("RUNNING"@[0] != "FAILED"@[0]); }
    assert("RUNNING"@ != "CANCELLED"@) by { assert("RUNNING"@[0] != "CANCELLED"@[0]); }
    assert("PENDING"@ != "COMPLETING"@) by { assert("PENDING"@[0] != "COMPLETING"@[0]); }
    assert("PENDING"@ != "FAILED"@) by { assert("PENDING"@[0] != "FAILED"@[0]); }
    assert("PENDING"@ != "CANCELLED"@) by { assert("PENDING"@[0] != "CANCELLED"@[0]); }
    assert("COMPLETING"@ != "FAILED"@) by { assert("COMPLETING"@[0] != "FAILED"@[0]); }
    assert("COMPLETING"@ != "CANCELLED"@) by { assert("COMPLETING"@[1] != "CANCELLED"@[1]); }
    assert("FAILED"@ != "CANCELLED"@) by { assert("FAILED"@[0] != "CANCELLED"@[0]); }
}

/// In the cluster table the Idle, CPU and Mem cells are aqua when some is free and
/// gray when none is; the GPU cell is gray without GPUs, aqua when some are free and
/// yellow when all are in use; each ratio shows free over total.
pub proof fn law_node_row_colors(r: NodeRow, s: PartitionStats)
    requires
        row_of(r, s),
    ensures
        r.idle.tone == (if s.idle_nodes > 0 {
            Tone::Aqua
        } else {
            Tone::Gray
        }),
        r.cpu.tone == (if s.cpu_idle > 0 {
            Tone::Aqua
        } else {
            Tone::Gray
        }),
        r.mem_tone == (if s.mem_free_mb > 0 {
            Tone::Aqua
        } else {
            Tone::Gray
        }),
        r.gpu.tone == (if s.gpu_total == 0 {
            Tone::Gray
        } else if s.gpu_free > 0 {
            Tone::Aqua
        } else {
            Tone::Yellow
        }),
        r.idle.num@ == decimal(s.idle_nodes as nat),
        (r.idle.den matches Some(d) && d@ == decimal(s.total_nodes as nat)),
        r.cpu.num@ == decimal(s.cpu_idle as nat),
        (r.cpu.den matches Some(d) && d@ == decimal(s.cpu_total as nat)),
        s.gpu_total > 0 ==> r.gpu.num@ == decimal(s.gpu_free as nat),
        s.gpu_total > 0 ==> (r.gpu.den matches Some(d) && d@ == decimal(s.gpu_total as nat)),
{
}

/// A job's details show at most the last 5 lines of its log for the current user's own
/// jobs and the last 2 otherwise, ending with the log's last line.
pub proof fn law_tail_lines_shown(tail: Seq<char>, mine: bool)
    ensures
        ({
            let n = lines(tail).len();
            let k: nat = if mine {
                5
            } else {
                2
            };
            let shown = tail_lines(tail, mine);
            &&& shown.len() == (if n < k {
                n
            } else {
                k
            })
            &&& shown == lines(tail).skip(n - shown.len())
        }),
{
    let ls = lines(tail);
    if !(ls.len() > (if mine {
        5int
    } else {
        2int
    })) {
        assert(ls.skip(0) == ls);
    }
}

/// A job's details: a bold blue title with its id, its user in aqua and its node in
/// yellow, its elapsed time in purple, its CPUs, memory and (when it has any) GPUs in
/// orange, then its log path dimmed with one dimmed line per shown log line when it
/// has a path that is not `N/A`, and a blank line last.
pub proof fn law_detail_block_fields(d: JobDetail, me: Seq<char>)
    ensures
        ({
            let b = detail_block_spec(d, me);
            let logged = d.stdout@.len() > 0 && d.stdout@ != "N/A"@;
            let shown: int = if d.tail@.len() > 0 {
                tail_lines(d.tail@, d.user@ == me).len() as int
            } else {
                0
            };
            &&& b.len() == 5 + (if logged {
                1 + shown
            } else {
                0
            })
            &&& b[0][0] == ("Job "@ + d.job_id@, Tone::Blue, true)
            &&& b[1][1] == (d.user@, Tone::Aqua, false)
            &&& b[1][3] == (d.node@, Tone::Yellow, false)
            &&& b[2][1] == (d.elapsed@, Tone::Purple, false)
            &&& b[3][1] == (d.cpus@, Tone::Orange, false)
            &&& b[3][3] == (d.mem@, Tone::Orange, false)
            &&& b[3].len() == (if d.gpu@.len() > 0 {
                6int
            } else {
                4int
            })
            &&& (d.gpu@.len() > 0 ==> b[3][5] == (d.gpu@, Tone::Orange, false))
            &&& (logged ==> b[4] == seq![
                ("Log: "@, Tone::Gray, false),
                (d.stdout@, Tone::Dim, false),
            ])
            &&& b[b.len() - 1] == Seq::<PieceView>::empty()
        }),
{
}

} // verus!
