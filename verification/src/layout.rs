//! Sizes and places on the screen: the widths of the job table's columns, cut
//! names, and areas narrowed by a margin.
use vstd::prelude::*;
use crate::slurm::QueueJob;
use crate::text::{byte_len, char_pos, char_pos_exec, chars_of, is_boundary, str_bytes};

verus! {

broadcast use vstd::string::group_string_axioms;

/// A rectangle of terminal cells.
#[derive(Clone, Copy, PartialEq, Eq, Structural, Debug)]
pub struct Area {
    pub x: u16,
    pub y: u16,
    pub width: u16,
    pub height: u16,
}

/// The largest of `s`, or 0.
pub open spec fn max_of(s: Seq<nat>) -> nat
    decreases s.len(),
{
    if s.len() == 0 {
        0
    } else {
        let m = max_of(s.drop_last());
        if s.last() > m {
            s.last()
        } else {
            m
        }
    }
}

/// The byte lengths of one field of each job.
pub open spec fn field_lens(jobs: Seq<QueueJob>, field: spec_fn(QueueJob) -> Seq<char>) -> Seq<nat> {
    Seq::new(jobs.len(), |i: int| byte_len(field(jobs[i])))
}

/// A column as wide as its widest entry and its header, but no wider than `cap`.
pub open spec fn fit(widest: nat, header: nat, cap: nat) -> nat {
    let w = if widest > header {
        widest
    } else {
        header
    };
    if w < cap {
        w
    } else {
        cap
    }
}

/// The widths of the columns JobID, User, Name, Part, State, Time, N and NodeList.
/// With no jobs the Name column holds the placeholder `No jobs in queue`.
pub open spec fn column_widths(jobs: Seq<QueueJob>) -> Seq<nat> {
    let name_widest = if jobs.len() == 0 {
        16
    } else {
        max_of(field_lens(jobs, |j: QueueJob| j.name@))
    };
    seq![
        fit(max_of(field_lens(jobs, |j: QueueJob| j.job_id@)), 5, 30),
        fit(max_of(field_lens(jobs, |j: QueueJob| j.user@)), 4, 20),
        fit(name_widest, 4, 30),
        fit(max_of(field_lens(jobs, |j: QueueJob| j.partition@)), 4, 20),
        fit(max_of(field_lens(jobs, |j: QueueJob| j.state@)), 5, 12),
        fit(max_of(field_lens(jobs, |j: QueueJob| j.time@)), 4, 12),
        fit(max_of(field_lens(jobs, |j: QueueJob| j.nodes@)), 1, 6),
        fit(max_of(field_lens(jobs, |j: QueueJob| j.nodelist@)), 8, 40),
    ]
}

pub(crate) proof fn lemma_max_push(s: Seq<nat>, x: nat)
    ensures
        max_of(s.push(x)) == if x > max_of(s) {
            x
        } else {
            max_of(s)
        },
{
    assert(s.push(x).drop_last() == s);
}

/// The widest entry of one column, measured in bytes.
fn widest(jobs: &[QueueJob], which: usize) -> (m: usize)
    requires
        which < 8,
    ensures
        m == max_of(field_lens(jobs@, field_of(which))),
{
    let mut m: usize = 0;
    let mut i: usize = 0;
    let ghost f = field_of(which);
    assert(field_lens(jobs@.take(0), f) =~= Seq::<nat>::empty());
    while i < jobs.len()
        invariant
            i <= jobs.len(),
            f == field_of(which),
            which < 8,
            m == max_of(field_lens(jobs@.take(i as int), f)),
        decreases jobs.len() - i,
    {
        let j = &jobs[i];
        let s: &str = if which == 0 {
            j.job_id.as_str()
        } else if which == 1 {
            j.user.as_str()
        } else if which == 2 {
            j.name.as_str()
        } else if which == 3 {
            j.partition.as_str()
        } else if which == 4 {
            j.state.as_str()
        } else if which == 5 {
            j.time.as_str()
        } else if which == 6 {
            j.nodes.as_str()
        } else {
            j.nodelist.as_str()
        };
        assert(s@ == f(jobs@[i as int]));
        let n = str_bytes(s);
        proof {
            lemma_max_push(field_lens(jobs@.take(i as int), f), n as nat);
            assert(field_lens(jobs@.take(i + 1), f) =~= field_lens(jobs@.take(i as int), f).push(
                n as nat,
            ));
        }
        if n > m {
            m = n;
        }
        i = i + 1;
    }
    assert(jobs@.take(jobs.len() as int) == jobs@);
    m
}

/// The field that column `which` shows.
pub open spec fn field_of(which: usize) -> spec_fn(QueueJob) -> Seq<char> {
    if which == 0 {
        |j: QueueJob| j.job_id@
    } else if which == 1 {
        |j: QueueJob| j.user@
    } else if which == 2 {
        |j: QueueJob| j.name@
    } else if which == 3 {
        |j: QueueJob| j.partition@
    } else if which == 4 {
        |j: QueueJob| j.state@
    } else if which == 5 {
        |j: QueueJob| j.time@
    } else if which == 6 {
        |j: QueueJob| j.nodes@
    } else {
        |j: QueueJob| j.nodelist@
    }
}

fn fit_exec(widest: usize, header: usize, cap: usize) -> (w: u16)
    requires
        cap <= u16::MAX,
    ensures
        w == fit(widest as nat, header as nat, cap as nat),
{
    let w = if widest > header {
        widest
    } else {
        header
    };
    if w < cap {
        w as u16
    } else {
        cap as u16
    }
}

/// The widths of the job table's columns (see `column_widths`).
pub fn jobs_column_widths(jobs: &[QueueJob]) -> (r: [u16; 8])
    ensures
        forall|c: int| 0 <= c < 8 ==> r@[c] == #[trigger] column_widths(jobs@)[c],
{
    // The placeholder `No jobs in queue` is 16 bytes long.
    let name_widest: usize = if jobs.len() == 0 {
        16
    } else {
        widest(jobs, 2)
    };
    let r = [
        fit_exec(widest(jobs, 0), 5, 30),
        fit_exec(widest(jobs, 1), 4, 20),
        fit_exec(name_widest, 4, 30),
        fit_exec(widest(jobs, 3), 4, 20),
        fit_exec(widest(jobs, 4), 5, 12),
        fit_exec(widest(jobs, 5), 4, 12),
        fit_exec(widest(jobs, 6), 1, 6),
        fit_exec(widest(jobs, 7), 8, 40),
    ];
    proof {
        let cw = column_widths(jobs@);
        assert(field_of(0) == (|j: QueueJob| j.job_id@));
        assert(field_of(1) == (|j: QueueJob| j.user@));
        assert(field_of(2) == (|j: QueueJob| j.name@));
        assert(field_of(3) == (|j: QueueJob| j.partition@));
        assert(field_of(4) == (|j: QueueJob| j.state@));
        assert(field_of(5) == (|j: QueueJob| j.time@));
        assert(field_of(6) == (|j: QueueJob| j.nodes@));
        assert(field_of(7) == (|j: QueueJob| j.nodelist@));
        assert forall|c: int| 0 <= c < 8 implies r@[c] == #[trigger] cw[c] by {}
    }
    r
}

/// `s` cut to its first `max` bytes; `max` falls between two characters whenever
/// `s` is longer.
pub fn truncate(s: &str, max: usize) -> (r: &str)
    requires
        byte_len(s@) <= max || is_boundary(s@, max as int),
    ensures
        byte_len(s@) <= max ==> r@ == s@,
        byte_len(s@) > max ==> r@ == s@.take(char_pos(s@, max as int)) && byte_len(r@) == max,
{
    if str_bytes(s) <= max {
        s
    } else {
        let v = chars_of(s);
        let k = char_pos_exec(&v, max);
        s.substring_char(0, k)
    }
}

/// `area` without `inset` columns on the left, unless it is not wider than that.
pub fn inset_left(area: Area, inset: u16) -> (r: Area)
    requires
        area.width <= inset || area.x + inset <= u16::MAX,
    ensures
        r == (if area.width <= inset {
            area
        } else {
            Area { x: (area.x + inset) as u16, width: (area.width - inset) as u16, ..area }
        }),
{
    if area.width <= inset {
        area
    } else {
        Area { x: area.x + inset, y: area.y, width: area.width - inset, height: area.height }
    }
}

/// `area` without `inset` columns on the right, unless it is not wider than that.
pub fn inset_right(area: Area, inset: u16) -> (r: Area)
    ensures
        r == (if area.width <= inset {
            area
        } else {
            Area { width: (area.width - inset) as u16, ..area }
        }),
{
    if area.width <= inset {
        area
    } else {
        Area { x: area.x, y: area.y, width: area.width - inset, height: area.height }
    }
}

/// `area` without `inset` columns on each side, unless it is not wider than both.
pub fn inset_horizontal(area: Area, inset: u16) -> (r: Area)
    requires
        inset * 2 <= u16::MAX,
        area.width <= inset * 2 || area.x + inset <= u16::MAX,
    ensures
        r == (if area.width <= inset * 2 {
            area
        } else {
            Area {
                x: (area.x + inset) as u16,
                width: (area.width - inset * 2) as u16,
                ..area
            }
        }),
{
    if area.width <= inset * 2 {
        area
    } else {
        Area { x: area.x + inset, y: area.y, width: area.width - inset * 2, height: area.height }
    }
}

// ───────────────────────── laws of the column widths ─────────────────────────

/// A column `w` wide fits entries as wide as `vals`: at least its header, at most its
/// cap, wide enough for every entry up to the cap, and no wider than needed (as wide
/// as the header, the cap or some entry).
pub open spec fn sized_for(w: nat, vals: Seq<nat>, header: nat, cap: nat) -> bool {
    &&& header <= w <= cap
    &&& forall|i: int| 0 <= i < vals.len() ==> w >= #[trigger] vals[i] || w == cap
    &&& (w == header || w == cap || exists|i: int| 0 <= i < vals.len() && w == #[trigger] vals[i])
}

proof fn lemma_max_of(s: Seq<nat>)
    ensures
        forall|i: int| 0 <= i < s.len() ==> #[trigger] s[i] <= max_of(s),
        max_of(s) == 0 || exists|i: int| 0 <= i < s.len() && max_of(s) == #[trigger] s[i],
    decreases s.len(),
{
    if s.len() > 0 {
        lemma_max_of(s.drop_last());
        assert forall|i: int| 0 <= i < s.len() implies #[trigger] s[i] <= max_of(s) by {
            if i < s.len() - 1 {
                assert(s[i] == s.drop_last()[i]);
            }
        }
        if max_of(s) != 0 {
            if s.last() > max_of(s.drop_last()) {
                assert(max_of(s) == s[s.len() - 1]);
            } else {
                let k = choose|k: int| 0 <= k < s.drop_last().len() && max_of(s.drop_last()) == #[trigger] s.drop_last()[k];
                assert(max_of(s) == s[k]);
            }
        }
    }
}

proof fn lemma_fit_sized(vals: Seq<nat>, header: nat, cap: nat)
    requires
        header <= cap,
    ensures
        sized_for(fit(max_of(vals), header, cap), vals, header, cap),
{
    lemma_max_of(vals);
}

/// The widths of the job table's columns: each column fits its own field of every job
/// (JobID, User, Name, Part, State, Time, N, NodeList, measured in bytes) under its
/// header (5, 4, 4, 4, 5, 4, 1 and 8 wide) and cap (30, 20, 30, 20, 12, 12, 6 and 40);
/// with no jobs the Name column fits its placeholder.
pub proof fn law_column_widths_fit_fields(jobs: Seq<QueueJob>)
    ensures
        ({
            let w = column_widths(jobs);
            &&& w.len() == 8
            &&& sized_for(w[0], Seq::new(jobs.len(), |i: int| byte_len(jobs[i].job_id@)), 5, 30)
            &&& sized_for(w[1], Seq::new(jobs.len(), |i: int| byte_len(jobs[i].user@)), 4, 20)
            &&& (jobs.len() > 0 ==> sized_for(
                w[2],
                Seq::new(jobs.len(), |i: int| byte_len(jobs[i].name@)),
                4,
                30,
            ))
            &&& (jobs.len() == 0 ==> w[2] == 16)
            &&& sized_for(w[3], Seq::new(jobs.len(), |i: int| byte_len(jobs[i].partition@)), 4, 20)
            &&& sized_for(w[4], Seq::new(jobs.len(), |i: int| byte_len(jobs[i].state@)), 5, 12)
            &&& sized_for(w[5], Seq::new(jobs.len(), |i: int| byte_len(jobs[i].time@)), 4, 12)
            &&& sized_for(w[6], Seq::new(jobs.len(), |i: int| byte_len(jobs[i].nodes@)), 1, 6)
            &&& sized_for(w[7], Seq::new(jobs.len(), |i: int| byte_len(jobs[i].nodelist@)), 8, 40)
        }),
{
    let n = jobs.len();
    let v0 = Seq::new(n, |i: int| byte_len(jobs[i].job_id@));
    let v1 = Seq::new(n, |i: int| byte_len(jobs[i].user@));
    let v2 = Seq::new(n, |i: int| byte_len(jobs[i].name@));
    let v3 = Seq::new(n, |i: int| byte_len(jobs[i].partition@));
    let v4 = Seq::new(n, |i: int| byte_len(jobs[i].state@));
    let v5 = Seq::new(n, |i: int| byte_len(jobs[i].time@));
    let v6 = Seq::new(n, |i: int| byte_len(jobs[i].nodes@));
    let v7 = Seq::new(n, |i: int| byte_len(jobs[i].nodelist@));
    assert(field_lens(jobs, |j: QueueJob| j.job_id@) =~= v0);
    assert(field_lens(jobs, |j: QueueJob| j.user@) =~= v1);
    assert(field_lens(jobs, |j: QueueJob| j.name@) =~= v2);
    assert(field_lens(jobs, |j: QueueJob| j.partition@) =~= v3);
    assert(field_lens(jobs, |j: QueueJob| j.state@) =~= v4);
    assert(field_lens(jobs, |j: QueueJob| j.time@) =~= v5);
    assert(field_lens(jobs, |j: QueueJob| j.nodes@) =~= v6);
    assert(field_lens(jobs, |j: QueueJob| j.nodelist@) =~= v7);
    lemma_fit_sized(v0, 5, 30);
    lemma_fit_sized(v1, 4, 20);
    lemma_fit_sized(v2, 4, 30);
    lemma_fit_sized(v3, 4, 20);
    lemma_fit_sized(v4, 5, 12);
    lemma_fit_sized(v5, 4, 12);
    lemma_fit_sized(v6, 1, 6);
    lemma_fit_sized(v7, 8, 40);
}

} // verus!
