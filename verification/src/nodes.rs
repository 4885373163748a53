//! Per-partition statistics from `scontrol -d -o show node`.
use vstd::prelude::*;
use crate::text::{
    chars_of, lines, lines_of, seqs, split, split_chars, starts_with, starts_with_str,
    string_of, string_of_range, trim, trim_bounds, uppercase, lemma_split_len,
};
use crate::scontrol::{
    categorize_state, gres_total, lookup, num_or_zero, parse_gres_count, parse_scontrol,
    scontrol_pairs, state_category, StateCat,
};
use crate::slurm::PartitionStats;

verus! {

broadcast use vstd::string::group_string_axioms;

// ───────────────────────── what one node line says ─────────────────────────

/// The values of one node line that the statistics read.
pub struct NodeBase {
    pub parts: Seq<Seq<char>>,
    pub state: Seq<char>,
    pub cpu_tot: nat,
    pub cpu_alloc: nat,
    pub mem_tot: nat,
    pub mem_alloc: nat,
    pub gpu_tot: nat,
    pub gpu_used: nat,
}

pub open spec fn or_empty(v: Option<Seq<char>>) -> Seq<char> {
    match v {
        Some(s) => s,
        None => Seq::<char>::empty(),
    }
}

/// A node line, trimmed, counts when it is not empty and names its partitions;
/// missing numbers read as 0 and missing texts as empty.
pub open spec fn node_base(line: Seq<char>) -> Option<NodeBase> {
    let t = trim(line);
    if t.len() == 0 {
        None
    } else {
        let f = scontrol_pairs(t);
        match lookup(f, "Partitions"@) {
            Some(p) => if p.len() == 0 {
                None
            } else {
                Some(
                    NodeBase {
                        parts: split(p, ','),
                        state: or_empty(lookup(f, "State"@)),
                        cpu_tot: num_or_zero(lookup(f, "CPUTot"@)) as nat,
                        cpu_alloc: num_or_zero(lookup(f, "CPUAlloc"@)) as nat,
                        mem_tot: num_or_zero(lookup(f, "RealMemory"@)) as nat,
                        mem_alloc: num_or_zero(lookup(f, "AllocMem"@)) as nat,
                        gpu_tot: gres_total(or_empty(lookup(f, "Gres"@)), "gpu"@),
                        gpu_used: gres_total(or_empty(lookup(f, "GresUsed"@)), "gpu"@),
                    },
                )
            },
            None => None,
        }
    }
}

/// The category of a node, read from its state in upper case.
pub open spec fn node_cat(b: NodeBase) -> StateCat {
    state_category(uppercase(b.state))
}

pub open spec fn sat_sub(a: nat, b: nat) -> nat {
    if a >= b {
        (a - b) as nat
    } else {
        0
    }
}

// ───────────────────────── per-partition tallies ─────────────────────────

/// What the statistics hold for one partition, as unbounded numbers.
pub struct Tally {
    pub nodes: nat,
    pub idle: nat,
    pub mix: nat,
    pub alloc: nat,
    pub down: nat,
    pub other: nat,
    pub cpu_idle: nat,
    pub cpu_total: nat,
    pub mem_free: nat,
    pub mem_total: nat,
    pub gpu_free: nat,
    pub gpu_total: nat,
}

pub open spec fn zero_tally() -> Tally {
    Tally {
        nodes: 0,
        idle: 0,
        mix: 0,
        alloc: 0,
        down: 0,
        other: 0,
        cpu_idle: 0,
        cpu_total: 0,
        mem_free: 0,
        mem_total: 0,
        gpu_free: 0,
        gpu_total: 0,
    }
}

/// A partition's tally with one more node: its category counted, its resources added
/// to the totals, and to the free amounts unless the node is down.
pub open spec fn bump(t: Tally, b: NodeBase, c: StateCat) -> Tally {
    let free = c != StateCat::Down;
    Tally {
        nodes: t.nodes + 1,
        idle: if c == StateCat::Idle {
            t.idle + 1
        } else {
            t.idle
        },
        mix: if c == StateCat::Mix {
            t.mix + 1
        } else {
            t.mix
        },
        alloc: if c == StateCat::Alloc {
            t.alloc + 1
        } else {
            t.alloc
        },
        down: if c == StateCat::Down {
            t.down + 1
        } else {
            t.down
        },
        other: if c == StateCat::Other {
            t.other + 1
        } else {
            t.other
        },
        cpu_idle: if free {
            t.cpu_idle + sat_sub(b.cpu_tot, b.cpu_alloc)
        } else {
            t.cpu_idle
        },
        cpu_total: t.cpu_total + b.cpu_tot,
        mem_free: if free {
            t.mem_free + sat_sub(b.mem_tot, b.mem_alloc)
        } else {
            t.mem_free
        },
        mem_total: t.mem_total + b.mem_tot,
        gpu_free: if free {
            t.gpu_free + sat_sub(b.gpu_tot, b.gpu_used)
        } else {
            t.gpu_free
        },
        gpu_total: t.gpu_total + b.gpu_tot,
    }
}

pub open spec fn tally_or_zero(m: Map<Seq<char>, Tally>, p: Seq<char>) -> Tally {
    if m.dom().contains(p) {
        m[p]
    } else {
        zero_tally()
    }
}

/// A node counted in each of the partitions it lists (empty names skipped).
pub open spec fn tally_parts(
    m: Map<Seq<char>, Tally>,
    ps: Seq<Seq<char>>,
    b: NodeBase,
    c: StateCat,
) -> Map<Seq<char>, Tally>
    decreases ps.len(),
{
    if ps.len() == 0 {
        m
    } else {
        let m2 = tally_parts(m, ps.drop_last(), b, c);
        let p = ps.last();
        if p.len() == 0 {
            m2
        } else {
            m2.insert(p, bump(tally_or_zero(m2, p), b, c))
        }
    }
}

/// All node lines counted, each node in the category that `cat` gives it.
pub open spec fn tally_lines(ls: Seq<Seq<char>>, cat: spec_fn(NodeBase) -> StateCat) -> Map<
    Seq<char>,
    Tally,
>
    decreases ls.len(),
{
    if ls.len() == 0 {
        Map::empty()
    } else {
        let m = tally_lines(ls.drop_last(), cat);
        match node_base(ls.last()) {
            Some(b) => tally_parts(m, b.parts, b, cat(b)),
            None => m,
        }
    }
}

/// The lines of a node listing, or none when the listing is empty or an error.
pub open spec fn node_lines(raw: Seq<char>) -> Seq<Seq<char>> {
    if raw.len() == 0 || starts_with(raw, "Error"@) {
        Seq::empty()
    } else {
        lines(raw)
    }
}

/// The statistics of every partition that a node listing names.
pub open spec fn node_stats_map(raw: Seq<char>) -> Map<Seq<char>, Tally> {
    tally_lines(node_lines(raw), |b: NodeBase| node_cat(b))
}

/// How many node lines fall in category `c`.
pub open spec fn count_cat(ls: Seq<Seq<char>>, c: StateCat) -> nat
    decreases ls.len(),
{
    if ls.len() == 0 {
        0
    } else {
        count_cat(ls.drop_last(), c) + match node_base(ls.last()) {
            Some(b) => if node_cat(b) == c {
                1nat
            } else {
                0nat
            },
            None => 0nat,
        }
    }
}

/// The totals, which do not depend on node states, fit the counters; and each
/// counted node's GPU numbers fit too.
pub open spec fn node_stats_fit(raw: Seq<char>) -> bool {
    let m = tally_lines(node_lines(raw), |b: NodeBase| StateCat::Other);
    &&& forall|p: Seq<char>|
        #![trigger m.dom().contains(p)]
        m.dom().contains(p) ==> {
            &&& m[p].nodes <= u32::MAX
            &&& m[p].cpu_total <= u64::MAX
            &&& m[p].mem_total <= u64::MAX
            &&& m[p].gpu_total <= u64::MAX
        }
    &&& forall|i: int|
        #![trigger node_lines(raw)[i]]
        0 <= i < node_lines(raw).len() ==> match node_base(node_lines(raw)[i]) {
            Some(b) => b.gpu_tot <= u64::MAX && b.gpu_used <= u64::MAX,
            None => true,
        }
}

// ───────────────────────── facts about the tallies ─────────────────────────

/// Two tally maps with the same partitions and the same state-independent totals.
pub open spec fn same_totals(m1: Map<Seq<char>, Tally>, m2: Map<Seq<char>, Tally>) -> bool {
    &&& m1.dom() == m2.dom()
    &&& forall|p: Seq<char>|
        #![trigger m1.dom().contains(p)]
        m1.dom().contains(p) ==> {
            &&& m1[p].nodes == m2[p].nodes
            &&& m1[p].cpu_total == m2[p].cpu_total
            &&& m1[p].mem_total == m2[p].mem_total
            &&& m1[p].gpu_total == m2[p].gpu_total
        }
}

/// The totals of `a` are at most those of `b`.
pub open spec fn tot_le(a: Tally, b: Tally) -> bool {
    a.nodes <= b.nodes && a.cpu_total <= b.cpu_total && a.mem_total <= b.mem_total
        && a.gpu_total <= b.gpu_total
}

pub open spec fn map_tot_le(m1: Map<Seq<char>, Tally>, m2: Map<Seq<char>, Tally>) -> bool {
    forall|p: Seq<char>|
        #![trigger m1.dom().contains(p)]
        m1.dom().contains(p) ==> m2.dom().contains(p) && tot_le(m1[p], m2[p])
}

proof fn lemma_parts_same_totals(
    m1: Map<Seq<char>, Tally>,
    m2: Map<Seq<char>, Tally>,
    ps: Seq<Seq<char>>,
    b: NodeBase,
    c1: StateCat,
    c2: StateCat,
)
    requires
        same_totals(m1, m2),
    ensures
        same_totals(tally_parts(m1, ps, b, c1), tally_parts(m2, ps, b, c2)),
    decreases ps.len(),
{
    if ps.len() > 0 {
        lemma_parts_same_totals(m1, m2, ps.drop_last(), b, c1, c2);
        let x1 = tally_parts(m1, ps.drop_last(), b, c1);
        let x2 = tally_parts(m2, ps.drop_last(), b, c2);
        let p = ps.last();
        if p.len() > 0 {
            let y1 = x1.insert(p, bump(tally_or_zero(x1, p), b, c1));
            let y2 = x2.insert(p, bump(tally_or_zero(x2, p), b, c2));
            assert(y1.dom() == y2.dom());
            assert forall|q: Seq<char>| #![trigger y1.dom().contains(q)] y1.dom().contains(q) implies {
                &&& y1[q].nodes == y2[q].nodes
                &&& y1[q].cpu_total == y2[q].cpu_total
                &&& y1[q].mem_total == y2[q].mem_total
                &&& y1[q].gpu_total == y2[q].gpu_total
            } by {
                if q != p {
                    assert(x1.dom().contains(q));
                }
            }
        }
    }
}

/// How nodes are categorized changes no total.
pub proof fn lemma_lines_same_totals(
    ls: Seq<Seq<char>>,
    c1: spec_fn(NodeBase) -> StateCat,
    c2: spec_fn(NodeBase) -> StateCat,
)
    ensures
        same_totals(tally_lines(ls, c1), tally_lines(ls, c2)),
    decreases ls.len(),
{
    if ls.len() > 0 {
        lemma_lines_same_totals(ls.drop_last(), c1, c2);
        match node_base(ls.last()) {
            Some(b) => {
                lemma_parts_same_totals(
                    tally_lines(ls.drop_last(), c1),
                    tally_lines(ls.drop_last(), c2),
                    b.parts,
                    b,
                    c1(b),
                    c2(b),
                );
            },
            None => {},
        }
    }
}

proof fn lemma_map_tot_le_trans(
    a: Map<Seq<char>, Tally>,
    b: Map<Seq<char>, Tally>,
    c: Map<Seq<char>, Tally>,
)
    requires
        map_tot_le(a, b),
        map_tot_le(b, c),
    ensures
        map_tot_le(a, c),
{
    assert forall|p: Seq<char>| #![trigger a.dom().contains(p)] a.dom().contains(p) implies c.dom().contains(p)
        && tot_le(a[p], c[p]) by {
        assert(b.dom().contains(p));
    }
}

proof fn lemma_parts_grow(m: Map<Seq<char>, Tally>, ps: Seq<Seq<char>>, b: NodeBase, c: StateCat)
    ensures
        map_tot_le(m, tally_parts(m, ps, b, c)),
    decreases ps.len(),
{
    if ps.len() > 0 {
        lemma_parts_grow(m, ps.drop_last(), b, c);
        let x = tally_parts(m, ps.drop_last(), b, c);
        let p = ps.last();
        if p.len() > 0 {
            let y = x.insert(p, bump(tally_or_zero(x, p), b, c));
            assert(map_tot_le(x, y));
            lemma_map_tot_le_trans(m, x, y);
        }
    }
}

/// Counting a node in its first `j` partitions gives no more than counting it in all.
proof fn lemma_parts_prefix(
    m: Map<Seq<char>, Tally>,
    ps: Seq<Seq<char>>,
    j: int,
    b: NodeBase,
    c: StateCat,
)
    requires
        0 <= j <= ps.len(),
    ensures
        map_tot_le(tally_parts(m, ps.take(j), b, c), tally_parts(m, ps, b, c)),
    decreases ps.len() - j,
{
    if j < ps.len() {
        assert(ps.drop_last().take(j) == ps.take(j));
        lemma_parts_prefix(m, ps.drop_last(), j, b, c);
        let x = tally_parts(m, ps.drop_last(), b, c);
        let p = ps.last();
        if p.len() > 0 {
            let y = x.insert(p, bump(tally_or_zero(x, p), b, c));
            assert(map_tot_le(x, y));
            lemma_map_tot_le_trans(tally_parts(m, ps.take(j), b, c), x, y);
        }
    } else {
        assert(ps.take(j) == ps);
    }
}

/// The tallies of the first `k` lines are no more than those of all lines.
proof fn lemma_lines_prefix(ls: Seq<Seq<char>>, k: int, cat: spec_fn(NodeBase) -> StateCat)
    requires
        0 <= k <= ls.len(),
    ensures
        map_tot_le(tally_lines(ls.take(k), cat), tally_lines(ls, cat)),
    decreases ls.len() - k,
{
    if k < ls.len() {
        assert(ls.drop_last().take(k) == ls.take(k));
        lemma_lines_prefix(ls.drop_last(), k, cat);
        let x = tally_lines(ls.drop_last(), cat);
        match node_base(ls.last()) {
            Some(b) => {
                lemma_parts_grow(x, b.parts, b, cat(b));
                lemma_map_tot_le_trans(tally_lines(ls.take(k), cat), x, tally_lines(ls, cat));
            },
            None => {},
        }
    } else {
        assert(ls.take(k) == ls);
    }
}

// ───────────────────────── order of partition names ─────────────────────────

/// Character-by-character order of texts, a proper prefix first; for UTF-8 this is
/// the byte order that `String` compares by.
pub open spec fn text_lt(a: Seq<char>, b: Seq<char>) -> bool
    decreases a.len(),
{
    if a.len() == 0 {
        b.len() > 0
    } else if b.len() == 0 {
        false
    } else if a[0] != b[0] {
        a[0] < b[0]
    } else {
        text_lt(a.drop_first(), b.drop_first())
    }
}

pub proof fn lemma_text_lt_irrefl(a: Seq<char>)
    ensures
        !text_lt(a, a),
    decreases a.len(),
{
    if a.len() > 0 {
        lemma_text_lt_irrefl(a.drop_first());
    }
}

pub proof fn lemma_text_lt_total(a: Seq<char>, b: Seq<char>)
    ensures
        text_lt(a, b) || text_lt(b, a) || a == b,
    decreases a.len(),
{
    if a.len() > 0 && b.len() > 0 && a[0] == b[0] {
        lemma_text_lt_total(a.drop_first(), b.drop_first());
        if a.drop_first() == b.drop_first() {
            assert(a == seq![a[0]] + a.drop_first());
            assert(b == seq![b[0]] + b.drop_first());
        }
    } else if a.len() == 0 && b.len() == 0 {
        assert(a == b);
    }
}

pub proof fn lemma_text_lt_trans(a: Seq<char>, b: Seq<char>, c: Seq<char>)
    requires
        text_lt(a, b),
        text_lt(b, c),
    ensures
        text_lt(a, c),
    decreases a.len(),
{
    if a.len() > 0 && b.len() > 0 && c.len() > 0 && a[0] == b[0] && b[0] == c[0] {
        lemma_text_lt_trans(a.drop_first(), b.drop_first(), c.drop_first());
    }
}

/// Compares two texts in the order of `text_lt`: -1, 0 or 1.
pub fn compare_text(a: &Vec<char>, b: &Vec<char>) -> (r: i8)
    ensures
        r == -1 <==> text_lt(a@, b@),
        r == 0 <==> a@ == b@,
        r == 1 <==> text_lt(b@, a@),
        r == -1 || r == 0 || r == 1,
{
    let mut i: usize = 0;
    proof {
        assert(a@.skip(0) == a@);
        assert(b@.skip(0) == b@);
    }
    loop
        invariant
            i <= a.len(),
            i <= b.len(),
            a@.take(i as int) == b@.take(i as int),
            text_lt(a@, b@) == text_lt(a@.skip(i as int), b@.skip(i as int)),
            text_lt(b@, a@) == text_lt(b@.skip(i as int), a@.skip(i as int)),
        decreases a.len() - i,
    {
        let ghost sa = a@.skip(i as int);
        let ghost sb = b@.skip(i as int);
        if i == a.len() && i == b.len() {
            assert(a@ == a@.take(i as int));
            assert(b@ == b@.take(i as int));
            proof {
                lemma_text_lt_irrefl(a@);
            }
            return 0;
        }
        if i == a.len() {
            proof {
                assert(sa.len() == 0);
                if a@ == b@ {
                    assert(a@.len() == b@.len());
                }
            }
            return -1;
        }
        if i == b.len() {
            proof {
                if a@ == b@ {
                    assert(a@.len() == b@.len());
                }
            }
            return 1;
        }
        assert(sa[0] == a@[i as int]);
        assert(sb[0] == b@[i as int]);
        if a[i] < b[i] {
            proof {
                if a@ == b@ {
                    assert(a@[i as int] == b@[i as int]);
                }
            }
            return -1;
        }
        if a[i] > b[i] {
            proof {
                if a@ == b@ {
                    assert(a@[i as int] == b@[i as int]);
                }
            }
            return 1;
        }
        assert(sa.drop_first() == a@.skip(i + 1));
        assert(sb.drop_first() == b@.skip(i + 1));
        assert(a@.take(i + 1) == a@.take(i as int).push(a@[i as int]));
        assert(b@.take(i + 1) == b@.take(i as int).push(b@[i as int]));
        i = i + 1;
    }
}


// ───────────────────────── accumulating ─────────────────────────

/// The values of one node that go into its partitions' statistics.
pub struct NodeLoad {
    pub cpu_tot: u64,
    pub cpu_idle: u64,
    pub mem_tot: u64,
    pub mem_free: u64,
    pub gpu_tot: u64,
    pub gpu_free: u64,
    pub cat: StateCat,
}

pub open spec fn load_of(l: NodeLoad, b: NodeBase, c: StateCat) -> bool {
    &&& l.cpu_tot == b.cpu_tot
    &&& l.cpu_idle == sat_sub(b.cpu_tot, b.cpu_alloc)
    &&& l.mem_tot == b.mem_tot
    &&& l.mem_free == sat_sub(b.mem_tot, b.mem_alloc)
    &&& l.gpu_tot == b.gpu_tot
    &&& l.gpu_free == sat_sub(b.gpu_tot, b.gpu_used)
    &&& l.cat == c
}

/// The tally that a `PartitionStats` holds.
pub open spec fn tally_of(s: PartitionStats) -> Tally {
    Tally {
        nodes: s.total_nodes as nat,
        idle: s.idle_nodes as nat,
        mix: s.mix_nodes as nat,
        alloc: s.alloc_nodes as nat,
        down: s.down_nodes as nat,
        other: s.other_nodes as nat,
        cpu_idle: s.cpu_idle as nat,
        cpu_total: s.cpu_total as nat,
        mem_free: s.mem_free_mb as nat,
        mem_total: s.mem_total_mb as nat,
        gpu_free: s.gpu_free as nat,
        gpu_total: s.gpu_total as nat,
    }
}

/// Every count is at most the node count, every free amount at most its total.
pub open spec fn tally_ok(t: Tally) -> bool {
    &&& t.idle <= t.nodes
    &&& t.mix <= t.nodes
    &&& t.alloc <= t.nodes
    &&& t.down <= t.nodes
    &&& t.other <= t.nodes
    &&& t.cpu_idle <= t.cpu_total
    &&& t.mem_free <= t.mem_total
    &&& t.gpu_free <= t.gpu_total
}

/// The totals fit the counters of `PartitionStats`.
pub open spec fn tally_fits(t: Tally) -> bool {
    t.nodes <= u32::MAX && t.cpu_total <= u64::MAX && t.mem_total <= u64::MAX && t.gpu_total
        <= u64::MAX
}

/// The accumulated statistics: names strictly ascending, and the statistics of each
/// name being those of the map `m`, which holds nothing else.
pub open spec fn acc_inv(
    names: Seq<Vec<char>>,
    stats: Seq<PartitionStats>,
    m: Map<Seq<char>, Tally>,
) -> bool {
    &&& names.len() == stats.len()
    &&& forall|i: int, j: int|
        #![trigger names[i], names[j]]
        0 <= i < j < names.len() ==> text_lt(names[i]@, names[j]@)
    &&& forall|i: int|
        #![trigger names[i]]
        0 <= i < names.len() ==> m.dom().contains(names[i]@) && m[names[i]@] == tally_of(
            stats[i],
        ) && tally_ok(tally_of(stats[i]))
    &&& forall|p: Seq<char>|
        #![trigger m.dom().contains(p)]
        m.dom().contains(p) ==> exists|i: int|
            #![trigger names[i]]
            0 <= i < names.len() && names[i]@ == p
}

fn zero_stats() -> (r: PartitionStats)
    ensures
        tally_of(r) == zero_tally(),
{
    PartitionStats {
        partition: String::new(),
        total_nodes: 0,
        idle_nodes: 0,
        mix_nodes: 0,
        alloc_nodes: 0,
        down_nodes: 0,
        other_nodes: 0,
        cpu_idle: 0,
        cpu_total: 0,
        mem_free_mb: 0,
        mem_total_mb: 0,
        gpu_free: 0,
        gpu_total: 0,
    }
}

fn bump_stats(old: &PartitionStats, l: &NodeLoad, Ghost(b): Ghost<NodeBase>) -> (r: PartitionStats)
    requires
        load_of(*l, b, l.cat),
        tally_ok(tally_of(*old)),
        tally_fits(bump(tally_of(*old), b, l.cat)),
    ensures
        tally_of(r) == bump(tally_of(*old), b, l.cat),
        tally_ok(tally_of(r)),
{
    let free = l.cat != StateCat::Down;
    PartitionStats {
        partition: String::new(),
        total_nodes: old.total_nodes + 1,
        idle_nodes: if l.cat == StateCat::Idle {
            old.idle_nodes + 1
        } else {
            old.idle_nodes
        },
        mix_nodes: if l.cat == StateCat::Mix {
            old.mix_nodes + 1
        } else {
            old.mix_nodes
        },
        alloc_nodes: if l.cat == StateCat::Alloc {
            old.alloc_nodes + 1
        } else {
            old.alloc_nodes
        },
        down_nodes: if l.cat == StateCat::Down {
            old.down_nodes + 1
        } else {
            old.down_nodes
        },
        other_nodes: if l.cat == StateCat::Other {
            old.other_nodes + 1
        } else {
            old.other_nodes
        },
        cpu_idle: if free {
            old.cpu_idle + l.cpu_idle
        } else {
            old.cpu_idle
        },
        cpu_total: old.cpu_total + l.cpu_tot,
        mem_free_mb: if free {
            old.mem_free_mb + l.mem_free
        } else {
            old.mem_free_mb
        },
        mem_total_mb: old.mem_total_mb + l.mem_tot,
        gpu_free: if free {
            old.gpu_free + l.gpu_free
        } else {
            old.gpu_free
        },
        gpu_total: old.gpu_total + l.gpu_tot,
    }
}

/// Counts a node in partition `p`.
fn record(
    names: &mut Vec<Vec<char>>,
    stats: &mut Vec<PartitionStats>,
    p: &Vec<char>,
    l: &NodeLoad,
    Ghost(m): Ghost<Map<Seq<char>, Tally>>,
    Ghost(b): Ghost<NodeBase>,
)
    requires
        acc_inv(old(names)@, old(stats)@, m),
        load_of(*l, b, l.cat),
        tally_fits(bump(tally_or_zero(m, p@), b, l.cat)),
    ensures
        acc_inv(final(names)@, final(stats)@, m.insert(p@, bump(tally_or_zero(m, p@), b, l.cat))),
{
    let ghost m2 = m.insert(p@, bump(tally_or_zero(m, p@), b, l.cat));
    let mut pos: usize = 0;
    let mut found = false;
    let mut greater = false;
    while pos < names.len()
        invariant
            acc_inv(names@, stats@, m),
            names@ == old(names)@,
            stats@ == old(stats)@,
            pos <= names.len(),
            forall|i: int| 0 <= i < pos ==> text_lt(#[trigger] names@[i]@, p@),
            found ==> pos < names.len() && names@[pos as int]@ == p@,
            greater ==> pos < names.len() && text_lt(p@, names@[pos as int]@),
        ensures
            found || greater || pos == names.len(),
            !(found && greater),
        decreases names.len() - pos,
    {
        let c = compare_text(&names[pos], p);
        if c == 0 {
            found = true;
            break;
        }
        if c == 1 {
            greater = true;
            break;
        }
        pos = pos + 1;
    }
    if found {
        proof {
            assert(tally_or_zero(m, p@) == tally_of(stats@[pos as int]));
        }
        let updated = bump_stats(&stats[pos], l, Ghost(b));
        stats.set(pos, updated);
        proof {
            assert forall|i: int| #![trigger names@[i]] 0 <= i < names@.len() implies m2.dom().contains(
                names@[i]@,
            ) && m2[names@[i]@] == tally_of(stats@[i]) && tally_ok(tally_of(stats@[i])) by {
                if i != pos {
                    if names@[i]@ == p@ {
                        if i < pos {
                            assert(text_lt(names@[i]@, names@[pos as int]@));
                        } else {
                            assert(text_lt(names@[pos as int]@, names@[i]@));
                        }
                        lemma_text_lt_irrefl(p@);
                    }
                }
            }
            assert forall|q: Seq<char>| #![trigger m2.dom().contains(q)] m2.dom().contains(
                q,
            ) implies exists|i: int| #![trigger names@[i]] 0 <= i < names@.len() && names@[i]@
                == q by {
                if q == p@ {
                    assert(names@[pos as int]@ == q);
                } else {
                    assert(m.dom().contains(q));
                }
            }
        }
    } else {
        proof {
            if m.dom().contains(p@) {
                let i = choose|i: int| #![trigger names@[i]] 0 <= i < names@.len() && names@[i]@
                    == p@;
                if i < pos {
                    lemma_text_lt_irrefl(p@);
                } else {
                    assert(text_lt(p@, names@[pos as int]@));
                    if i > pos {
                        lemma_text_lt_trans(p@, names@[pos as int]@, names@[i]@);
                    }
                    lemma_text_lt_irrefl(p@);
                }
            }
            assert(tally_or_zero(m, p@) == zero_tally());
        }
        let z = zero_stats();
        let fresh = bump_stats(&z, l, Ghost(b));
        let key = crate::text::slice_of(p, 0, p.len());
        assert(p@.subrange(0, p@.len() as int) == p@);
        let ghost old_names = names@;
        let ghost old_stats = stats@;
        names.insert(pos, key);
        stats.insert(pos, fresh);
        proof {
            assert forall|i: int, j: int|
                #![trigger names@[i], names@[j]]
                0 <= i < j < names@.len() implies text_lt(names@[i]@, names@[j]@) by {
                if j < pos {
                } else if j == pos {
                    assert(names@[i] == old_names[i]);
                } else if i < pos {
                    assert(names@[i] == old_names[i]);
                    assert(names@[j] == old_names[j - 1]);
                    assert(text_lt(old_names[i]@, p@));
                    if pos < old_names.len() {
                        assert(text_lt(p@, old_names[pos as int]@));
                        lemma_text_lt_trans(old_names[i]@, p@, old_names[pos as int]@);
                        if j - 1 > pos {
                            lemma_text_lt_trans(
                                old_names[i]@,
                                old_names[pos as int]@,
                                old_names[j - 1]@,
                            );
                        }
                    }
                } else if i == pos {
                    assert(names@[j] == old_names[j - 1]);
                    assert(text_lt(p@, old_names[pos as int]@));
                    if j - 1 > pos {
                        lemma_text_lt_trans(p@, old_names[pos as int]@, old_names[j - 1]@);
                    }
                } else {
                    assert(names@[i] == old_names[i - 1]);
                    assert(names@[j] == old_names[j - 1]);
                }
            }
            assert forall|i: int| #![trigger names@[i]] 0 <= i < names@.len() implies m2.dom().contains(
                names@[i]@,
            ) && m2[names@[i]@] == tally_of(stats@[i]) && tally_ok(tally_of(stats@[i])) by {
                if i < pos {
                    assert(names@[i] == old_names[i]);
                    assert(stats@[i] == old_stats[i]);
                    if names@[i]@ == p@ {
                        lemma_text_lt_irrefl(p@);
                    }
                } else if i > pos {
                    assert(names@[i] == old_names[i - 1]);
                    assert(stats@[i] == old_stats[i - 1]);
                    if names@[i]@ == p@ {
                        assert(text_lt(p@, old_names[pos as int]@));
                        if i - 1 > pos {
                            lemma_text_lt_trans(p@, old_names[pos as int]@, old_names[i - 1]@);
                        }
                        lemma_text_lt_irrefl(p@);
                    }
                }
            }
            assert forall|q: Seq<char>| #![trigger m2.dom().contains(q)] m2.dom().contains(
                q,
            ) implies exists|i: int| #![trigger names@[i]] 0 <= i < names@.len() && names@[i]@
                == q by {
                if q == p@ {
                    assert(names@[pos as int]@ == q);
                } else {
                    assert(m.dom().contains(q));
                    let i = choose|i: int| #![trigger old_names[i]] 0 <= i < old_names.len()
                        && old_names[i]@ == q;
                    if i < pos {
                        assert(names@[i] == old_names[i]);
                    } else {
                        assert(names@[i + 1] == old_names[i]);
                    }
                }
            }
        }
    }
}


/// The statistics list `st` holds exactly the tallies of `m`, one per partition,
/// ordered by partition name.
pub open spec fn stats_match(st: Seq<PartitionStats>, m: Map<Seq<char>, Tally>) -> bool {
    &&& forall|i: int, j: int|
        #![trigger st[i], st[j]]
        0 <= i < j < st.len() ==> text_lt(st[i].partition@, st[j].partition@)
    &&& forall|i: int|
        #![trigger st[i]]
        0 <= i < st.len() ==> m.dom().contains(st[i].partition@) && tally_of(st[i])
            == m[st[i].partition@]
    &&& forall|p: Seq<char>|
        #![trigger m.dom().contains(p)]
        m.dom().contains(p) ==> exists|i: int|
            #![trigger st[i]]
            0 <= i < st.len() && st[i].partition@ == p
}

fn with_name(s: &PartitionStats, name: String) -> (r: PartitionStats)
    ensures
        tally_of(r) == tally_of(*s),
        r.partition == name,
{
    PartitionStats {
        partition: name,
        total_nodes: s.total_nodes,
        idle_nodes: s.idle_nodes,
        mix_nodes: s.mix_nodes,
        alloc_nodes: s.alloc_nodes,
        down_nodes: s.down_nodes,
        other_nodes: s.other_nodes,
        cpu_idle: s.cpu_idle,
        cpu_total: s.cpu_total,
        mem_free_mb: s.mem_free_mb,
        mem_total_mb: s.mem_total_mb,
        gpu_free: s.gpu_free,
        gpu_total: s.gpu_total,
    }
}

/// What one node line gives, if it counts.
fn read_node_line(line: &Vec<char>) -> (r: Option<(Vec<char>, NodeLoad)>)
    requires
        node_base(line@) matches Some(b) ==> b.gpu_tot <= u64::MAX && b.gpu_used <= u64::MAX,
    ensures
        match r {
            Some((p, l)) => node_base(line@) matches Some(b) && load_of(l, b, node_cat(b)) && split(
                p@,
                ',',
            ) == b.parts,
            None => node_base(line@) is None,
        },
{
    let (a, z) = trim_bounds(line, 0, line.len());
    assert(line@.subrange(0, line@.len() as int) == line@);
    if a == z {
        return None;
    }
    let t = string_of_range(line, a, z);
    let f = parse_scontrol(t.as_str());
    let parts = match f.get("Partitions") {
        Some(p) => p,
        None => {
            return None;
        },
    };
    if parts.len() == 0 {
        return None;
    }
    let state = f.get_or("State", "");
    proof {
        reveal_strlit("");
        assert(t@ == trim(line@));
        assert(node_base(line@) is Some);
    }
    let cpu_alloc = f.get_u64("CPUAlloc");
    let cpu_tot = f.get_u64("CPUTot");
    let mem_tot = f.get_u64("RealMemory");
    let mem_alloc = f.get_u64("AllocMem");
    let gres = f.get_or("Gres", "");
    let gres_used = f.get_or("GresUsed", "");
    let cpu_idle = cpu_tot.saturating_sub(cpu_alloc);
    let mem_free = mem_tot.saturating_sub(mem_alloc);
    let gpu_tot = parse_gres_count(gres.as_str(), "gpu");
    let gpu_used = parse_gres_count(gres_used.as_str(), "gpu");
    let gpu_free = gpu_tot.saturating_sub(gpu_used);
    let cat = categorize_state(state.as_str());
    proof {
        let b = node_base(line@)->0;
        assert(split(parts@, ',') == b.parts);
        assert(cpu_tot == b.cpu_tot);
        assert(cpu_idle == sat_sub(b.cpu_tot, b.cpu_alloc));
        assert(mem_free == sat_sub(b.mem_tot, b.mem_alloc));
        assert(gpu_tot == b.gpu_tot);
        assert(gpu_free == sat_sub(b.gpu_tot, b.gpu_used));
        assert(f@ == scontrol_pairs(trim(line@)));
        assert(state@ == or_empty(lookup(f@, "State"@)));
        assert(state@ == b.state);
        assert(cat == node_cat(b));
    }
    Some((parts, NodeLoad { cpu_tot, cpu_idle, mem_tot, mem_free, gpu_tot, gpu_free, cat }))
}


/// The categorizing function that the statistics use.
pub open spec fn by_state() -> spec_fn(NodeBase) -> StateCat {
    |b: NodeBase| node_cat(b)
}

/// Sums up a node listing per partition, and counts the idle, mixed, allocated and
/// down nodes of the whole cluster (a node in several partitions counts once there).
/// An empty listing or one that starts with `Error` gives nothing.
pub fn parse_node_stats(raw: &str) -> (r: (Vec<PartitionStats>, usize, usize, usize, usize))
    requires
        node_stats_fit(raw@),
    ensures
        stats_match(r.0@, node_stats_map(raw@)),
        r.1 == count_cat(node_lines(raw@), StateCat::Idle),
        r.2 == count_cat(node_lines(raw@), StateCat::Mix),
        r.3 == count_cat(node_lines(raw@), StateCat::Alloc),
        r.4 == count_cat(node_lines(raw@), StateCat::Down),
{
    broadcast use lemma_split_len;

    let v = chars_of(raw);
    if v.len() == 0 || starts_with_str(&v, "Error") {
        let empty: Vec<PartitionStats> = Vec::new();
        proof {
            assert(node_lines(raw@) == Seq::<Seq<char>>::empty());
            assert(node_stats_map(raw@) == Map::<Seq<char>, Tally>::empty());
        }
        return (empty, 0, 0, 0, 0);
    }
    let ls = lines_of(&v);
    let ghost all = seqs(ls@);
    let ghost cat = by_state();
    assert(all == node_lines(raw@));
    let mut names: Vec<Vec<char>> = Vec::new();
    let mut stats: Vec<PartitionStats> = Vec::new();
    let mut idle: usize = 0;
    let mut mix: usize = 0;
    let mut alloc: usize = 0;
    let mut down: usize = 0;
    let mut i: usize = 0;
    proof {
        assert(all.take(0) == Seq::<Seq<char>>::empty());
        lemma_lines_same_totals(all, cat, |b: NodeBase| StateCat::Other);
    }
    while i < ls.len()
        invariant
            i <= ls.len(),
            all == seqs(ls@),
            all == node_lines(raw@),
            cat == by_state(),
            node_stats_fit(raw@),
            same_totals(tally_lines(all, cat), tally_lines(all, |b: NodeBase| StateCat::Other)),
            acc_inv(names@, stats@, tally_lines(all.take(i as int), cat)),
            idle == count_cat(all.take(i as int), StateCat::Idle),
            mix == count_cat(all.take(i as int), StateCat::Mix),
            alloc == count_cat(all.take(i as int), StateCat::Alloc),
            down == count_cat(all.take(i as int), StateCat::Down),
            idle + mix + alloc + down <= i,
        decreases ls.len() - i,
    {
        let ghost pre = all.take(i as int);
        let ghost upto = all.take(i + 1);
        let ghost m_i = tally_lines(pre, cat);
        proof {
            assert(upto.drop_last() == pre);
            assert(upto.last() == ls@[i as int]@);
            assert(all[i as int] == ls@[i as int]@);
        }
        match read_node_line(&ls[i]) {
            None => {},
            Some((part_list, load)) => {
                let ghost b = node_base(ls@[i as int]@)->0;
                let ghost c = node_cat(b);
                assert(cat(b) == c);
                assert(tally_lines(upto, cat) == tally_parts(m_i, b.parts, b, c));
                match load.cat {
                    StateCat::Idle => {
                        idle = idle + 1;
                    },
                    StateCat::Mix => {
                        mix = mix + 1;
                    },
                    StateCat::Alloc => {
                        alloc = alloc + 1;
                    },
                    StateCat::Down => {
                        down = down + 1;
                    },
                    StateCat::Other => {},
                }
                let items = split_chars(&part_list, ',');
                let mut j: usize = 0;
                assert(seqs(items@).take(0) == Seq::<Seq<char>>::empty());
                while j < items.len()
                    invariant
                        j <= items.len(),
                        seqs(items@) == b.parts,
                        load_of(load, b, c),
                        load.cat == c,
                        node_stats_fit(raw@),
                        all == node_lines(raw@),
                        i < all.len(),
                        upto == all.take(i + 1),
                        same_totals(
                            tally_lines(all, cat),
                            tally_lines(all, |b: NodeBase| StateCat::Other),
                        ),
                        tally_lines(upto, cat) == tally_parts(m_i, b.parts, b, c),
                        acc_inv(names@, stats@, tally_parts(m_i, b.parts.take(j as int), b, c)),
                    decreases items.len() - j,
                {
                    let ghost cur = tally_parts(m_i, b.parts.take(j as int), b, c);
                    let ghost ps = b.parts.take(j + 1);
                    proof {
                        assert(ps.drop_last() == b.parts.take(j as int));
                        assert(ps.last() == items@[j as int]@);
                    }
                    if items[j].len() > 0 {
                        let ghost p = items@[j as int]@;
                        proof {
                            let nxt = tally_parts(m_i, ps, b, c);
                            assert(nxt == cur.insert(p, bump(tally_or_zero(cur, p), b, c)));
                            lemma_parts_prefix(m_i, b.parts, j + 1, b, c);
                            lemma_lines_prefix(all, i + 1, cat);
                            let fin = tally_lines(all, cat);
                            let oth = tally_lines(all, |b: NodeBase| StateCat::Other);
                            assert(nxt.dom().contains(p));
                            assert(fin.dom().contains(p));
                            assert(oth.dom().contains(p));
                            assert(tally_fits(bump(tally_or_zero(cur, p), b, c)));
                        }
                        record(&mut names, &mut stats, &items[j], &load, Ghost(cur), Ghost(b));
                    }
                    j = j + 1;
                }
                assert(b.parts.take(items.len() as int) == b.parts);
            },
        }
        i = i + 1;
    }
    assert(all.take(ls.len() as int) == all);
    let mut out: Vec<PartitionStats> = Vec::new();
    let mut k: usize = 0;
    let ghost m = tally_lines(all, cat);
    while k < names.len()
        invariant
            k <= names.len(),
            acc_inv(names@, stats@, m),
            out.len() == k,
            forall|x: int|
                #![trigger out@[x]]
                0 <= x < k ==> out@[x].partition@ == names@[x]@ && tally_of(out@[x]) == tally_of(
                    stats@[x],
                ),
        decreases names.len() - k,
    {
        let name = string_of(&names[k]);
        let st = with_name(&stats[k], name);
        out.push(st);
        k = k + 1;
    }
    proof {
        assert forall|p: Seq<char>| #![trigger m.dom().contains(p)] m.dom().contains(p) implies exists|
            x: int,
        | #![trigger out@[x]] 0 <= x < out@.len() && out@[x].partition@ == p by {
            let x = choose|x: int| #![trigger names@[x]] 0 <= x < names@.len() && names@[x]@ == p;
            assert(out@[x].partition@ == p);
        }
        assert forall|x: int, y: int|
            #![trigger out@[x], out@[y]]
            0 <= x < y < out@.len() implies text_lt(out@[x].partition@, out@[y].partition@) by {
            assert(text_lt(names@[x]@, names@[y]@));
        }
        assert forall|x: int|
            #![trigger out@[x]]
            0 <= x < out@.len() implies m.dom().contains(out@[x].partition@) && tally_of(out@[x])
            == m[out@[x].partition@] by {
            assert(m.dom().contains(names@[x]@));
        }
    }
    (out, idle, mix, alloc, down)
}

// ───────────────────────── what every partition's statistics satisfy ─────────────────────────

/// A partition's counts: its nodes split exactly into the five state counts, at
/// least one node, and never more free than in total.
pub open spec fn tally_sound(t: Tally) -> bool {
    &&& t.idle + t.mix + t.alloc + t.down + t.other == t.nodes
    &&& t.nodes >= 1
    &&& t.cpu_idle <= t.cpu_total
    &&& t.mem_free <= t.mem_total
    &&& t.gpu_free <= t.gpu_total
}

pub open spec fn all_sound(m: Map<Seq<char>, Tally>) -> bool {
    forall|q: Seq<char>| #[trigger] m.dom().contains(q) ==> tally_sound(m[q])
}

proof fn lemma_parts_sound(m: Map<Seq<char>, Tally>, ps: Seq<Seq<char>>, b: NodeBase, c: StateCat)
    requires
        all_sound(m),
    ensures
        all_sound(tally_parts(m, ps, b, c)),
    decreases ps.len(),
{
    if ps.len() > 0 {
        lemma_parts_sound(m, ps.drop_last(), b, c);
        let m2 = tally_parts(m, ps.drop_last(), b, c);
        let p = ps.last();
        if p.len() > 0 {
            let t = tally_or_zero(m2, p);
            let t2 = bump(t, b, c);
            assert(tally_sound(t2)) by {
                if m2.dom().contains(p) {
                    assert(tally_sound(m2[p]));
                }
            }
            assert forall|q: Seq<char>| #[trigger] m2.insert(p, t2).dom().contains(q) implies tally_sound(
                m2.insert(p, t2)[q],
            ) by {
                if q != p {
                    assert(m2.dom().contains(q));
                }
            }
        }
    }
}

proof fn lemma_lines_sound(ls: Seq<Seq<char>>, cat: spec_fn(NodeBase) -> StateCat)
    ensures
        all_sound(tally_lines(ls, cat)),
    decreases ls.len(),
{
    if ls.len() > 0 {
        lemma_lines_sound(ls.drop_last(), cat);
        match node_base(ls.last()) {
            Some(b) => lemma_parts_sound(tally_lines(ls.drop_last(), cat), b.parts, b, cat(b)),
            None => {},
        }
    }
}

/// In every partition of a node listing, the idle, mixed, allocated, down and other
/// nodes add up to the partition's nodes, and no more CPUs, memory or GPUs are free
/// than it has.
pub proof fn law_partition_counts_add_up(raw: Seq<char>, p: Seq<char>)
    requires
        node_stats_map(raw).dom().contains(p),
    ensures
        tally_sound(node_stats_map(raw)[p]),
{
    lemma_lines_sound(node_lines(raw), by_state());
    assert(by_state() == (|b: NodeBase| node_cat(b)));
}

// ───────────────────────── checking that a listing's totals fit ─────────────────────────

/// `names` and `tots` hold, for each partition of `m`, its node count and its CPU,
/// memory and GPU totals; the names are distinct.
pub open spec fn totals_model(
    names: Seq<Vec<char>>,
    tots: Seq<(u32, u64, u64, u64)>,
    m: Map<Seq<char>, Tally>,
) -> bool {
    &&& names.len() == tots.len()
    &&& forall|k: int|
        #![trigger names[k]]
        0 <= k < names.len() ==> {
            &&& m.dom().contains(names[k]@)
            &&& tots[k].0 as nat == m[names[k]@].nodes
            &&& tots[k].1 as nat == m[names[k]@].cpu_total
            &&& tots[k].2 as nat == m[names[k]@].mem_total
            &&& tots[k].3 as nat == m[names[k]@].gpu_total
        }
    &&& forall|p: Seq<char>|
        #![trigger m.dom().contains(p)]
        m.dom().contains(p) ==> exists|k: int| #![trigger names[k]] 0 <= k < names.len() && names[k]@ == p
    &&& forall|a: int, b: int|
        #![trigger names[a], names[b]]
        0 <= a < b < names.len() ==> names[a]@ != names[b]@
}

/// Whether a node line's GPU counts fit in 64 bits.
pub open spec fn line_gpu_fits(line: Seq<char>) -> bool {
    match node_base(line) {
        Some(b) => b.gpu_tot <= u64::MAX && b.gpu_used <= u64::MAX,
        None => true,
    }
}

fn line_gpu_fits_exec(line: &Vec<char>) -> (r: bool)
    ensures
        r == line_gpu_fits(line@),
{
    let (a, z) = trim_bounds(line, 0, line.len());
    assert(line@.subrange(0, line@.len() as int) == line@);
    if a == z {
        return true;
    }
    let t = string_of_range(line, a, z);
    let f = parse_scontrol(t.as_str());
    let parts = match f.get("Partitions") {
        Some(p) => p,
        None => {
            return true;
        },
    };
    if parts.len() == 0 {
        return true;
    }
    let gres = f.get_or("Gres", "");
    let gres_used = f.get_or("GresUsed", "");
    proof {
        reveal_strlit("");
        assert(t@ == trim(line@));
        assert(f@ == scontrol_pairs(trim(line@)));
    }
    crate::scontrol::gres_count_fits(gres.as_str(), "gpu") && crate::scontrol::gres_count_fits(
        gres_used.as_str(),
        "gpu",
    )
}

fn find_name(names: &Vec<Vec<char>>, p: &Vec<char>) -> (r: Option<usize>)
    ensures
        match r {
            Some(k) => k < names.len() && names@[k as int]@ == p@,
            None => forall|k: int| 0 <= k < names.len() ==> names@[k]@ != p@,
        },
{
    let mut k: usize = 0;
    while k < names.len()
        invariant
            k <= names.len(),
            forall|j: int| 0 <= j < k ==> names@[j]@ != p@,
        decreases names.len() - k,
    {
        if names[k].len() == p.len() && crate::scontrol::slice_eq(&names[k], p) {
            return Some(k);
        }
        k = k + 1;
    }
    None
}

/// Whether every total of a node listing fits its counter, as `parse_node_stats` needs.
pub fn node_stats_fit_check(raw: &str) -> (b: bool)
    ensures
        b == node_stats_fit(raw@),
{
    broadcast use lemma_split_len;

    let v = chars_of(raw);
    if v.len() == 0 || starts_with_str(&v, "Error") {
        proof {
            assert(node_lines(raw@) == Seq::<Seq<char>>::empty());
            assert(tally_lines(node_lines(raw@), |b: NodeBase| StateCat::Other) == Map::<
                Seq<char>,
                Tally,
            >::empty());
        }
        return true;
    }
    let ls = lines_of(&v);
    let ghost all = seqs(ls@);
    let ghost other = |b: NodeBase| StateCat::Other;
    assert(all == node_lines(raw@));
    let mut names: Vec<Vec<char>> = Vec::new();
    let mut tots: Vec<(u32, u64, u64, u64)> = Vec::new();
    let mut i: usize = 0;
    assert(all.take(0) == Seq::<Seq<char>>::empty());
    while i < ls.len()
        invariant
            i <= ls.len(),
            all == seqs(ls@),
            all == node_lines(raw@),
            other == (|b: NodeBase| StateCat::Other),
            totals_model(names@, tots@, tally_lines(all.take(i as int), other)),
            forall|k: int| 0 <= k < i ==> line_gpu_fits(#[trigger] all[k]),
        decreases ls.len() - i,
    {
        let line = &ls[i];
        assert(all[i as int] == line@);
        assert(all.take(i + 1).drop_last() == all.take(i as int));
        assert(all.take(i + 1).last() == line@);
        if !line_gpu_fits_exec(line) {
            return false;
        }
        let ghost m0 = tally_lines(all.take(i as int), other);
        match read_node_line(line) {
            None => {},
            Some((p, load)) => {
                let ghost b = node_base(line@)->0;
                let parts = split_chars(&p, ',');
                assert(seqs(parts@) == b.parts);
                let mut j: usize = 0;
                assert(b.parts.take(0) == Seq::<Seq<char>>::empty());
                while j < parts.len()
                    invariant
                        j <= parts.len(),
                        seqs(parts@) == b.parts,
                        load_of(load, b, node_cat(b)),
                        node_base(line@) == Some(b),
                        other == (|b: NodeBase| StateCat::Other),
                        m0 == tally_lines(all.take(i as int), other),
                        all == node_lines(raw@),
                        i < all.len(),
                        all.take(i + 1).drop_last() == all.take(i as int),
                        all.take(i + 1).last() == line@,
                        totals_model(
                            names@,
                            tots@,
                            tally_parts(m0, b.parts.take(j as int), b, StateCat::Other),
                        ),
                    decreases parts.len() - j,
                {
                    let ghost mj = tally_parts(m0, b.parts.take(j as int), b, StateCat::Other);
                    assert(b.parts.take(j + 1).drop_last() == b.parts.take(j as int));
                    assert(b.parts.take(j + 1).last() == parts@[j as int]@);
                    if parts[j].len() > 0 {
                        let ghost q = parts@[j as int]@;
                        let ghost names0 = names@;
                        let ghost tots0 = tots@;
                        let k = match find_name(&names, &parts[j]) {
                            Some(k) => k,
                            None => {
                                proof {
                                    assert(!mj.dom().contains(q)) by {
                                        if mj.dom().contains(q) {
                                            let kk = choose|kk: int|
                                                #![trigger names@[kk]]
                                                0 <= kk < names@.len() && names@[kk]@ == q;
                                        }
                                    }
                                }
                                names.push(crate::text::slice_of(&parts[j], 0, parts[j].len()));
                                tots.push((0, 0, 0, 0));
                                assert(parts@[j as int]@.subrange(0, parts@[j as int]@.len() as int)
                                    == q);
                                names.len() - 1
                            },
                        };
                        let ghost t0 = tally_or_zero(mj, q);
                        assert(tots@[k as int].0 as nat == t0.nodes);
                        assert(tots@[k as int].1 as nat == t0.cpu_total);
                        assert(tots@[k as int].2 as nat == t0.mem_total);
                        assert(tots@[k as int].3 as nat == t0.gpu_total);
                        let (n, c, m, g) = tots[k];
                        let ghost t1 = bump(t0, b, StateCat::Other);
                        let ghost m1 = tally_parts(m0, b.parts.take(j + 1), b, StateCat::Other);
                        assert(m1 == mj.insert(q, t1));
                        if n == u32::MAX || c > u64::MAX - load.cpu_tot || m > u64::MAX
                            - load.mem_tot || g > u64::MAX - load.gpu_tot {
                            proof {
                                lemma_parts_prefix(m0, b.parts, j + 1, b, StateCat::Other);
                                assert(tally_parts(m0, b.parts, b, StateCat::Other) == tally_lines(
                                    all.take(i + 1),
                                    other,
                                ));
                                lemma_lines_prefix(all, i + 1, other);
                                assert(all.take(all.len() as int) == all);
                                lemma_map_tot_le_trans(
                                    m1,
                                    tally_lines(all.take(i + 1), other),
                                    tally_lines(all, other),
                                );
                                assert(m1.dom().contains(q));
                                let full = tally_lines(all, other);
                                assert(full.dom().contains(q));
                                assert(tot_le(m1[q], full[q]));
                            }
                            return false;
                        }
                        tots.set(k, (n + 1, c + load.cpu_tot, m + load.mem_tot, g + load.gpu_tot));
                        proof {
                            assert(names@[k as int]@ == q);
                            assert forall|kk: int| 0 <= kk < names@.len() && kk != k implies names@[kk]@
                                != q by {
                                if kk < names0.len() && k < names0.len() {
                                    if kk < k {
                                        assert(names@[kk]@ != names@[k as int]@);
                                    } else {
                                        assert(names@[k as int]@ != names@[kk]@);
                                    }
                                } else if kk < names0.len() {
                                    assert(names@[kk] == names0[kk]);
                                }
                            }
                            assert forall|kk: int| #![trigger names@[kk]] 0 <= kk < names@.len() implies {
                                &&& m1.dom().contains(names@[kk]@)
                                &&& tots@[kk].0 as nat == m1[names@[kk]@].nodes
                                &&& tots@[kk].1 as nat == m1[names@[kk]@].cpu_total
                                &&& tots@[kk].2 as nat == m1[names@[kk]@].mem_total
                                &&& tots@[kk].3 as nat == m1[names@[kk]@].gpu_total
                            } by {
                                if kk != k {
                                    assert(names@[kk] == names0[kk]);
                                    assert(mj.dom().contains(names0[kk]@));
                                }
                            }
                            assert forall|pp: Seq<char>| #![trigger m1.dom().contains(pp)] m1.dom().contains(
                                pp,
                            ) implies exists|kk: int| #![trigger names@[kk]] 0 <= kk < names@.len()
                                && names@[kk]@ == pp by {
                                if pp == q {
                                    assert(names@[k as int]@ == pp);
                                } else {
                                    assert(mj.dom().contains(pp));
                                    let kk = choose|kk: int| #![trigger names0[kk]] 0 <= kk < names0.len()
                                        && names0[kk]@ == pp;
                                    assert(names@[kk] == names0[kk]);
                                }
                            }
                            assert forall|a: int, bb: int| #![trigger names@[a], names@[bb]] 0 <= a < bb
                                < names@.len() implies names@[a]@ != names@[bb]@ by {
                                if bb < names0.len() {
                                    assert(names@[a] == names0[a]);
                                    assert(names@[bb] == names0[bb]);
                                } else {
                                    assert(names@[a] == names0[a]);
                                }
                            }
                        }
                    } else {
                        assert(tally_parts(m0, b.parts.take(j + 1), b, StateCat::Other) == mj);
                    }
                    j = j + 1;
                }
                assert(b.parts.take(parts.len() as int) == b.parts);
                assert(other(b) == StateCat::Other);
            },
        }
        i = i + 1;
    }
    assert(all.take(ls.len() as int) == all);
    proof {
        let full = tally_lines(all, other);
        assert forall|p: Seq<char>| #![trigger full.dom().contains(p)] full.dom().contains(p) implies {
            &&& full[p].nodes <= u32::MAX
            &&& full[p].cpu_total <= u64::MAX
            &&& full[p].mem_total <= u64::MAX
            &&& full[p].gpu_total <= u64::MAX
        } by {
            let k = choose|k: int| #![trigger names@[k]] 0 <= k < names@.len() && names@[k]@ == p;
            assert(tots@[k].0 as nat == full[names@[k]@].nodes);
        }
        assert forall|k: int| #![trigger node_lines(raw@)[k]] 0 <= k < node_lines(raw@).len() implies (
        match node_base(node_lines(raw@)[k]) {
            Some(b) => b.gpu_tot <= u64::MAX && b.gpu_used <= u64::MAX,
            None => true,
        }) by {
            assert(line_gpu_fits(all[k]));
        }
    }
    true
}

// ───────────────────────── what each state count counts ─────────────────────────

/// How many times `p` is listed in `ps`.
pub open spec fn occurrences(ps: Seq<Seq<char>>, p: Seq<char>) -> nat
    decreases ps.len(),
{
    if ps.len() == 0 {
        0
    } else {
        occurrences(ps.drop_last(), p) + if ps.last() == p {
            1nat
        } else {
            0nat
        }
    }
}

/// How many counted node lines in category `c` name the partition `p` (a line naming
/// it twice counts twice).
pub open spec fn count_named(ls: Seq<Seq<char>>, p: Seq<char>, c: StateCat) -> nat
    decreases ls.len(),
{
    if ls.len() == 0 {
        0
    } else {
        count_named(ls.drop_last(), p, c) + match node_base(ls.last()) {
            Some(b) => if node_cat(b) == c {
                occurrences(b.parts, p)
            } else {
                0nat
            },
            None => 0nat,
        }
    }
}

/// The count a tally keeps for category `c`.
pub open spec fn cat_count(t: Tally, c: StateCat) -> nat {
    match c {
        StateCat::Idle => t.idle,
        StateCat::Mix => t.mix,
        StateCat::Alloc => t.alloc,
        StateCat::Down => t.down,
        StateCat::Other => t.other,
    }
}

proof fn lemma_parts_counts(
    m: Map<Seq<char>, Tally>,
    ps: Seq<Seq<char>>,
    b: NodeBase,
    c: StateCat,
    p: Seq<char>,
    d: StateCat,
)
    requires
        p.len() > 0,
    ensures
        cat_count(tally_or_zero(tally_parts(m, ps, b, c), p), d) == cat_count(tally_or_zero(m, p), d)
            + if c == d {
            occurrences(ps, p)
        } else {
            0nat
        },
    decreases ps.len(),
{
    if ps.len() > 0 {
        lemma_parts_counts(m, ps.drop_last(), b, c, p, d);
        let m2 = tally_parts(m, ps.drop_last(), b, c);
        let q = ps.last();
        if q.len() > 0 && q == p {
            assert(tally_or_zero(m2.insert(q, bump(tally_or_zero(m2, q), b, c)), p) == bump(
                tally_or_zero(m2, p),
                b,
                c,
            ));
        } else if q.len() > 0 {
            assert(tally_or_zero(m2.insert(q, bump(tally_or_zero(m2, q), b, c)), p) == tally_or_zero(
                m2,
                p,
            ));
        }
    }
}

proof fn lemma_lines_counts(ls: Seq<Seq<char>>, p: Seq<char>, d: StateCat)
    requires
        p.len() > 0,
    ensures
        cat_count(tally_or_zero(tally_lines(ls, by_state()), p), d) == count_named(ls, p, d),
    decreases ls.len(),
{
    if ls.len() == 0 {
        assert(cat_count(zero_tally(), d) == 0);
    } else {
        lemma_lines_counts(ls.drop_last(), p, d);
        match node_base(ls.last()) {
            Some(b) => {
                lemma_parts_counts(tally_lines(ls.drop_last(), by_state()), b.parts, b, node_cat(b), p, d);
            },
            None => {},
        }
    }
}

/// Each state count of a partition counts the node lines of that state that name
/// the partition: its idle nodes are the idle lines naming it, its other nodes the
/// lines in no known state naming it, and so on.
pub proof fn law_partition_state_counts(raw: Seq<char>, p: Seq<char>)
    requires
        node_stats_map(raw).dom().contains(p),
        p.len() > 0,
    ensures
        node_stats_map(raw)[p].idle == count_named(node_lines(raw), p, StateCat::Idle),
        node_stats_map(raw)[p].mix == count_named(node_lines(raw), p, StateCat::Mix),
        node_stats_map(raw)[p].alloc == count_named(node_lines(raw), p, StateCat::Alloc),
        node_stats_map(raw)[p].down == count_named(node_lines(raw), p, StateCat::Down),
        node_stats_map(raw)[p].other == count_named(node_lines(raw), p, StateCat::Other),
{
    assert(by_state() == (|b: NodeBase| node_cat(b)));
    lemma_lines_counts(node_lines(raw), p, StateCat::Idle);
    lemma_lines_counts(node_lines(raw), p, StateCat::Mix);
    lemma_lines_counts(node_lines(raw), p, StateCat::Alloc);
    lemma_lines_counts(node_lines(raw), p, StateCat::Down);
    lemma_lines_counts(node_lines(raw), p, StateCat::Other);
}

// ───────────────────────── what each resource amount adds up ─────────────────────────

/// The amount `q` of a tally: its nodes (0), free and total CPUs (1, 2), free and total
/// memory (3, 4), free and total GPUs (5, 6).
spec fn amount(t: Tally, q: int) -> nat {
    if q == 0 {
        t.nodes
    } else if q == 1 {
        t.cpu_idle
    } else if q == 2 {
        t.cpu_total
    } else if q == 3 {
        t.mem_free
    } else if q == 4 {
        t.mem_total
    } else if q == 5 {
        t.gpu_free
    } else {
        t.gpu_total
    }
}

/// What one node brings to the amount `q` of each partition that it lists.
spec fn node_amount(b: NodeBase, c: StateCat, q: int) -> nat {
    let up = c != StateCat::Down;
    if q == 0 {
        1
    } else if q == 1 {
        if up {
            sat_sub(b.cpu_tot, b.cpu_alloc)
        } else {
            0
        }
    } else if q == 2 {
        b.cpu_tot
    } else if q == 3 {
        if up {
            sat_sub(b.mem_tot, b.mem_alloc)
        } else {
            0
        }
    } else if q == 4 {
        b.mem_tot
    } else if q == 5 {
        if up {
            sat_sub(b.gpu_tot, b.gpu_used)
        } else {
            0
        }
    } else {
        b.gpu_tot
    }
}

/// The sum of `f` over the counted node lines, each line taken once for every time it
/// lists the partition `p`.
pub open spec fn named_sum(ls: Seq<Seq<char>>, p: Seq<char>, f: spec_fn(NodeBase) -> nat) -> nat
    decreases ls.len(),
{
    if ls.len() == 0 {
        0
    } else {
        named_sum(ls.drop_last(), p, f) + match node_base(ls.last()) {
            Some(b) => occurrences(b.parts, p) * f(b),
            None => 0nat,
        }
    }
}

proof fn lemma_parts_amount(
    m: Map<Seq<char>, Tally>,
    ps: Seq<Seq<char>>,
    b: NodeBase,
    c: StateCat,
    p: Seq<char>,
    q: int,
)
    requires
        p.len() > 0,
    ensures
        amount(tally_or_zero(tally_parts(m, ps, b, c), p), q) == amount(tally_or_zero(m, p), q)
            + occurrences(ps, p) * node_amount(b, c, q),
    decreases ps.len(),
{
    if ps.len() == 0 {
        assert(occurrences(ps, p) == 0);
        assert(0 * node_amount(b, c, q) == 0) by (nonlinear_arith);
    } else {
        lemma_parts_amount(m, ps.drop_last(), b, c, p, q);
        let m2 = tally_parts(m, ps.drop_last(), b, c);
        let q2 = ps.last();
        let o = occurrences(ps.drop_last(), p);
        let v = node_amount(b, c, q);
        if q2 == p {
            assert(tally_or_zero(m2.insert(q2, bump(tally_or_zero(m2, q2), b, c)), p) == bump(
                tally_or_zero(m2, p),
                b,
                c,
            ));
            assert(amount(bump(tally_or_zero(m2, p), b, c), q) == amount(tally_or_zero(m2, p), q)
                + v);
            assert((o + 1) * v == o * v + v) by (nonlinear_arith);
        } else if q2.len() > 0 {
            assert(tally_or_zero(m2.insert(q2, bump(tally_or_zero(m2, q2), b, c)), p) == tally_or_zero(
                m2,
                p,
            ));
        }
    }
}

proof fn lemma_lines_amount(ls: Seq<Seq<char>>, p: Seq<char>, q: int)
    requires
        p.len() > 0,
    ensures
        amount(tally_or_zero(tally_lines(ls, by_state()), p), q) == named_sum(
            ls,
            p,
            |b: NodeBase| node_amount(b, node_cat(b), q),
        ),
    decreases ls.len(),
{
    if ls.len() == 0 {
        assert(amount(zero_tally(), q) == 0);
    } else {
        lemma_lines_amount(ls.drop_last(), p, q);
        match node_base(ls.last()) {
            Some(b) => {
                lemma_parts_amount(
                    tally_lines(ls.drop_last(), by_state()),
                    b.parts,
                    b,
                    node_cat(b),
                    p,
                    q,
                );
            },
            None => {},
        }
    }
}

/// Each resource amount of a partition adds up the node lines that name it: its
/// nodes count the lines, its total CPUs, memory and GPUs add up their `CPUTot`,
/// `RealMemory` and `Gres` GPUs, and its free CPUs, memory and GPUs add up, over the
/// lines whose node is not down, what is left after `CPUAlloc`, `AllocMem` and
/// `GresUsed` (never less than nothing).
pub proof fn law_partition_resources(raw: Seq<char>, p: Seq<char>)
    requires
        node_stats_map(raw).dom().contains(p),
        p.len() > 0,
    ensures
        ({
            let ls = node_lines(raw);
            let t = node_stats_map(raw)[p];
            &&& t.nodes == named_sum(ls, p, |b: NodeBase| 1nat)
            &&& t.cpu_total == named_sum(ls, p, |b: NodeBase| b.cpu_tot)
            &&& t.mem_total == named_sum(ls, p, |b: NodeBase| b.mem_tot)
            &&& t.gpu_total == named_sum(ls, p, |b: NodeBase| b.gpu_tot)
            &&& t.cpu_idle == named_sum(
                ls,
                p,
                |b: NodeBase|
                    if node_cat(b) == StateCat::Down {
                        0nat
                    } else {
                        sat_sub(b.cpu_tot, b.cpu_alloc)
                    },
            )
            &&& t.mem_free == named_sum(
                ls,
                p,
                |b: NodeBase|
                    if node_cat(b) == StateCat::Down {
                        0nat
                    } else {
                        sat_sub(b.mem_tot, b.mem_alloc)
                    },
            )
            &&& t.gpu_free == named_sum(
                ls,
                p,
                |b: NodeBase|
                    if node_cat(b) == StateCat::Down {
                        0nat
                    } else {
                        sat_sub(b.gpu_tot, b.gpu_used)
                    },
            )
        }),
{
    let ls = node_lines(raw);
    assert(by_state() == (|b: NodeBase| node_cat(b)));
    lemma_lines_amount(ls, p, 0);
    lemma_lines_amount(ls, p, 1);
    lemma_lines_amount(ls, p, 2);
    lemma_lines_amount(ls, p, 3);
    lemma_lines_amount(ls, p, 4);
    lemma_lines_amount(ls, p, 5);
    lemma_lines_amount(ls, p, 6);
    let t = node_stats_map(raw)[p];
    assert(tally_or_zero(tally_lines(ls, by_state()), p) == t);
    assert((|b: NodeBase| node_amount(b, node_cat(b), 0)) =~= (|b: NodeBase| 1nat));
    assert((|b: NodeBase| node_amount(b, node_cat(b), 2)) =~= (|b: NodeBase| b.cpu_tot));
    assert((|b: NodeBase| node_amount(b, node_cat(b), 4)) =~= (|b: NodeBase| b.mem_tot));
    assert((|b: NodeBase| node_amount(b, node_cat(b), 6)) =~= (|b: NodeBase| b.gpu_tot));
    assert((|b: NodeBase| node_amount(b, node_cat(b), 1)) =~= (|b: NodeBase|
        if node_cat(b) == StateCat::Down {
            0nat
        } else {
            sat_sub(b.cpu_tot, b.cpu_alloc)
        }));
    assert((|b: NodeBase| node_amount(b, node_cat(b), 3)) =~= (|b: NodeBase|
        if node_cat(b) == StateCat::Down {
            0nat
        } else {
            sat_sub(b.mem_tot, b.mem_alloc)
        }));
    assert((|b: NodeBase| node_amount(b, node_cat(b), 5)) =~= (|b: NodeBase|
        if node_cat(b) == StateCat::Down {
            0nat
        } else {
            sat_sub(b.gpu_tot, b.gpu_used)
        }));
    assert(amount(t, 0) == named_sum(ls, p, |b: NodeBase| node_amount(b, node_cat(b), 0)));
    assert(amount(t, 1) == named_sum(ls, p, |b: NodeBase| node_amount(b, node_cat(b), 1)));
    assert(amount(t, 2) == named_sum(ls, p, |b: NodeBase| node_amount(b, node_cat(b), 2)));
    assert(amount(t, 3) == named_sum(ls, p, |b: NodeBase| node_amount(b, node_cat(b), 3)));
    assert(amount(t, 4) == named_sum(ls, p, |b: NodeBase| node_amount(b, node_cat(b), 4)));
    assert(amount(t, 5) == named_sum(ls, p, |b: NodeBase| node_amount(b, node_cat(b), 5)));
    assert(amount(t, 6) == named_sum(ls, p, |b: NodeBase| node_amount(b, node_cat(b), 6)));
}


} // verus!
