//! Reading what the Slurm tools print: node and job records, queue lines, log tails.
use vstd::prelude::*;
use crate::text::{
    chars_of, contains_seq, contains_str, has_char, join, join_chars, lines, lines_of,
    replace, replace_chars, seqs, slice_of, split, split_chars, starts_with, starts_with_str,
    string_of, string_of_range, trim_chars_bounds, trim_end_char, trim_start_char,
    is_ascii_alpha,
};

verus! {

broadcast use vstd::string::group_string_axioms;

// ───────────────────────── data ─────────────────────────

/// One line of `squeue`.
#[derive(Clone, Default, Debug)]
pub struct QueueJob {
    pub job_id: String,
    pub user: String,
    pub name: String,
    pub partition: String,
    pub state: String,
    pub time: String,
    pub nodes: String,
    pub nodelist: String,
}

/// Node counts and free/total resources of one partition.
#[derive(Clone, Default, Debug)]
pub struct PartitionStats {
    pub partition: String,
    pub total_nodes: u32,
    pub idle_nodes: u32,
    pub mix_nodes: u32,
    pub alloc_nodes: u32,
    pub down_nodes: u32,
    pub other_nodes: u32,
    pub cpu_idle: u64,
    pub cpu_total: u64,
    pub mem_free_mb: u64,
    pub mem_total_mb: u64,
    pub gpu_free: u64,
    pub gpu_total: u64,
}

/// What `scontrol show job` tells of a running job, with the tail of its log.
#[derive(Clone, Default, Debug)]
pub struct JobDetail {
    pub job_id: String,
    pub name: String,
    pub user: String,
    pub node: String,
    pub elapsed: String,
    pub timelimit: String,
    pub cpus: String,
    pub mem: String,
    pub gpu: String,
    pub stdout: String,
    pub tail: String,
}

/// Everything one refresh shows.
#[derive(Clone, Default, Debug)]
pub struct SlurmData {
    pub queue_jobs: Vec<QueueJob>,
    pub partition_stats: Vec<PartitionStats>,
    pub idle_nodes: usize,
    pub mix_nodes: usize,
    pub alloc_nodes: usize,
    pub down_nodes: usize,
    pub job_details: Vec<JobDetail>,
    pub running_total: usize,
}

// ───────────────────────── squeue reasons ─────────────────────────

/// The short form of a pending reason such as `(Resources)`; anything not in
/// parentheses is kept as it is.
pub open spec fn shorten_reason_spec(r: Seq<char>) -> Seq<char> {
    if !starts_with(r, "("@) {
        r
    } else {
        let inner = trim_end_char(trim_start_char(r, '('), ')');
        if contains_seq(inner, "ReqNodeNotAvail"@) {
            "NodeNA"@
        } else if contains_seq(inner, "Resources"@) {
            "Rsrc"@
        } else if contains_seq(inner, "Priority"@) {
            "Prio"@
        } else if contains_seq(inner, "Dependency"@) {
            "Dep"@
        } else if contains_seq(inner, "QOSMax"@) {
            "QOS"@
        } else if inner.len() <= 8 {
            inner
        } else {
            inner.take(8)
        }
    }
}

pub fn shorten_reason(reason: &str) -> (r: String)
    ensures
        r@ == shorten_reason_spec(reason@),
{
    let v = chars_of(reason);
    if !starts_with_str(&v, "(") {
        return reason.to_owned();
    }
    let (a, b) = trim_chars_bounds(&v, 0, v.len(), '(', ')');
    assert(v@.subrange(0, v@.len() as int) == v@);
    let inner = slice_of(&v, a, b);
    if contains_str(&inner, "ReqNodeNotAvail") {
        "NodeNA".to_owned()
    } else if contains_str(&inner, "Resources") {
        "Rsrc".to_owned()
    } else if contains_str(&inner, "Priority") {
        "Prio".to_owned()
    } else if contains_str(&inner, "Dependency") {
        "Dep".to_owned()
    } else if contains_str(&inner, "QOSMax") {
        "QOS".to_owned()
    } else if inner.len() <= 8 {
        string_of(&inner)
    } else {
        string_of_range(&inner, 0, 8)
    }
}

// ───────────────────────── log tails ─────────────────────────

/// Where the escape-sequence scanner stands.
#[derive(PartialEq, Eq, Structural, Clone, Copy, Debug)]
pub enum ScanState {
    /// Plain text: characters are kept.
    Text,
    /// Just after an ESC.
    Escape,
    /// Inside `ESC [ ...`, until a letter ends it.
    Control,
}

/// One step of the scanner: the state and output after reading `c`.
pub open spec fn ansi_step(st: ScanState, c: char, out: Seq<char>) -> (Seq<char>, ScanState) {
    match st {
        ScanState::Text => if c == '\u{1b}' {
            (out, ScanState::Escape)
        } else {
            (out.push(c), ScanState::Text)
        },
        ScanState::Escape => if c == '[' {
            (out, ScanState::Control)
        } else {
            (out, ScanState::Text)
        },
        ScanState::Control => if is_ascii_alpha(c) || c == 'm' {
            (out, ScanState::Text)
        } else {
            (out, ScanState::Control)
        },
    }
}

/// The scanner run over all of `s`.
pub open spec fn ansi_scan(s: Seq<char>) -> (Seq<char>, ScanState)
    decreases s.len(),
{
    if s.len() == 0 {
        (Seq::<char>::empty(), ScanState::Text)
    } else {
        let (out, st) = ansi_scan(s.drop_last());
        ansi_step(st, s.last(), out)
    }
}

/// `s` without its escape sequences: an ESC and the character after it are dropped,
/// and an `ESC [` sequence is dropped up to and including its final letter.
pub open spec fn strip_ansi_spec(s: Seq<char>) -> Seq<char> {
    ansi_scan(s).0
}

pub fn strip_ansi_chars(v: &Vec<char>) -> (r: Vec<char>)
    ensures
        r@ == strip_ansi_spec(v@),
{
    let mut out: Vec<char> = Vec::new();
    let mut st = ScanState::Text;
    let mut i: usize = 0;
    assert(v@.take(0) == Seq::<char>::empty());
    while i < v.len()
        invariant
            i <= v.len(),
            (out@, st) == ansi_scan(v@.take(i as int)),
        decreases v.len() - i,
    {
        let c = v[i];
        assert(v@.take(i + 1).drop_last() == v@.take(i as int));
        assert(v@.take(i + 1).last() == c);
        match st {
            ScanState::Text => {
                if c == '\u{1b}' {
                    st = ScanState::Escape;
                } else {
                    out.push(c);
                }
            },
            ScanState::Escape => {
                if c == '[' {
                    st = ScanState::Control;
                } else {
                    st = ScanState::Text;
                }
            },
            ScanState::Control => {
                if ('a' <= c && c <= 'z') || ('A' <= c && c <= 'Z') || c == 'm' {
                    st = ScanState::Text;
                }
            },
        }
        i = i + 1;
    }
    assert(v@.take(v.len() as int) == v@);
    out
}

/// `s` without its escape sequences.
pub fn strip_ansi(s: &str) -> (r: String)
    ensures
        r@ == strip_ansi_spec(s@),
{
    let v = chars_of(s);
    let out = strip_ansi_chars(&v);
    string_of(&out)
}

/// The last non-empty piece, or nothing.
pub open spec fn last_nonempty(p: Seq<Seq<char>>) -> Seq<char>
    decreases p.len(),
{
    if p.len() == 0 {
        Seq::<char>::empty()
    } else if p.last().len() > 0 {
        p.last()
    } else {
        last_nonempty(p.drop_last())
    }
}

/// What a progress-bar line shows last: a line holding carriage returns keeps only
/// its last non-empty segment.
pub open spec fn cr_segment(line: Seq<char>) -> Seq<char> {
    if line.contains('\r') {
        last_nonempty(split(line, '\r'))
    } else {
        line
    }
}

/// A log tail as shown: escape sequences stripped, and each line reduced to what
/// its carriage returns leave visible.
pub open spec fn resolve_cr_spec(raw: Seq<char>) -> Seq<char> {
    join(lines(strip_ansi_spec(raw)).map_values(|l: Seq<char>| cr_segment(l)), seq!['\n'])
}

fn last_nonempty_exec(p: &Vec<Vec<char>>) -> (r: Vec<char>)
    ensures
        r@ == last_nonempty(seqs(p@)),
{
    let mut j = p.len();
    assert(seqs(p@).take(j as int) == seqs(p@));
    while j > 0 && p[j - 1].len() == 0
        invariant
            j <= p.len(),
            last_nonempty(seqs(p@)) == last_nonempty(seqs(p@).take(j as int)),
        decreases j,
    {
        assert(seqs(p@).take(j as int).drop_last() == seqs(p@).take(j - 1));
        assert(seqs(p@).take(j as int).last() == p@[j - 1]@);
        j = j - 1;
    }
    if j == 0 {
        Vec::new()
    } else {
        assert(seqs(p@).take(j as int).last() == p@[j - 1]@);
        slice_of(&p[j - 1], 0, p[j - 1].len())
    }
}

fn cr_segment_exec(line: &Vec<char>) -> (r: Vec<char>)
    ensures
        r@ == cr_segment(line@),
{
    if has_char(line, '\r') {
        let pieces = split_chars(line, '\r');
        last_nonempty_exec(&pieces)
    } else {
        slice_of(line, 0, line.len())
    }
}

/// Tidies a log tail: strips escape sequences and keeps, of each line, what its
/// carriage returns leave visible.
pub fn resolve_cr(raw: &str) -> (r: String)
    ensures
        r@ == resolve_cr_spec(raw@),
{
    let v = chars_of(raw);
    let cleaned = strip_ansi_chars(&v);
    let ls = lines_of(&cleaned);
    let mut shown: Vec<Vec<char>> = Vec::new();
    let mut i: usize = 0;
    while i < ls.len()
        invariant
            i <= ls.len(),
            seqs(ls@) == lines(cleaned@),
            seqs(shown@) == seqs(ls@).take(i as int).map_values(|l: Seq<char>| cr_segment(l)),
        decreases ls.len() - i,
    {
        let seg = cr_segment_exec(&ls[i]);
        let ghost old_shown = seqs(shown@);
        shown.push(seg);
        assert(seqs(shown@) =~= old_shown.push(cr_segment(seqs(ls@)[i as int])));
        assert(seqs(ls@).take(i + 1).map_values(|l: Seq<char>| cr_segment(l)) =~= seqs(
            ls@,
        ).take(i as int).map_values(|l: Seq<char>| cr_segment(l)).push(
            cr_segment(seqs(ls@)[i as int]),
        ));
        i = i + 1;
    }
    assert(seqs(ls@).take(ls.len() as int) == seqs(ls@));
    let nl = vec!['\n'];
    assert(nl@ == seq!['\n']);
    let joined = join_chars(&shown, &nl);
    string_of(&joined)
}

// ───────────────────────── log paths ─────────────────────────

/// A Slurm output-path template with `%j` and `%A` replaced by the job id and `%x`
/// by the job name.
pub open spec fn expand_stdout_spec(s: Seq<char>, id: Seq<char>, name: Seq<char>) -> Seq<char> {
    replace(replace(replace(s, "%j"@, id), "%A"@, id), "%x"@, name)
}

pub fn expand_stdout_path(stdout: &str, job_id: &str, job_name: &str) -> (r: String)
    ensures
        r@ == expand_stdout_spec(stdout@, job_id@, job_name@),
{
    let s = chars_of(stdout);
    let id = chars_of(job_id);
    let name = chars_of(job_name);
    let pj = chars_of("%j");
    let pa = chars_of("%A");
    let px = chars_of("%x");
    proof {
        reveal_strlit("%j");
        reveal_strlit("%A");
        reveal_strlit("%x");
    }
    let a = replace_chars(&s, &pj, &id);
    let b = replace_chars(&a, &pa, &id);
    let c = replace_chars(&b, &px, &name);
    string_of(&c)
}

// ───────────────────────── what tidying a log tail guarantees ─────────────────────────

proof fn lemma_scan_no_escape(s: Seq<char>)
    ensures
        !ansi_scan(s).0.contains('\u{1b}'),
    decreases s.len(),
{
    if s.len() > 0 {
        lemma_scan_no_escape(s.drop_last());
        let (out, st) = ansi_scan(s.drop_last());
        let r = ansi_step(st, s.last(), out).0;
        assert forall|i: int| 0 <= i < r.len() implies r[i] != '\u{1b}' by {
            if i < out.len() {
                assert(r[i] == out[i]);
            }
        }
    }
}

proof fn lemma_split_avoids(s: Seq<char>, d: char, c: char)
    requires
        !s.contains(c),
    ensures
        forall|i: int| 0 <= i < split(s, d).len() ==> !(#[trigger] split(s, d)[i]).contains(c),
    decreases s.len(),
{
    broadcast use crate::text::lemma_split_len;

    if s.len() > 0 {
        assert(!s.drop_last().contains(c)) by {
            if s.drop_last().contains(c) {
                let k = choose|k: int| 0 <= k < s.drop_last().len() && s.drop_last()[k] == c;
                assert(s[k] == c);
            }
        }
        lemma_split_avoids(s.drop_last(), d, c);
        let p = split(s.drop_last(), d);
        if s.last() != d {
            assert(s.last() != c) by {
                assert(s[s.len() - 1] == s.last());
            }
            assert forall|i: int| 0 <= i < split(s, d).len() implies !(#[trigger] split(s, d)[i]).contains(
                c,
            ) by {
                if i == p.len() - 1 {
                    let x = p.last().push(s.last());
                    assert forall|j: int| 0 <= j < x.len() implies x[j] != c by {
                        if j < x.len() - 1 {
                            assert(x[j] == p.last()[j]);
                        }
                    }
                }
            }
        }
    }
}

proof fn lemma_lines_avoid(s: Seq<char>, c: char)
    requires
        !s.contains(c),
    ensures
        forall|i: int| 0 <= i < lines(s).len() ==> !(#[trigger] lines(s)[i]).contains(c),
{
    broadcast use crate::text::lemma_split_len;

    lemma_split_avoids(s, '\n', c);
    let p = split(s, '\n');
    assert forall|i: int| 0 <= i < lines(s).len() implies !(#[trigger] lines(s)[i]).contains(c) by {
        if i < p.len() - 1 {
            let x = p[i];
            assert(lines(s)[i] == crate::text::strip_cr(x));
            if crate::text::strip_cr(x).contains(c) {
                let k = choose|k: int| 0 <= k < crate::text::strip_cr(x).len()
                    && crate::text::strip_cr(x)[k] == c;
                assert(x[k] == c);
            }
        } else {
            assert(lines(s)[i] == p.last());
            assert(p.last() == p[p.len() - 1]);
        }
    }
}

proof fn lemma_last_nonempty_piece(p: Seq<Seq<char>>, c: char)
    requires
        forall|i: int| 0 <= i < p.len() ==> !(#[trigger] p[i]).contains(c),
    ensures
        !last_nonempty(p).contains(c),
    decreases p.len(),
{
    if p.len() > 0 {
        assert(p.last() == p[p.len() - 1]);
        assert forall|i: int| 0 <= i < p.drop_last().len() implies !(#[trigger] p.drop_last()[i]).contains(
            c,
        ) by {
            assert(p.drop_last()[i] == p[i]);
        }
        lemma_last_nonempty_piece(p.drop_last(), c);
    }
}

proof fn lemma_join_avoids(p: Seq<Seq<char>>, sep: Seq<char>, c: char)
    requires
        forall|i: int| 0 <= i < p.len() ==> !(#[trigger] p[i]).contains(c),
        !sep.contains(c),
    ensures
        !join(p, sep).contains(c),
    decreases p.len(),
{
    if p.len() > 1 {
        assert forall|i: int| 0 <= i < p.drop_last().len() implies !(#[trigger] p.drop_last()[i]).contains(
            c,
        ) by {
            assert(p.drop_last()[i] == p[i]);
        }
        lemma_join_avoids(p.drop_last(), sep, c);
        let a = join(p.drop_last(), sep);
        let r = a + sep + p.last();
        assert(p.last() == p[p.len() - 1]);
        assert forall|k: int| 0 <= k < r.len() implies r[k] != c by {
            if k < a.len() {
                assert(r[k] == a[k]);
            } else if k < a.len() + sep.len() {
                assert(r[k] == sep[k - a.len()]);
            } else {
                assert(r[k] == p.last()[k - a.len() - sep.len()]);
            }
        }
    } else if p.len() == 1 {
        assert(p[0] == p[0]);
    }
}

/// A stripped text holds no escape character.
pub proof fn law_strip_ansi_leaves_no_escape(s: Seq<char>)
    ensures
        !strip_ansi_spec(s).contains('\u{1b}'),
{
    lemma_scan_no_escape(s);
}

/// A tidied log tail holds no carriage return and no escape character, so each of
/// its lines shows as one plain line.
pub proof fn law_tidied_tail_is_plain(raw: Seq<char>)
    ensures
        !resolve_cr_spec(raw).contains('\r'),
        !resolve_cr_spec(raw).contains('\u{1b}'),
{
    let clean = strip_ansi_spec(raw);
    lemma_scan_no_escape(raw);
    let ls = lines(clean);
    lemma_lines_avoid(clean, '\u{1b}');
    let segs = ls.map_values(|l: Seq<char>| cr_segment(l));
    assert forall|i: int| 0 <= i < segs.len() implies !(#[trigger] segs[i]).contains('\r')
        && !segs[i].contains('\u{1b}') by {
        let l = ls[i];
        assert(segs[i] == cr_segment(l));
        if l.contains('\r') {
            crate::text::lemma_split_no_delim(l, '\r');
            lemma_last_nonempty_piece(split(l, '\r'), '\r');
            lemma_split_avoids(l, '\r', '\u{1b}');
            lemma_last_nonempty_piece(split(l, '\r'), '\u{1b}');
        }
    }
    assert(!seq!['\n'].contains('\r'));
    assert(!seq!['\n'].contains('\u{1b}'));
    lemma_join_avoids(segs, seq!['\n'], '\r');
    lemma_join_avoids(segs, seq!['\n'], '\u{1b}');
}

/// `r` can be had from `s` by leaving characters out.
pub open spec fn subseq_of(r: Seq<char>, s: Seq<char>) -> bool
    decreases s.len(),
{
    if r.len() == 0 {
        true
    } else if s.len() == 0 {
        false
    } else if r.last() == s.last() {
        subseq_of(r.drop_last(), s.drop_last())
    } else {
        subseq_of(r, s.drop_last())
    }
}

proof fn lemma_subseq_extend(r: Seq<char>, s: Seq<char>, c: char)
    requires
        subseq_of(r, s),
    ensures
        subseq_of(r, s.push(c)),
    decreases s.len(), 1int,
{
    assert(s.push(c).drop_last() == s);
    if r.len() > 0 && r.last() == c {
        lemma_subseq_drop(r, s);
    }
}

proof fn lemma_subseq_drop(r: Seq<char>, s: Seq<char>)
    requires
        subseq_of(r, s),
        r.len() > 0,
    ensures
        subseq_of(r.drop_last(), s),
    decreases s.len(), 0int,
{
    let s2 = s.drop_last();
    assert(s2.push(s.last()) == s);
    if r.last() == s.last() {
        lemma_subseq_extend(r.drop_last(), s2, s.last());
    } else {
        lemma_subseq_drop(r, s2);
        lemma_subseq_extend(r.drop_last(), s2, s.last());
    }
}

proof fn lemma_scan_subseq(s: Seq<char>)
    ensures
        subseq_of(ansi_scan(s).0, s),
    decreases s.len(),
{
    if s.len() > 0 {
        lemma_scan_subseq(s.drop_last());
        let (out, st) = ansi_scan(s.drop_last());
        assert(s.drop_last().push(s.last()) == s);
        let r = ansi_step(st, s.last(), out).0;
        if r == out {
            lemma_subseq_extend(out, s.drop_last(), s.last());
        } else {
            assert(r == out.push(s.last()));
            assert(r.drop_last() == out);
        }
    }
}

proof fn lemma_scan_plain(s: Seq<char>)
    requires
        !s.contains('\u{1b}'),
    ensures
        ansi_scan(s) == (s, ScanState::Text),
    decreases s.len(),
{
    if s.len() > 0 {
        assert(!s.drop_last().contains('\u{1b}')) by {
            if s.drop_last().contains('\u{1b}') {
                let k = choose|k: int| 0 <= k < s.drop_last().len() && s.drop_last()[k] == '\u{1b}';
                assert(s[k] == '\u{1b}');
            }
        }
        lemma_scan_plain(s.drop_last());
        assert(s.last() != '\u{1b}') by {
            assert(s[s.len() - 1] == s.last());
        }
        assert(s.drop_last().push(s.last()) == s);
    } else {
        assert(s =~= Seq::<char>::empty());
    }
}

/// Stripping escape sequences only leaves characters out, changes nothing in a text
/// without escape characters, and stripping twice is stripping once.
pub proof fn law_strip_ansi_only_removes(s: Seq<char>)
    ensures
        subseq_of(strip_ansi_spec(s), s),
        !s.contains('\u{1b}') ==> strip_ansi_spec(s) == s,
        strip_ansi_spec(strip_ansi_spec(s)) == strip_ansi_spec(s),
{
    lemma_scan_subseq(s);
    if !s.contains('\u{1b}') {
        lemma_scan_plain(s);
    }
    lemma_scan_no_escape(s);
    lemma_scan_plain(strip_ansi_spec(s));
}

/// A nodelist (anything not in parentheses) is shown as it is; a pending reason in
/// parentheses is shortened to at most 8 characters: unavailable nodes to `NodeNA`,
/// waiting for resources to `Rsrc`, for priority to `Prio`, for a dependency to `Dep`,
/// a QOS limit to `QOS`, in that order of precedence, and any other reason to its first
/// 8 characters.
pub proof fn law_shorten_reason_table(r: Seq<char>)
    ensures
        !starts_with(r, "("@) ==> shorten_reason_spec(r) == r,
        starts_with(r, "("@) ==> shorten_reason_spec(r).len() <= 8,
        ({
            let inner = trim_end_char(trim_start_char(r, '('), ')');
            starts_with(r, "("@) ==> {
                &&& contains_seq(inner, "ReqNodeNotAvail"@) ==> shorten_reason_spec(r) == "NodeNA"@
                &&& !contains_seq(inner, "ReqNodeNotAvail"@) && contains_seq(inner, "Resources"@)
                    ==> shorten_reason_spec(r) == "Rsrc"@
                &&& !contains_seq(inner, "ReqNodeNotAvail"@) && !contains_seq(inner, "Resources"@)
                    && contains_seq(inner, "Priority"@) ==> shorten_reason_spec(r) == "Prio"@
                &&& !contains_seq(inner, "ReqNodeNotAvail"@) && !contains_seq(inner, "Resources"@)
                    && !contains_seq(inner, "Priority"@) && contains_seq(inner, "Dependency"@)
                    ==> shorten_reason_spec(r) == "Dep"@
                &&& !contains_seq(inner, "ReqNodeNotAvail"@) && !contains_seq(inner, "Resources"@)
                    && !contains_seq(inner, "Priority"@) && !contains_seq(inner, "Dependency"@)
                    && contains_seq(inner, "QOSMax"@) ==> shorten_reason_spec(r) == "QOS"@
                &&& !contains_seq(inner, "ReqNodeNotAvail"@) && !contains_seq(inner, "Resources"@)
                    && !contains_seq(inner, "Priority"@) && !contains_seq(inner, "Dependency"@)
                    && !contains_seq(inner, "QOSMax"@) ==> shorten_reason_spec(r) == inner.take(
                    if inner.len() < 8 {
                        inner.len() as int
                    } else {
                        8
                    },
                )
            }
        }),
{
    reveal_strlit("NodeNA");
    reveal_strlit("Rsrc");
    reveal_strlit("Prio");
    reveal_strlit("Dep");
    reveal_strlit("QOS");
    let inner = trim_end_char(trim_start_char(r, '('), ')');
    assert(inner.take(inner.len() as int) == inner);
}

} // verus!
