//! Past jobs (`sacct`), where a job's output went, and the commands that submit and
//! cancel jobs.
use vstd::prelude::*;
use crate::text::{
    chars_of, eq_ignore_ascii_case, eq_ignore_case_str, eq_str, extend_range, extend_str,
    has_char, join, join_chars, lemma_split_len, lines, lines_of, seqs, slice_of, split,
    split_chars, starts_with, starts_with_str, string_of, trim, trim_bounds, words, words_of,
};
use crate::scontrol::{lookup, parse_scontrol, scontrol_pairs};
use crate::slurm::{expand_stdout_path, expand_stdout_spec};

verus! {

broadcast use vstd::string::group_string_axioms;

// ───────────────────────── recent tasks ─────────────────────────

/// How many of the user's recent jobs the log picker offers.
pub const RECENT_JOBS: usize = 10;

/// A `JOBID|NAME|STATE` line as (job id, line to show): fields trimmed; none when it
/// has fewer than three fields, an empty id, or the id of a step (with a `.`).
pub open spec fn task_entry(line: Seq<char>) -> Option<(Seq<char>, Seq<char>)> {
    let parts = split(trim(line), '|');
    if parts.len() < 3 {
        None
    } else {
        let id = trim(parts[0]);
        if id.len() == 0 || id.contains('.') {
            None
        } else {
            Some((id, id + seq!['|'] + trim(parts[1]) + seq!['|'] + trim(parts[2])))
        }
    }
}

pub open spec fn entry_ids(out: Seq<(Seq<char>, Seq<char>)>) -> Seq<Seq<char>> {
    Seq::new(out.len(), |i: int| out[i].0)
}

/// Enough tasks were found: `limit` of them.
pub open spec fn tasks_done(out: Seq<(Seq<char>, Seq<char>)>, limit: nat) -> bool {
    out.len() >= limit
}

/// The tasks taken from lines read in order: each new top-level job once, until
/// enough are found.
pub open spec fn tasks_of(rl: Seq<Seq<char>>, limit: nat) -> Seq<(Seq<char>, Seq<char>)>
    decreases rl.len(),
{
    if rl.len() == 0 {
        Seq::empty()
    } else {
        let out = tasks_of(rl.drop_last(), limit);
        if tasks_done(out, limit) {
            out
        } else {
            match task_entry(rl.last()) {
                Some((id, text)) => if entry_ids(out).contains(id) {
                    out
                } else {
                    out.push((id, text))
                },
                None => out,
            }
        }
    }
}

/// The lines of `s`, last first.
pub open spec fn newest_first(ls: Seq<Seq<char>>) -> Seq<Seq<char>> {
    Seq::new(ls.len(), |k: int| ls[ls.len() - 1 - k])
}

/// The recent top-level jobs of an `sacct -X -n -P -o JobIDRaw,JobName,State`
/// listing: newest first, each job once, at most `limit` of them, joined by newlines;
/// an empty listing or an error is given back as it is.
pub open spec fn recent_tasks_spec(raw: Seq<char>, limit: nat) -> Seq<char> {
    if raw.len() == 0 || starts_with(raw, "Error"@) {
        raw
    } else {
        let out = tasks_of(newest_first(lines(raw)), limit);
        join(Seq::new(out.len(), |i: int| out[i].1), seq!['\n'])
    }
}

proof fn lemma_tasks_stay_done(rl: Seq<Seq<char>>, k: int, limit: nat)
    requires
        0 <= k <= rl.len(),
        tasks_done(tasks_of(rl.take(k), limit), limit),
    ensures
        tasks_of(rl, limit) == tasks_of(rl.take(k), limit),
    decreases rl.len() - k,
{
    if k < rl.len() {
        assert(rl.drop_last().take(k) == rl.take(k));
        lemma_tasks_stay_done(rl.drop_last(), k, limit);
    } else {
        assert(rl.take(k) == rl);
    }
}

fn task_entry_exec(line: &Vec<char>) -> (r: Option<(Vec<char>, Vec<char>)>)
    ensures
        match r {
            Some((id, text)) => task_entry(line@) == Some((id@, text@)),
            None => task_entry(line@) is None,
        },
{
    let (a, b) = trim_bounds(line, 0, line.len());
    assert(line@.subrange(0, line@.len() as int) == line@);
    let t = slice_of(line, a, b);
    let parts = split_chars(&t, '|');
    if parts.len() < 3 {
        return None;
    }
    assert(parts@[0]@ == seqs(parts@)[0]);
    assert(parts@[1]@ == seqs(parts@)[1]);
    assert(parts@[2]@ == seqs(parts@)[2]);
    let (i0, i1) = trim_bounds(&parts[0], 0, parts[0].len());
    assert(parts@[0]@.subrange(0, parts@[0]@.len() as int) == parts@[0]@);
    let id = slice_of(&parts[0], i0, i1);
    if id.len() == 0 || has_char(&id, '.') {
        return None;
    }
    let (n0, n1) = trim_bounds(&parts[1], 0, parts[1].len());
    assert(parts@[1]@.subrange(0, parts@[1]@.len() as int) == parts@[1]@);
    let (s0, s1) = trim_bounds(&parts[2], 0, parts[2].len());
    assert(parts@[2]@.subrange(0, parts@[2]@.len() as int) == parts@[2]@);
    let mut text = slice_of(&id, 0, id.len());
    assert(id@.subrange(0, id@.len() as int) == id@);
    text.push('|');
    extend_range(&mut text, &parts[1], n0, n1);
    text.push('|');
    extend_range(&mut text, &parts[2], s0, s1);
    Some((id, text))
}

/// The recent top-level jobs of an `sacct` listing (see `recent_tasks_spec`).
pub fn recent_tasks(raw: &str, limit: usize) -> (r: String)
    ensures
        r@ == recent_tasks_spec(raw@, limit as nat),
{
    let v = chars_of(raw);
    if v.len() == 0 || starts_with_str(&v, "Error") {
        return raw.to_owned();
    }
    let ls = lines_of(&v);
    let ghost rl = newest_first(seqs(ls@));
    let mut ids: Vec<Vec<char>> = Vec::new();
    let mut texts: Vec<Vec<char>> = Vec::new();
    let n = ls.len();
    let mut i: usize = 0;
    let mut done = limit == 0;
    assert(rl.take(0) == Seq::<Seq<char>>::empty());
    while i < n && !done
        invariant
            i <= n == ls.len(),
            rl == newest_first(seqs(ls@)),
            ids.len() == texts.len(),
            ({
                let out = tasks_of(rl.take(i as int), limit as nat);
                &&& out.len() == ids.len()
                &&& forall|k: int| 0 <= k < ids.len() ==> #[trigger] out[k] == (ids@[k]@, texts@[k]@)
            }),
            done == tasks_done(tasks_of(rl.take(i as int), limit as nat), limit as nat),
        decreases n - i,
    {
        let ghost out = tasks_of(rl.take(i as int), limit as nat);
        proof {
            assert(rl.take(i + 1).drop_last() == rl.take(i as int));
            assert(rl.take(i + 1).last() == ls@[n - 1 - i]@);
            assert(seqs(ids@) == entry_ids(out));
        }
        match task_entry_exec(&ls[n - 1 - i]) {
            Some((id, text)) => {
                let mut seen = false;
                let mut k: usize = 0;
                while k < ids.len()
                    invariant
                        k <= ids.len(),
                        seen ==> seqs(ids@).contains(id@),
                        !seen ==> forall|m: int| 0 <= m < k ==> #[trigger] ids@[m]@ != id@,
                    decreases ids.len() - k,
                {
                    if ids[k].len() == id.len() && crate::scontrol::slice_eq(&ids[k], &id) {
                        seen = true;
                        assert(seqs(ids@)[k as int] == id@);
                    }
                    k = k + 1;
                }
                if !seen {
                    proof {
                        assert(!seqs(ids@).contains(id@)) by {
                            if seqs(ids@).contains(id@) {
                                let m = choose|m: int| 0 <= m < seqs(ids@).len() && seqs(ids@)[m] == id@;
                                assert(ids@[m]@ == id@);
                            }
                        }
                    }
                    ids.push(id);
                    texts.push(text);
                    if ids.len() >= limit {
                        done = true;
                    }
                }
            },
            None => {},
        }
        i = i + 1;
    }
    proof {
        if done {
            lemma_tasks_stay_done(rl, i as int, limit as nat);
        } else {
            assert(rl.take(i as int) == rl);
        }
        assert(seqs(ls@) == lines(v@));
    }
    let nl = vec!['\n'];
    let joined = join_chars(&texts, &nl);
    proof {
        let out = tasks_of(rl, limit as nat);
        assert(rl == newest_first(lines(raw@)));
        assert(seqs(texts@) =~= Seq::new(out.len(), |i: int| out[i].1));
        assert(nl@ == seq!['\n']);
        assert(joined@ == recent_tasks_spec(raw@, limit as nat));
    }
    string_of(&joined)
}

// ───────────────────────── a job's output file ─────────────────────────

/// The output path that a job record names, expanded; none when the listing is empty
/// or an error, or names no path or `N/A`.
pub open spec fn stdout_from_scontrol_spec(job_id: Seq<char>, raw: Seq<char>) -> Option<Seq<char>> {
    if raw.len() == 0 || starts_with(raw, "Error"@) {
        None
    } else {
        let f = scontrol_pairs(raw);
        match lookup(f, "StdOut"@) {
            Some(s) => if s.len() > 0 && s != "N/A"@ {
                let name = match lookup(f, "JobName"@) {
                    Some(n) => n,
                    None => Seq::<char>::empty(),
                };
                Some(expand_stdout_spec(s, job_id, name))
            } else {
                None
            },
            None => None,
        }
    }
}

/// The output path of `job_id` from `scontrol show job`, if it names one.
pub fn stdout_from_scontrol(job_id: &str, raw: &str) -> (r: Option<String>)
    ensures
        match r {
            Some(p) => stdout_from_scontrol_spec(job_id@, raw@) == Some(p@),
            None => stdout_from_scontrol_spec(job_id@, raw@) is None,
        },
{
    proof {
        reveal_strlit("");
    }
    let v = chars_of(raw);
    if v.len() == 0 || starts_with_str(&v, "Error") {
        return None;
    }
    let f = parse_scontrol(raw);
    match f.get("StdOut") {
        Some(s) => {
            if s.len() > 0 && !eq_str(&s, "N/A") {
                let name = f.get_or("JobName", "");
                let path = string_of(&s);
                proof {
                    let fp = scontrol_pairs(raw@);
                    assert(f@ == fp);
                    assert(lookup(fp, "StdOut"@) == Some(s@));
                    assert(s@ != "N/A"@);
                    assert(name@ == match lookup(fp, "JobName"@) {
                        Some(n) => n,
                        None => Seq::<char>::empty(),
                    });
                }
                Some(expand_stdout_path(path.as_str(), job_id, name.as_str()))
            } else {
                None
            }
        },
        None => None,
    }
}

/// The first `sacct` line for `job_id` that names a usable output path: (path, job name).
pub open spec fn sacct_stdout(ls: Seq<Seq<char>>, job_id: Seq<char>) -> Option<(Seq<char>, Seq<char>)>
    decreases ls.len(),
{
    if ls.len() == 0 {
        None
    } else {
        let parts = split(trim(ls[0]), '|');
        let hit = if parts.len() < 3 {
            false
        } else {
            let s = trim(parts[2]);
            trim(parts[0]) == job_id && s.len() > 0 && s != "Unknown"@ && s != "N/A"@
        };
        if hit {
            Some((trim(parts[2]), trim(parts[1])))
        } else {
            sacct_stdout(ls.drop_first(), job_id)
        }
    }
}

pub open spec fn unable_msg(job_id: Seq<char>) -> Seq<char> {
    "Unable to resolve StdOut for job "@ + job_id
}

pub open spec fn none_msg(job_id: Seq<char>) -> Seq<char> {
    "No StdOut configured for job "@ + job_id
}

/// What an `sacct -j ID -X -n -P -o JobIDRaw,JobName,StdOut` listing says of the job's
/// output path.
pub open spec fn stdout_from_sacct_spec(job_id: Seq<char>, raw: Seq<char>) -> Result<Seq<char>, Seq<char>> {
    if raw.len() == 0 || starts_with(raw, "Error"@) {
        Err(unable_msg(job_id))
    } else {
        match sacct_stdout(lines(raw), job_id) {
            Some((s, name)) => Ok(expand_stdout_spec(s, job_id, name)),
            None => Err(none_msg(job_id)),
        }
    }
}

fn message(prefix: &str, job_id: &str) -> (r: String)
    ensures
        r@ == prefix@ + job_id@,
{
    let mut v = chars_of(prefix);
    extend_str(&mut v, job_id);
    string_of(&v)
}

/// The output path of `job_id` from `sacct`.
pub fn stdout_from_sacct(job_id: &str, raw: &str) -> (r: Result<String, String>)
    ensures
        match r {
            Ok(p) => stdout_from_sacct_spec(job_id@, raw@) == Ok::<Seq<char>, Seq<char>>(p@),
            Err(e) => stdout_from_sacct_spec(job_id@, raw@) == Err::<Seq<char>, Seq<char>>(e@),
        },
{
    let v = chars_of(raw);
    if v.len() == 0 || starts_with_str(&v, "Error") {
        return Err(message("Unable to resolve StdOut for job ", job_id));
    }
    let id = chars_of(job_id);
    let ls = lines_of(&v);
    let ghost all = seqs(ls@);
    let mut i: usize = 0;
    assert(all.skip(0) == all);
    while i < ls.len()
        invariant
            i <= ls.len(),
            all == seqs(ls@),
            all == lines(raw@),
            !(raw@.len() == 0 || starts_with(raw@, "Error"@)),
            id@ == job_id@,
            sacct_stdout(all, job_id@) == sacct_stdout(all.skip(i as int), job_id@),
        decreases ls.len() - i,
    {
        let ghost rest = all.skip(i as int);
        assert(rest[0] == ls@[i as int]@);
        assert(rest.drop_first() == all.skip(i + 1));
        let line = &ls[i];
        let (a, b) = trim_bounds(line, 0, line.len());
        assert(line@.subrange(0, line@.len() as int) == line@);
        let t = slice_of(line, a, b);
        let parts = split_chars(&t, '|');
        if parts.len() >= 3 {
            assert(parts@[0]@ == seqs(parts@)[0]);
            assert(parts@[1]@ == seqs(parts@)[1]);
            assert(parts@[2]@ == seqs(parts@)[2]);
            let (i0, i1) = trim_bounds(&parts[0], 0, parts[0].len());
            assert(parts@[0]@.subrange(0, parts@[0]@.len() as int) == parts@[0]@);
            let (n0, n1) = trim_bounds(&parts[1], 0, parts[1].len());
            assert(parts@[1]@.subrange(0, parts@[1]@.len() as int) == parts@[1]@);
            let (s0, s1) = trim_bounds(&parts[2], 0, parts[2].len());
            assert(parts@[2]@.subrange(0, parts@[2]@.len() as int) == parts@[2]@);
            let pid = slice_of(&parts[0], i0, i1);
            let out = slice_of(&parts[2], s0, s1);
            let same = pid.len() == id.len() && crate::scontrol::slice_eq(&pid, &id);
            proof {
                assert(t@ == trim(rest[0]));
                assert(seqs(parts@) == split(trim(rest[0]), '|'));
                assert(pid@ == trim(split(trim(rest[0]), '|')[0]));
                assert(out@ == trim(split(trim(rest[0]), '|')[2]));
            }
            if same && out.len() > 0 && !eq_str(&out, "Unknown") && !eq_str(&out, "N/A") {
                let name = slice_of(&parts[1], n0, n1);
                assert(name@ == trim(split(trim(rest[0]), '|')[1]));
                assert(sacct_stdout(rest, job_id@) == Some((out@, name@)));
                let p = string_of(&out);
                let n = string_of(&name);
                return Ok(expand_stdout_path(p.as_str(), job_id, n.as_str()));
            }
        }
        i = i + 1;
    }
    assert(all.skip(ls.len() as int) == Seq::<Seq<char>>::empty());
    Err(message("No StdOut configured for job ", job_id))
}

/// The output path of `job_id`: from its `scontrol` record when that names one, else
/// from `sacct` (whose listing is only read in that case).
pub fn resolve_job_stdout(job_id: &str, scontrol_raw: &str, sacct_raw: &str) -> (r: Result<
    String,
    String,
>)
    ensures
        match stdout_from_scontrol_spec(job_id@, scontrol_raw@) {
            Some(p) => r matches Ok(q) && q@ == p,
            None => match r {
                Ok(p) => stdout_from_sacct_spec(job_id@, sacct_raw@) == Ok::<Seq<char>, Seq<char>>(p@),
                Err(e) => stdout_from_sacct_spec(job_id@, sacct_raw@) == Err::<Seq<char>, Seq<char>>(e@),
            },
        },
{
    match stdout_from_scontrol(job_id, scontrol_raw) {
        Some(p) => Ok(p),
        None => stdout_from_sacct(job_id, sacct_raw),
    }
}

// ───────────────────────── submitting and cancelling ─────────────────────────

/// The `sbatch` command line for what was typed: its words, with `sbatch` put first
/// unless it is there already; nothing typed is an error.
pub open spec fn sbatch_argv(args: Seq<char>) -> Result<Seq<Seq<char>>, Seq<char>> {
    let ws = words(args);
    if ws.len() == 0 {
        Err("No arguments"@)
    } else if ws[0] == "sbatch"@ {
        Ok(ws)
    } else {
        Ok(seq!["sbatch"@] + ws)
    }
}

pub open spec fn strings_view(v: Seq<String>) -> Seq<Seq<char>> {
    Seq::new(v.len(), |i: int| v[i]@)
}

/// The command that submits a job (see `sbatch_argv`).
pub fn submit_job(args: &str) -> (r: Result<Vec<String>, String>)
    ensures
        match r {
            Ok(argv) => sbatch_argv(args@) == Ok::<Seq<Seq<char>>, Seq<char>>(strings_view(argv@)),
            Err(e) => sbatch_argv(args@) == Err::<Seq<Seq<char>>, Seq<char>>(e@),
        },
{
    let v = chars_of(args);
    let ws = words_of(&v);
    if ws.len() == 0 {
        return Err("No arguments".to_owned());
    }
    let mut argv: Vec<String> = Vec::new();
    assert(ws@[0]@ == seqs(ws@)[0]);
    if !eq_str(&ws[0], "sbatch") {
        argv.push("sbatch".to_owned());
    }
    let ghost start = strings_view(argv@);
    let mut i: usize = 0;
    while i < ws.len()
        invariant
            i <= ws.len(),
            strings_view(argv@) == start + seqs(ws@).take(i as int),
        decreases ws.len() - i,
    {
        let ghost before = strings_view(argv@);
        argv.push(string_of(&ws[i]));
        assert(strings_view(argv@) =~= before.push(ws@[i as int]@));
        assert(seqs(ws@).take(i + 1) =~= seqs(ws@).take(i as int).push(ws@[i as int]@));
        i = i + 1;
    }
    assert(seqs(ws@).take(ws.len() as int) == seqs(ws@));
    proof {
        if seqs(ws@)[0] != "sbatch"@ {
            assert(start == seq!["sbatch"@]);
        } else {
            assert(start =~= Seq::<Seq<char>>::empty());
        }
    }
    Ok(argv)
}

/// The `scancel` command line for what was typed: all of `user`'s jobs for `all` in
/// any case, else the given job.
pub open spec fn scancel_argv(val: Seq<char>, user: Seq<char>) -> Seq<Seq<char>> {
    if eq_ignore_ascii_case(val, "all"@) {
        seq!["scancel"@, "-u"@, user]
    } else {
        seq!["scancel"@, val]
    }
}

/// The command that cancels a job, or all of `user`'s jobs.
pub fn cancel_job(val: &str, user: &str) -> (r: Vec<String>)
    ensures
        strings_view(r@) == scancel_argv(val@, user@),
{
    let v = chars_of(val);
    let mut argv: Vec<String> = Vec::new();
    argv.push("scancel".to_owned());
    if eq_ignore_case_str(&v, "all") {
        argv.push("-u".to_owned());
        argv.push(user.to_owned());
    } else {
        argv.push(val.to_owned());
    }
    assert(strings_view(argv@) =~= scancel_argv(val@, user@));
    argv
}

// ───────────────────────── what the recent-jobs list guarantees ─────────────────────────

proof fn lemma_tasks_of_props(rl: Seq<Seq<char>>, limit: nat)
    ensures
        ({
            let out = tasks_of(rl, limit);
            &&& forall|i: int, j: int|
                0 <= i < j < out.len() ==> (#[trigger] out[i]).0 != (#[trigger] out[j]).0
            &&& forall|i: int|
                0 <= i < out.len() ==> (#[trigger] out[i]).0.len() > 0 && !out[i].0.contains('.')
            &&& out.len() <= limit
        }),
    decreases rl.len(),
{
    if rl.len() > 0 {
        lemma_tasks_of_props(rl.drop_last(), limit);
        let out = tasks_of(rl.drop_last(), limit);
        if !tasks_done(out, limit) {
            match task_entry(rl.last()) {
                Some((id, text)) => {
                    if !entry_ids(out).contains(id) {
                        let o2 = out.push((id, text));
                        assert forall|i: int, j: int| 0 <= i < j < o2.len() implies (#[trigger] o2[i]).0
                            != (#[trigger] o2[j]).0 by {
                            if j == out.len() {
                                assert(entry_ids(out)[i] == out[i].0);
                            }
                        }
                    }
                },
                None => {},
            }
        }
    }
}

/// The recent jobs are listed each once, without job steps, and no more of them than
/// the limit asks.
pub proof fn law_recent_tasks_distinct(raw: Seq<char>, limit: nat)
    ensures
        ({
            let out = tasks_of(newest_first(lines(raw)), limit);
            &&& forall|i: int, j: int|
                0 <= i < j < out.len() ==> (#[trigger] out[i]).0 != (#[trigger] out[j]).0
            &&& forall|i: int|
                0 <= i < out.len() ==> (#[trigger] out[i]).0.len() > 0 && !out[i].0.contains('.')
            &&& out.len() <= limit
        }),
{
    lemma_tasks_of_props(newest_first(lines(raw)), limit);
}

/// The command that submits a job always runs `sbatch`, and passes on every word
/// typed.
pub proof fn law_submit_runs_sbatch(args: Seq<char>)
    ensures
        sbatch_argv(args) matches Ok(v) ==> v.len() >= 1 && v[0] == "sbatch"@ && v.skip(
            v.len() - words(args).len(),
        ) == words(args),
        sbatch_argv(args) is Err <==> words(args).len() == 0,
{
    if words(args).len() > 0 && words(args)[0] != "sbatch"@ {
        let v = seq!["sbatch"@] + words(args);
        assert(v.skip(1) =~= words(args));
    } else if words(args).len() > 0 {
        assert(words(args).skip(0) == words(args));
    }
}

/// The cancel command: `all`, in any case, cancels every job of the user
/// (`scancel -u USER`); anything else is the job to cancel (`scancel JOB`).
pub proof fn law_cancel_command(val: Seq<char>, user: Seq<char>)
    ensures
        scancel_argv(val, user)[0] == "scancel"@,
        eq_ignore_ascii_case(val, "all"@) ==> scancel_argv(val, user) == seq!["scancel"@, "-u"@, user],
        !eq_ignore_ascii_case(val, "all"@) ==> scancel_argv(val, user) == seq!["scancel"@, val],
{
}

} // verus!
