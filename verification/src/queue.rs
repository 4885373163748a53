//! The job queue (`squeue`) and the details of running jobs (`scontrol show job`).
use vstd::prelude::*;
use crate::text::{
    chars_of, eq_str, lemma_split_len, lines, lines_of, seqs, slice_of, split, split_chars,
    starts_with, starts_with_str, string_of, trim, trim_bounds,
};
use crate::scontrol::{extract_gpu, gpu_from_keys, lookup, parse_scontrol, scontrol_pairs, tres_keys};
use crate::slurm::{resolve_cr, resolve_cr_spec, shorten_reason, shorten_reason_spec, JobDetail, QueueJob};
use crate::users::{
    assigned, cache_userid, getent_name, is_uid, resolve_user, userid_pair, UidCache,
};

verus! {

broadcast use vstd::string::group_string_axioms;

/// The texts that a list of string pairs holds.
pub open spec fn spairs(v: Seq<(String, String)>) -> Seq<(Seq<char>, Seq<char>)> {
    Seq::new(v.len(), |i: int| (v[i].0@, v[i].1@))
}

// ───────────────────────── squeue ─────────────────────────

/// The `|`-separated fields of the lines that hold at least eight of them.
pub open spec fn rows_of(ls: Seq<Seq<char>>) -> Seq<Seq<Seq<char>>>
    decreases ls.len(),
{
    if ls.len() == 0 {
        Seq::empty()
    } else {
        let parts = split(trim(ls.last()), '|');
        if parts.len() >= 8 {
            rows_of(ls.drop_last()).push(parts)
        } else {
            rows_of(ls.drop_last())
        }
    }
}

/// The rows of an `squeue -o %i|%u|%j|%P|%T|%M|%D|%R` listing; none when it is
/// empty or an error.
pub open spec fn queue_rows(out: Seq<char>) -> Seq<Seq<Seq<char>>> {
    if out.len() == 0 || starts_with(out, "Error"@) {
        Seq::empty()
    } else {
        rows_of(lines(out))
    }
}

/// The name that the login node's answer gives for `uid`, or the id itself.
pub open spec fn resolved_name(lookups: Seq<(Seq<char>, Seq<char>)>, uid: Seq<char>) -> Seq<char> {
    match getent_name(lookup(lookups, uid)) {
        Some(n) => n,
        None => uid,
    }
}

/// The user shown for the user field `x`, given the cache before the listing was read.
pub open spec fn row_user(
    cache: Seq<(Seq<char>, Seq<char>)>,
    lookups: Seq<(Seq<char>, Seq<char>)>,
    x: Seq<char>,
) -> Seq<char> {
    if !is_uid(x) {
        x
    } else {
        match lookup(cache, x) {
            Some(n) => n,
            None => resolved_name(lookups, x),
        }
    }
}

/// The cache after reading `rows`: every id among their users that it did not know is
/// added with the name it resolved to.
pub open spec fn cache_after(
    cache: Seq<(Seq<char>, Seq<char>)>,
    lookups: Seq<(Seq<char>, Seq<char>)>,
    rows: Seq<Seq<Seq<char>>>,
    q: Seq<char>,
) -> Option<Seq<char>> {
    if lookup(cache, q) is Some {
        lookup(cache, q)
    } else if is_uid(q) && exists|k: int| 0 <= k < rows.len() && #[trigger] rows[k][1] == q {
        Some(resolved_name(lookups, q))
    } else {
        None
    }
}

/// A queue row as a job.
pub open spec fn row_matches(
    j: QueueJob,
    row: Seq<Seq<char>>,
    cache: Seq<(Seq<char>, Seq<char>)>,
    lookups: Seq<(Seq<char>, Seq<char>)>,
) -> bool {
    &&& j.job_id@ == row[0]
    &&& j.user@ == row_user(cache, lookups, row[1])
    &&& j.name@ == row[2]
    &&& j.partition@ == row[3]
    &&& j.state@ == row[4]
    &&& j.time@ == row[5]
    &&& j.nodes@ == row[6]
    &&& j.nodelist@ == shorten_reason_spec(row[7])
}

/// The running jobs among `rows`, as (job id, user).
pub open spec fn running_of(
    rows: Seq<Seq<Seq<char>>>,
    cache: Seq<(Seq<char>, Seq<char>)>,
    lookups: Seq<(Seq<char>, Seq<char>)>,
) -> Seq<(Seq<char>, Seq<char>)>
    decreases rows.len(),
{
    if rows.len() == 0 {
        Seq::empty()
    } else {
        let r = rows.last();
        let before = running_of(rows.drop_last(), cache, lookups);
        if r[4] == "RUNNING"@ {
            before.push((r[0], row_user(cache, lookups, r[1])))
        } else {
            before
        }
    }
}

fn row_job(row: &Vec<Vec<char>>, user: String) -> (j: QueueJob)
    requires
        row.len() >= 8,
    ensures
        j.job_id@ == row@[0]@,
        j.user == user,
        j.name@ == row@[2]@,
        j.partition@ == row@[3]@,
        j.state@ == row@[4]@,
        j.time@ == row@[5]@,
        j.nodes@ == row@[6]@,
        j.nodelist@ == shorten_reason_spec(row@[7]@),
{
    let reason = string_of(&row[7]);
    QueueJob {
        job_id: string_of(&row[0]),
        user,
        name: string_of(&row[2]),
        partition: string_of(&row[3]),
        state: string_of(&row[4]),
        time: string_of(&row[5]),
        nodes: string_of(&row[6]),
        nodelist: shorten_reason(reason.as_str()),
    }
}

/// The answer for `uid` among the login node's answers, if there is one.
fn answer_for(lookups: &Vec<(String, String)>, uid: &Vec<char>) -> (r: Option<String>)
    ensures
        match r {
            Some(o) => lookup(spairs(lookups@), uid@) == Some(o@),
            None => lookup(spairs(lookups@), uid@) is None,
        },
{
    let ghost pv = spairs(lookups@);
    let mut j = lookups.len();
    assert(pv.take(j as int) == pv);
    while j > 0
        invariant
            j <= lookups.len(),
            pv == spairs(lookups@),
            lookup(pv, uid@) == lookup(pv.take(j as int), uid@),
        decreases j,
    {
        assert(pv.take(j as int).drop_last() == pv.take(j - 1));
        assert(pv.take(j as int).last() == pv[j - 1]);
        let k = chars_of(lookups[j - 1].0.as_str());
        let same = if k.len() == uid.len() {
            crate::scontrol::slice_eq(&k, uid)
        } else {
            false
        };
        if same {
            let o = chars_of(lookups[j - 1].1.as_str());
            return Some(string_of(&o));
        }
        j = j - 1;
    }
    None
}

/// Reads an `squeue` listing into jobs, resolving user ids through `cache` and, for
/// ids it does not know, through `lookups` (the login node's answers by id); also
/// gives the running jobs as (job id, user), in listing order.
pub fn parse_queue(squeue_out: &str, cache: &mut UidCache, lookups: &Vec<(String, String)>) -> (r: (
    Vec<QueueJob>,
    Vec<(String, String)>,
))
    ensures
        r.0.len() == queue_rows(squeue_out@).len(),
        forall|k: int|
            #![trigger r.0@[k]]
            0 <= k < r.0.len() ==> row_matches(
                r.0@[k],
                queue_rows(squeue_out@)[k],
                old(cache)@,
                spairs(lookups@),
            ),
        spairs(r.1@) == running_of(queue_rows(squeue_out@), old(cache)@, spairs(lookups@)),
        forall|q: Seq<char>|
            #![trigger lookup(final(cache)@, q)]
            lookup(final(cache)@, q) == cache_after(
                old(cache)@,
                spairs(lookups@),
                queue_rows(squeue_out@),
                q,
            ),
{
    let ghost c0 = cache@;
    let ghost lk = spairs(lookups@);
    let mut jobs: Vec<QueueJob> = Vec::new();
    let mut running: Vec<(String, String)> = Vec::new();
    let v = chars_of(squeue_out);
    if v.len() == 0 || starts_with_str(&v, "Error") {
        assert forall|q: Seq<char>| #![trigger lookup(cache@, q)] lookup(cache@, q) == cache_after(
            c0,
            lk,
            queue_rows(squeue_out@),
            q,
        ) by {}
        assert(spairs(running@) =~= Seq::<(Seq<char>, Seq<char>)>::empty());
        return (jobs, running);
    }
    let ls = lines_of(&v);
    let ghost all = seqs(ls@);
    let mut i: usize = 0;
    assert(all.take(0) == Seq::<Seq<char>>::empty());
    while i < ls.len()
        invariant
            i <= ls.len(),
            all == seqs(ls@),
            all == lines(squeue_out@),
            queue_rows(squeue_out@) == rows_of(all),
            lk == spairs(lookups@),
            jobs.len() == rows_of(all.take(i as int)).len(),
            forall|k: int|
                #![trigger jobs@[k]]
                0 <= k < jobs.len() ==> row_matches(
                    jobs@[k],
                    rows_of(all.take(i as int))[k],
                    c0,
                    lk,
                ),
            spairs(running@) == running_of(rows_of(all.take(i as int)), c0, lk),
            forall|q: Seq<char>|
                #![trigger lookup(cache@, q)]
                lookup(cache@, q) == cache_after(c0, lk, rows_of(all.take(i as int)), q),
        decreases ls.len() - i,
    {
        let ghost pre = all.take(i as int);
        let ghost rows_pre = rows_of(pre);
        proof {
            assert(all.take(i + 1).drop_last() == pre);
            assert(all.take(i + 1).last() == ls@[i as int]@);
        }
        let line = &ls[i];
        let (a, b) = trim_bounds(line, 0, line.len());
        assert(line@.subrange(0, line@.len() as int) == line@);
        let t = slice_of(line, a, b);
        let parts = split_chars(&t, '|');
        if parts.len() >= 8 {
            let ghost row = seqs(parts@);
            let ghost rows_new = rows_pre.push(row);
            assert(rows_of(all.take(i + 1)) == rows_new);
            let ghost x = row[1];
            let ghost before = cache@;
            let user_field = string_of(&parts[1]);
            let answer = answer_for(lookups, &parts[1]);
            let user = match &answer {
                Some(o) => resolve_user(cache, user_field.as_str(), Some(o.as_str())),
                None => resolve_user(cache, user_field.as_str(), None),
            };
            proof {
                assert(parts@[1]@ == x);
                let out = match answer {
                    Some(o) => Some(o@),
                    None => None,
                };
                assert(out == lookup(lk, x));
                assert(user@ == row_user(c0, lk, x)) by {
                    if is_uid(x) {
                        if lookup(before, x) is Some {
                            if lookup(c0, x) is None {
                                let k = choose|k: int| 0 <= k < rows_pre.len() && #[trigger] rows_pre[k][1] == x;
                            }
                        }
                    }
                }
                assert forall|q: Seq<char>| #![trigger lookup(cache@, q)] lookup(cache@, q)
                    == cache_after(c0, lk, rows_new, q) by {
                    assert(rows_new[rows_pre.len() as int] == row);
                    if q != x || !is_uid(x) {
                        if is_uid(q) && lookup(c0, q) is None {
                            if exists|k: int| 0 <= k < rows_new.len() && #[trigger] rows_new[k][1] == q {
                                let k = choose|k: int| 0 <= k < rows_new.len() && #[trigger] rows_new[k][1] == q;
                                assert(rows_pre[k] == rows_new[k]);
                            }
                        }
                        if exists|k: int| 0 <= k < rows_pre.len() && #[trigger] rows_pre[k][1] == q {
                            let k = choose|k: int| 0 <= k < rows_pre.len() && #[trigger] rows_pre[k][1] == q;
                            assert(rows_new[k] == rows_pre[k]);
                        }
                    } else {
                        if exists|k: int| 0 <= k < rows_pre.len() && #[trigger] rows_pre[k][1] == q {
                            let k = choose|k: int| 0 <= k < rows_pre.len() && #[trigger] rows_pre[k][1] == q;
                            assert(rows_new[k] == rows_pre[k]);
                        }
                    }
                }
            }
            assert(rows_new.drop_last() == rows_pre);
            assert(rows_new.last() == row);
            assert(parts@[4]@ == row[4]);
            assert(parts@[0]@ == row[0]);
            let is_running = eq_str(&parts[4], "RUNNING");
            if is_running {
                let id = string_of(&parts[0]);
                let u2 = string_of(&chars_of(user.as_str()));
                let ghost old_run = spairs(running@);
                running.push((id, u2));
                assert(spairs(running@) =~= old_run.push((row[0], row_user(c0, lk, x))));
            }
            let job = row_job(&parts, user);
            let ghost old_jobs = jobs@;
            jobs.push(job);
            proof {
                assert forall|k: int| #![trigger jobs@[k]] 0 <= k < jobs.len() implies row_matches(
                    jobs@[k],
                    rows_new[k],
                    c0,
                    lk,
                ) by {
                    if k < old_jobs.len() {
                        assert(jobs@[k] == old_jobs[k]);
                        assert(rows_new[k] == rows_pre[k]);
                    }
                }
            }
        } else {
            assert(rows_of(all.take(i + 1)) == rows_pre);
        }
        i = i + 1;
    }
    assert(all.take(ls.len() as int) == all);
    (jobs, running)
}

/// `q` is among the texts of `v`.
pub open spec fn listed(v: Seq<String>, q: Seq<char>) -> bool {
    exists|k: int| 0 <= k < v.len() && #[trigger] v[k]@ == q
}

/// `q` is an id that the cache does not know and that is the user field of a row.
pub open spec fn unknown_uid(
    cache: Seq<(Seq<char>, Seq<char>)>,
    rows: Seq<Seq<Seq<char>>>,
    q: Seq<char>,
) -> bool {
    is_uid(q) && lookup(cache, q) is None && exists|k: int|
        0 <= k < rows.len() && #[trigger] rows[k][1] == q
}

/// The ids that `parse_queue` would need the login node for: user fields that are ids,
/// not in the cache, each once, in order of appearance; none without a login node.
pub fn pending_lookups(squeue_out: &str, cache: &UidCache, login_node: &str) -> (r: Vec<String>)
    ensures
        forall|q: Seq<char>|
            #![trigger listed(r@, q)]
            #![trigger unknown_uid(cache@, queue_rows(squeue_out@), q)]
            listed(r@, q) <==> (login_node@.len() > 0 && unknown_uid(
                cache@,
                queue_rows(squeue_out@),
                q,
            )),
        forall|a: int, b: int| 0 <= a < b < r.len() ==> r@[a]@ != r@[b]@,
{
    let mut out: Vec<String> = Vec::new();
    let l = chars_of(login_node);
    let v = chars_of(squeue_out);
    if l.len() == 0 || v.len() == 0 || starts_with_str(&v, "Error") {
        proof {
            assert forall|q: Seq<char>| #![trigger listed(out@, q)] !listed(out@, q) by {}
            if l.len() != 0 {
                assert(queue_rows(squeue_out@).len() == 0);
            }
        }
        return out;
    }
    let ls = lines_of(&v);
    let ghost all = seqs(ls@);
    let mut i: usize = 0;
    assert(all.take(0) == Seq::<Seq<char>>::empty());
    while i < ls.len()
        invariant
            i <= ls.len(),
            all == seqs(ls@),
            queue_rows(squeue_out@) == rows_of(all),
            login_node@.len() > 0,
            forall|q: Seq<char>|
                #![trigger listed(out@, q)]
                #![trigger unknown_uid(cache@, rows_of(all.take(i as int)), q)]
                listed(out@, q) <==> unknown_uid(cache@, rows_of(all.take(i as int)), q),
            forall|a: int, b: int| 0 <= a < b < out.len() ==> out@[a]@ != out@[b]@,
        decreases ls.len() - i,
    {
        let ghost pre = all.take(i as int);
        let ghost rows_pre = rows_of(pre);
        proof {
            assert(all.take(i + 1).drop_last() == pre);
            assert(all.take(i + 1).last() == ls@[i as int]@);
        }
        let line = &ls[i];
        let (a, b) = trim_bounds(line, 0, line.len());
        assert(line@.subrange(0, line@.len() as int) == line@);
        let t = slice_of(line, a, b);
        let parts = split_chars(&t, '|');
        if parts.len() >= 8 {
            let ghost row = seqs(parts@);
            let ghost rows_new = rows_pre.push(row);
            assert(rows_of(all.take(i + 1)) == rows_new);
            let ghost x = row[1];
            assert(parts@[1]@ == x);
            let u = &parts[1];
            let wanted = u.len() > 0 && crate::text::all_digits_exec(u) && cache.get(u).is_none();
            let mut seen = false;
            let mut k: usize = 0;
            while k < out.len()
                invariant
                    k <= out.len(),
                    seen ==> listed(out@, u@),
                    !seen ==> forall|m: int| 0 <= m < k ==> #[trigger] out@[m]@ != u@,
                decreases out.len() - k,
            {
                let ok = chars_of(out[k].as_str());
                if ok.len() == u.len() && crate::scontrol::slice_eq(&ok, u) {
                    seen = true;
                    assert(out@[k as int]@ == u@);
                }
                k = k + 1;
            }
            let ghost old_out = out@;
            if wanted && !seen {
                out.push(string_of(u));
            }
            proof {
                assert(rows_new[rows_pre.len() as int][1] == x);
                assert forall|q: Seq<char>| #![trigger listed(out@, q)] listed(out@, q) implies unknown_uid(
                    cache@,
                    rows_new,
                    q,
                ) by {
                    let k = choose|k: int| 0 <= k < out@.len() && #[trigger] out@[k]@ == q;
                    if k < old_out.len() {
                        assert(old_out[k]@ == q);
                        assert(listed(old_out, q));
                        assert(unknown_uid(cache@, rows_pre, q));
                        let m = choose|m: int| 0 <= m < rows_pre.len() && #[trigger] rows_pre[m][1]
                            == q;
                        assert(rows_new[m] == rows_pre[m]);
                    }
                }
                assert forall|q: Seq<char>| #![trigger unknown_uid(cache@, rows_new, q)] unknown_uid(
                    cache@,
                    rows_new,
                    q,
                ) implies listed(out@, q) by {
                    let m = choose|m: int| 0 <= m < rows_new.len() && #[trigger] rows_new[m][1] == q;
                    if m < rows_pre.len() {
                        assert(rows_pre[m] == rows_new[m]);
                        assert(unknown_uid(cache@, rows_pre, q));
                        assert(listed(old_out, q));
                        let k = choose|k: int| 0 <= k < old_out.len() && #[trigger] old_out[k]@ == q;
                        assert(out@[k] == old_out[k]);
                    } else {
                        if seen {
                            assert(listed(old_out, q));
                            let k = choose|k: int| 0 <= k < old_out.len() && #[trigger] old_out[k]@
                                == q;
                            assert(out@[k] == old_out[k]);
                        } else {
                            assert(out@[old_out.len() as int]@ == q);
                        }
                    }
                }
            }
        } else {
            assert(rows_of(all.take(i + 1)) == rows_pre);
        }
        i = i + 1;
    }
    assert(all.take(ls.len() as int) == all);
    out
}


// ───────────────────────── running jobs ─────────────────────────

/// The pairs of `s` whose user is `u` (`want`) or is not (`!want`), in order.
pub open spec fn keep_user(s: Seq<(Seq<char>, Seq<char>)>, u: Seq<char>, want: bool) -> Seq<
    (Seq<char>, Seq<char>),
>
    decreases s.len(),
{
    if s.len() == 0 {
        Seq::empty()
    } else {
        let before = keep_user(s.drop_last(), u, want);
        if (s.last().1 == u) == want {
            before.push(s.last())
        } else {
            before
        }
    }
}

/// The running jobs with those of user `u` first, each group in its own order.
pub open spec fn mine_first(s: Seq<(Seq<char>, Seq<char>)>, u: Seq<char>) -> Seq<(Seq<char>, Seq<char>)> {
    keep_user(s, u, true) + keep_user(s, u, false)
}

fn keep_user_exec(s: &Vec<(String, String)>, u: &Vec<char>, want: bool, out: &mut Vec<(String, String)>)
    ensures
        spairs(final(out)@) == spairs(old(out)@) + keep_user(spairs(s@), u@, want),
{
    let ghost sv = spairs(s@);
    let ghost start = spairs(out@);
    let mut i: usize = 0;
    assert(sv.take(0) == Seq::<(Seq<char>, Seq<char>)>::empty());
    while i < s.len()
        invariant
            i <= s.len(),
            sv == spairs(s@),
            spairs(out@) == start + keep_user(sv.take(i as int), u@, want),
        decreases s.len() - i,
    {
        assert(sv.take(i + 1).drop_last() == sv.take(i as int));
        assert(sv.take(i + 1).last() == sv[i as int]);
        let uc = chars_of(s[i].1.as_str());
        let is_u = uc.len() == u.len() && crate::scontrol::slice_eq(&uc, u);
        if is_u == want {
            let a = string_of(&chars_of(s[i].0.as_str()));
            let b = string_of(&uc);
            let ghost before = spairs(out@);
            out.push((a, b));
            assert(spairs(out@) =~= before.push(sv[i as int]));
        }
        i = i + 1;
    }
    assert(sv.take(s.len() as int) == sv);
}

/// The running jobs reordered so that those of `current_user` come first; a stable
/// reorder.
pub fn order_running(running: &Vec<(String, String)>, current_user: &str) -> (r: Vec<(String, String)>)
    ensures
        spairs(r@) == mine_first(spairs(running@), current_user@),
{
    let u = chars_of(current_user);
    let mut out: Vec<(String, String)> = Vec::new();
    assert(spairs(out@) =~= Seq::<(Seq<char>, Seq<char>)>::empty());
    keep_user_exec(running, &u, true, &mut out);
    keep_user_exec(running, &u, false, &mut out);
    out
}

pub open spec fn shown_count(n: int, max_jobs: int) -> int {
    if n <= max_jobs {
        n
    } else {
        max_jobs
    }
}

/// The ids of the first `max_jobs` running jobs, whose details are shown.
pub fn first_job_ids(running: &Vec<(String, String)>, max_jobs: usize) -> (r: Vec<String>)
    ensures
        r.len() == shown_count(running.len() as int, max_jobs as int),
        forall|k: int| 0 <= k < r.len() ==> #[trigger] r@[k]@ == running@[k].0@,
{
    let n = if running.len() <= max_jobs {
        running.len()
    } else {
        max_jobs
    };
    let mut out: Vec<String> = Vec::new();
    let mut i: usize = 0;
    while i < n
        invariant
            i <= n <= running.len(),
            out.len() == i,
            forall|k: int| 0 <= k < i ==> #[trigger] out@[k]@ == running@[k].0@,
        decreases n - i,
    {
        out.push(string_of(&chars_of(running[i].0.as_str())));
        i = i + 1;
    }
    out
}

/// The user of job `job_id` among the first `max_jobs` running jobs (the last entry
/// for that id).
pub fn job_user_of(running: &Vec<(String, String)>, max_jobs: usize, job_id: &str) -> (r: Option<String>)
    ensures
        match r {
            Some(u) => lookup(spairs(running@).take(shown_count(running.len() as int, max_jobs as int)), job_id@) == Some(u@),
            None => lookup(spairs(running@).take(shown_count(running.len() as int, max_jobs as int)), job_id@) is None,
        },
{
    let n = if running.len() <= max_jobs {
        running.len()
    } else {
        max_jobs
    };
    let ghost pv = spairs(running@).take(n as int);
    let id = chars_of(job_id);
    let mut j = n;
    assert(pv.take(j as int) == pv);
    while j > 0
        invariant
            j <= n <= running.len(),
            pv == spairs(running@).take(n as int),
            n as int == shown_count(running.len() as int, max_jobs as int),
            lookup(pv, id@) == lookup(pv.take(j as int), id@),
            id@ == job_id@,
        decreases j,
    {
        assert(pv.take(j as int).drop_last() == pv.take(j - 1));
        assert(pv.take(j as int).last() == pv[j - 1]);
        let k = chars_of(running[j - 1].0.as_str());
        assert(pv[j - 1] == (running@[j - 1].0@, running@[j - 1].1@));
        if k.len() == id.len() && crate::scontrol::slice_eq(&k, &id) {
            return Some(string_of(&chars_of(running[j - 1].1.as_str())));
        }
        j = j - 1;
    }
    None
}

/// How many log lines to read for a job: 6 for the current user's jobs, else 3.
pub fn tail_count(job_user: Option<&str>, current_user: &str) -> (n: u32)
    ensures
        n == (if job_user matches Some(u) && u@ == current_user@ {
            6u32
        } else {
            3u32
        }),
{
    match job_user {
        Some(u) => {
            let a = chars_of(u);
            let b = chars_of(current_user);
            if a.len() == b.len() && crate::scontrol::slice_eq(&a, &b) {
                6
            } else {
                3
            }
        },
        None => 3,
    }
}

// ───────────────────────── job details ─────────────────────────

pub open spec fn field_or(f: Seq<(Seq<char>, Seq<char>)>, key: Seq<char>, default: Seq<char>) -> Seq<char> {
    match lookup(f, key) {
        Some(v) => v,
        None => default,
    }
}

/// The `UserId` field of a job record (`N/A` when missing).
pub open spec fn userid_field(raw: Seq<char>) -> Seq<char> {
    field_or(scontrol_pairs(raw), "UserId"@, "N/A"@)
}

/// Starts reading a job record: what its `UserId` field teaches is remembered, and the
/// user field to resolve (the part before `(`) is returned; a record that is an error
/// gives nothing.
pub fn learn_job_user(cache: &mut UidCache, raw: &str) -> (r: Option<String>)
    ensures
        starts_with(raw@, "Error"@) ==> r is None && final(cache)@ == old(cache)@,
        !starts_with(raw@, "Error"@) ==> (r matches Some(k) && k@ == split(
            userid_field(raw@),
            '(',
        )[0]),
        !starts_with(raw@, "Error"@) ==> match userid_pair(userid_field(raw@)) {
            Some((uid, name)) => assigned(old(cache)@, final(cache)@, uid, name),
            None => final(cache)@ == old(cache)@,
        },
{
    let v = chars_of(raw);
    if starts_with_str(&v, "Error") {
        return None;
    }
    let f = parse_scontrol(raw);
    let field = f.get_or("UserId", "N/A");
    cache_userid(cache, field.as_str());
    let fv = chars_of(field.as_str());
    let pieces = split_chars(&fv, '(');
    proof {
        lemma_split_len(fv@, '(');
    }
    assert(pieces@[0]@ == seqs(pieces@)[0]);
    Some(string_of(&pieces[0]))
}

/// The job details that a record shows, with the log path to tail (none when the
/// record names no log or `N/A`).
pub open spec fn detail_matches(d: JobDetail, jid: Seq<char>, raw: Seq<char>, user: Seq<char>) -> bool {
    let f = scontrol_pairs(raw);
    &&& d.job_id@ == jid
    &&& d.name@ == field_or(f, "JobName"@, "N/A"@)
    &&& d.user@ == user
    &&& d.node@ == field_or(f, "NodeList"@, "N/A"@)
    &&& d.elapsed@ == field_or(f, "RunTime"@, "N/A"@)
    &&& d.timelimit@ == field_or(f, "TimeLimit"@, "N/A"@)
    &&& d.cpus@ == field_or(f, "NumCPUs"@, "N/A"@)
    &&& d.mem@ == (match lookup(f, "MinMemoryNode"@) {
        Some(m) => m,
        None => field_or(f, "MinMemoryCPU"@, "N/A"@),
    })
    &&& d.gpu@ == gpu_from_keys(f, tres_keys())
    &&& d.stdout@ == field_or(f, "StdOut"@, Seq::<char>::empty())
    &&& d.tail@ == Seq::<char>::empty()
}

/// Finishes reading a job record, with `user_key` as `learn_job_user` gave it and the
/// login node's answer for it when `needs_lookup` asked for one.
pub fn job_detail(
    job_id: &str,
    raw: &str,
    cache: &mut UidCache,
    user_key: &str,
    lookup_output: Option<&str>,
) -> (r: (JobDetail, Option<String>))
    ensures
        detail_matches(r.0, job_id@, raw@, r.0.user@),
        r.1 matches Some(p) ==> p@ == r.0.stdout@,
        r.1 is None <==> (r.0.stdout@.len() == 0 || r.0.stdout@ == "N/A"@),
        ({
            let out = match lookup_output {
                Some(o) => Some(o@),
                None => None,
            };
            &&& !is_uid(user_key@) ==> r.0.user@ == user_key@ && final(cache)@ == old(cache)@
            &&& is_uid(user_key@) && lookup(old(cache)@, user_key@) is Some ==> r.0.user@ == lookup(
                old(cache)@,
                user_key@,
            )->0 && final(cache)@ == old(cache)@
            &&& is_uid(user_key@) && lookup(old(cache)@, user_key@) is None ==> {
                let n = match getent_name(out) {
                    Some(n) => n,
                    None => user_key@,
                };
                r.0.user@ == n && assigned(old(cache)@, final(cache)@, user_key@, n)
            }
        }),
{
    proof {
        reveal_strlit("");
    }
    let f = parse_scontrol(raw);
    let user = resolve_user(cache, user_key, lookup_output);
    let name = f.get_or("JobName", "N/A");
    let node = f.get_or("NodeList", "N/A");
    let elapsed = f.get_or("RunTime", "N/A");
    let timelimit = f.get_or("TimeLimit", "N/A");
    let cpus = f.get_or("NumCPUs", "N/A");
    let mem = match f.get("MinMemoryNode") {
        Some(m) => string_of(&m),
        None => f.get_or("MinMemoryCPU", "N/A"),
    };
    let gpu = extract_gpu(&f);
    let stdout = f.get_or("StdOut", "");
    let sv = chars_of(stdout.as_str());
    let path = if sv.len() == 0 || eq_str(&sv, "N/A") {
        None
    } else {
        Some(string_of(&sv))
    };
    let d = JobDetail {
        job_id: job_id.to_owned(),
        name,
        user,
        node,
        elapsed,
        timelimit,
        cpus,
        mem,
        gpu,
        stdout,
        tail: String::new(),
    };
    proof {
        let fp = scontrol_pairs(raw@);
        assert(f@ == fp);
        assert(d.name@ == field_or(fp, "JobName"@, "N/A"@));
        assert(d.mem@ == (match lookup(fp, "MinMemoryNode"@) {
            Some(m) => m,
            None => field_or(fp, "MinMemoryCPU"@, "N/A"@),
        }));
        assert(d.gpu@ == gpu_from_keys(fp, tres_keys()));
        assert(d.stdout@ == field_or(fp, "StdOut"@, Seq::<char>::empty()));
        assert(d.tail@ == Seq::<char>::empty());
    }
    (d, path)
}

/// Puts a job's log tail in place, tidied, unless reading it failed.
pub fn set_tail(detail: &mut JobDetail, tail_out: &str)
    ensures
        starts_with(tail_out@, "Error"@) ==> *final(detail) == *old(detail),
        !starts_with(tail_out@, "Error"@) ==> final(detail).tail@ == resolve_cr_spec(tail_out@),
{
    let v = chars_of(tail_out);
    if !starts_with_str(&v, "Error") {
        detail.tail = resolve_cr(tail_out);
    }
}

// ───────────────────────── what the ordering of running jobs keeps ─────────────────────────

proof fn lemma_keep_user_split(s: Seq<(Seq<char>, Seq<char>)>, u: Seq<char>)
    ensures
        keep_user(s, u, true).to_multiset().add(keep_user(s, u, false).to_multiset())
            =~= s.to_multiset(),
        forall|i: int|
            0 <= i < keep_user(s, u, true).len() ==> (#[trigger] keep_user(s, u, true)[i]).1 == u,
        forall|i: int|
            0 <= i < keep_user(s, u, false).len() ==> (#[trigger] keep_user(s, u, false)[i]).1 != u,
    decreases s.len(),
{
    broadcast use vstd::seq_lib::group_to_multiset_ensures;
    broadcast use vstd::multiset::group_multiset_axioms;

    if s.len() == 0 {
        assert(keep_user(s, u, true) =~= Seq::<(Seq<char>, Seq<char>)>::empty());
        assert(keep_user(s, u, false) =~= Seq::<(Seq<char>, Seq<char>)>::empty());
    } else {
        lemma_keep_user_split(s.drop_last(), u);
        assert(s.drop_last().push(s.last()) == s);
    }
}

/// Putting the current user's running jobs first only reorders them: the same jobs,
/// the user's own ahead of all others, each group in its listing order.
pub proof fn law_mine_first_reorders(s: Seq<(Seq<char>, Seq<char>)>, u: Seq<char>)
    ensures
        mine_first(s, u).to_multiset() =~= s.to_multiset(),
        mine_first(s, u).len() == s.len(),
        forall|i: int|
            0 <= i < mine_first(s, u).len() ==> ((#[trigger] mine_first(s, u)[i]).1 == u <==> i
                < keep_user(s, u, true).len()),
{
    broadcast use vstd::seq_lib::group_to_multiset_ensures;

    lemma_keep_user_split(s, u);
    vstd::seq_lib::lemma_multiset_commutative(keep_user(s, u, true), keep_user(s, u, false));
    let a = keep_user(s, u, true);
    let b = keep_user(s, u, false);
    assert(mine_first(s, u).to_multiset().len() == s.to_multiset().len());
    assert forall|i: int| 0 <= i < mine_first(s, u).len() implies ((#[trigger] mine_first(s, u)[i]).1
        == u <==> i < a.len()) by {
        if i < a.len() {
            assert(mine_first(s, u)[i] == a[i]);
        } else {
            assert(mine_first(s, u)[i] == b[i - a.len()]);
        }
    }
}

} // verus!
