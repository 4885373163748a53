use slurm_tui::queue::{
    first_job_ids, job_detail, job_user_of, learn_job_user, order_running, parse_queue,
    pending_lookups, set_tail, tail_count,
};
use slurm_tui::users::UidCache;

const SQUEUE: &str = "101|alice|train|gpu|RUNNING|1:00|1|n1\n\
102|1001|eval|cpu|PENDING|0:00|1|(Resources)\n\
bad|line\n\
  103|1001|prep|cpu|RUNNING|2:00|2|n[2-3]  \n";

fn pairs(v: &[(&str, &str)]) -> Vec<(String, String)> {
    v.iter().map(|(a, b)| (a.to_string(), b.to_string())).collect()
}

#[test]
fn parse_queue_reads_rows_and_resolves_users() {
    let mut cache = UidCache::new();
    let lookups = pairs(&[("1001", "bob:x:1001:1001::/home/bob:/bin/bash")]);
    let (jobs, running) = parse_queue(SQUEUE, &mut cache, &lookups);
    assert_eq!(jobs.len(), 3);
    assert_eq!(jobs[0].job_id, "101");
    assert_eq!(jobs[0].user, "alice");
    assert_eq!(jobs[1].user, "bob");
    assert_eq!(jobs[1].name, "eval");
    assert_eq!(jobs[1].partition, "cpu");
    assert_eq!(jobs[1].state, "PENDING");
    assert_eq!(jobs[1].nodelist, "Rsrc");
    assert_eq!(jobs[2].time, "2:00");
    assert_eq!(jobs[2].nodes, "2");
    assert_eq!(jobs[2].nodelist, "n[2-3]");
    assert_eq!(running, pairs(&[("101", "alice"), ("103", "bob")]));
    assert_eq!(cache.get(&"1001".chars().collect()).map(|v| v.into_iter().collect::<String>()), Some("bob".to_string()));
}

#[test]
fn parse_queue_empty_or_error() {
    let mut cache = UidCache::new();
    let (jobs, running) = parse_queue("", &mut cache, &Vec::new());
    assert!(jobs.is_empty() && running.is_empty());
    let (jobs, _) = parse_queue("Error: squeue missing", &mut cache, &Vec::new());
    assert!(jobs.is_empty());
}

#[test]
fn parse_queue_without_lookup_keeps_id() {
    let mut cache = UidCache::new();
    let (jobs, _) = parse_queue(SQUEUE, &mut cache, &Vec::new());
    assert_eq!(jobs[1].user, "1001");
}

#[test]
fn pending_lookups_lists_unknown_ids_once() {
    let mut cache = UidCache::new();
    assert_eq!(pending_lookups(SQUEUE, &cache, "login1"), vec!["1001".to_string()]);
    assert!(pending_lookups(SQUEUE, &cache, "").is_empty());
    cache.set(&"1001".chars().collect(), &"bob".chars().collect());
    assert!(pending_lookups(SQUEUE, &cache, "login1").is_empty());
}

#[test]
fn order_running_puts_current_user_first() {
    let running = pairs(&[("101", "alice"), ("103", "bob"), ("104", "alice"), ("105", "bob")]);
    assert_eq!(
        order_running(&running, "bob"),
        pairs(&[("103", "bob"), ("105", "bob"), ("101", "alice"), ("104", "alice")])
    );
    assert_eq!(order_running(&running, "nobody"), running);
}

#[test]
fn first_job_ids_and_job_user_of() {
    let running = pairs(&[("101", "alice"), ("103", "bob"), ("104", "carol")]);
    assert_eq!(first_job_ids(&running, 2), vec!["101".to_string(), "103".to_string()]);
    assert_eq!(first_job_ids(&running, 9).len(), 3);
    assert_eq!(job_user_of(&running, 2, "103"), Some("bob".to_string()));
    assert_eq!(job_user_of(&running, 2, "104"), None);
    assert_eq!(job_user_of(&running, 1, "103"), None);
}

#[test]
fn tail_count_six_for_own_jobs() {
    assert_eq!(tail_count(Some("bob"), "bob"), 6);
    assert_eq!(tail_count(Some("alice"), "bob"), 3);
    assert_eq!(tail_count(None, "bob"), 3);
}

const JOB: &str = "JobId=5 JobName=train UserId=carol(1500) GroupId=g(1) RunTime=00:10:00 \
TimeLimit=01:00:00 NodeList=n1 NumCPUs=4 MinMemoryNode=8G TresPerNode=gres:gpu:2\n   \
StdOut=/logs/train-5.out";

#[test]
fn learn_job_user_reads_user_field() {
    let mut cache = UidCache::new();
    assert_eq!(learn_job_user(&mut cache, JOB), Some("carol".to_string()));
    assert_eq!(cache.get(&"1500".chars().collect()).map(|v| v.into_iter().collect::<String>()), Some("carol".to_string()));
    assert_eq!(learn_job_user(&mut cache, "Error: invalid job id"), None);
    assert_eq!(learn_job_user(&mut cache, "JobId=9"), Some("N/A".to_string()));
}

#[test]
fn job_detail_fields() {
    let mut cache = UidCache::new();
    let (d, path) = job_detail("5", JOB, &mut cache, "carol", None);
    assert_eq!(d.job_id, "5");
    assert_eq!(d.name, "train");
    assert_eq!(d.user, "carol");
    assert_eq!(d.node, "n1");
    assert_eq!(d.elapsed, "00:10:00");
    assert_eq!(d.timelimit, "01:00:00");
    assert_eq!(d.cpus, "4");
    assert_eq!(d.mem, "8G");
    assert_eq!(d.gpu, "2");
    assert_eq!(d.stdout, "/logs/train-5.out");
    assert_eq!(d.tail, "");
    assert_eq!(path, Some("/logs/train-5.out".to_string()));
}

#[test]
fn job_detail_defaults_and_no_log() {
    let mut cache = UidCache::new();
    let (d, path) = job_detail("6", "JobId=6 MinMemoryCPU=2G StdOut=N/A", &mut cache, "4242", Some("dave:x:4242"));
    assert_eq!(d.name, "N/A");
    assert_eq!(d.node, "N/A");
    assert_eq!(d.cpus, "N/A");
    assert_eq!(d.mem, "2G");
    assert_eq!(d.gpu, "");
    assert_eq!(d.user, "dave");
    assert_eq!(path, None);
    let (d, path) = job_detail("7", "JobId=7", &mut cache, "N/A", None);
    assert_eq!(d.mem, "N/A");
    assert_eq!(d.stdout, "");
    assert_eq!(d.user, "N/A");
    assert_eq!(path, None);
}

#[test]
fn set_tail_tidies_or_keeps() {
    let mut cache = UidCache::new();
    let (mut d, _) = job_detail("5", JOB, &mut cache, "carol", None);
    set_tail(&mut d, "step 1\rstep 2\n\x1b[32mdone\x1b[0m");
    assert_eq!(d.tail, "step 2\ndone");
    set_tail(&mut d, "Error: no such file");
    assert_eq!(d.tail, "step 2\ndone");
}
