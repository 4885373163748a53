use slurm_tui::tasks::{
    RECENT_JOBS, cancel_job, recent_tasks, resolve_job_stdout, stdout_from_sacct, stdout_from_scontrol,
    submit_job,
};

const SACCT: &str = "100|a|COMPLETED\n100.batch|batch|COMPLETED\n101| b |FAILED\n102|c|RUNNING\n101|b|FAILED\nshort|x\n|empty|X";

#[test]
fn recent_tasks_newest_first_distinct_no_steps() {
    assert_eq!(recent_tasks(SACCT, 10), "101|b|FAILED\n102|c|RUNNING\n100|a|COMPLETED");
}

#[test]
fn recent_tasks_limit() {
    assert_eq!(recent_tasks(SACCT, 2), "101|b|FAILED\n102|c|RUNNING");
    assert_eq!(recent_tasks(SACCT, 1), "101|b|FAILED");
    assert_eq!(recent_tasks(SACCT, 0), "");
}

#[test]
fn recent_tasks_error_or_empty_passes_through() {
    assert_eq!(recent_tasks("Error: sacct failed", 5), "Error: sacct failed");
    assert_eq!(recent_tasks("", 5), "");
    assert_eq!(recent_tasks("a|b", 5), "");
}

#[test]
fn stdout_from_scontrol_expands_path() {
    let raw = "JobId=42 JobName=train StdOut=/logs/%x-%j.out";
    assert_eq!(stdout_from_scontrol("42", raw), Some("/logs/train-42.out".to_string()));
    assert_eq!(stdout_from_scontrol("42", "JobId=42 StdOut=/o/%x.out"), Some("/o/.out".to_string()));
}

#[test]
fn stdout_from_scontrol_none_when_missing() {
    assert_eq!(stdout_from_scontrol("42", "JobId=42 StdOut=N/A"), None);
    assert_eq!(stdout_from_scontrol("42", "JobId=42"), None);
    assert_eq!(stdout_from_scontrol("42", "Error: invalid job"), None);
    assert_eq!(stdout_from_scontrol("42", ""), None);
}

#[test]
fn stdout_from_sacct_finds_matching_job() {
    let raw = "41|x|/a.out\n 42 | run | /logs/%x-%A.out \n";
    assert_eq!(stdout_from_sacct("42", raw), Ok("/logs/run-42.out".to_string()));
}

#[test]
fn stdout_from_sacct_errors() {
    assert_eq!(stdout_from_sacct("42", ""), Err("Unable to resolve StdOut for job 42".to_string()));
    assert_eq!(
        stdout_from_sacct("42", "Error: down"),
        Err("Unable to resolve StdOut for job 42".to_string())
    );
    assert_eq!(
        stdout_from_sacct("42", "42|run|Unknown\n42|run|N/A\n42|run|\n43|x|/y"),
        Err("No StdOut configured for job 42".to_string())
    );
}

#[test]
fn resolve_job_stdout_prefers_scontrol() {
    assert_eq!(
        resolve_job_stdout("42", "JobId=42 JobName=a StdOut=/s/%x", "42|b|/t/%x"),
        Ok("/s/a".to_string())
    );
    assert_eq!(resolve_job_stdout("42", "JobId=42 StdOut=N/A", "42|b|/t/%x"), Ok("/t/b".to_string()));
    assert_eq!(
        resolve_job_stdout("42", "", ""),
        Err("Unable to resolve StdOut for job 42".to_string())
    );
}

#[test]
fn submit_job_builds_sbatch_command() {
    assert_eq!(
        submit_job("  --time=1:00  run.sh "),
        Ok(vec!["sbatch".to_string(), "--time=1:00".to_string(), "run.sh".to_string()])
    );
    assert_eq!(submit_job("sbatch run.sh"), Ok(vec!["sbatch".to_string(), "run.sh".to_string()]));
}

#[test]
fn submit_job_without_arguments_is_an_error() {
    assert_eq!(submit_job(""), Err("No arguments".to_string()));
    assert_eq!(submit_job(" \t "), Err("No arguments".to_string()));
}

#[test]
fn cancel_job_one_or_all() {
    assert_eq!(cancel_job("123", "bob"), vec!["scancel".to_string(), "123".to_string()]);
    assert_eq!(
        cancel_job("ALL", "bob"),
        vec!["scancel".to_string(), "-u".to_string(), "bob".to_string()]
    );
}

#[test]
fn log_picker_offers_ten_jobs() {
    assert_eq!(RECENT_JOBS, 10);
    let raw: String = (0..15).map(|i| format!("{i}|j{i}|COMPLETED\n")).collect();
    let r = recent_tasks(&raw, RECENT_JOBS);
    assert_eq!(r.lines().count(), 10);
    assert!(r.starts_with("14|j14|COMPLETED"));
}
