use slurm_tui::scontrol::{
    categorize_state, extract_gpu, gpu_count_lowered, parse_gres_count, parse_scontrol, StateCat,
};

fn text(v: Option<Vec<char>>) -> Option<String> {
    v.map(|c| c.into_iter().collect())
}

#[test]
fn parse_scontrol_reads_key_value_tokens() {
    let f = parse_scontrol("JobId=5 JobName=run\n   UserId=bob(1001) Flag");
    assert_eq!(text(f.get("JobId")), Some("5".to_string()));
    assert_eq!(text(f.get("JobName")), Some("run".to_string()));
    assert_eq!(text(f.get("UserId")), Some("bob(1001)".to_string()));
    assert_eq!(text(f.get("Flag")), None);
    assert_eq!(f.get_or("Missing", "N/A"), "N/A");
}

#[test]
fn parse_scontrol_later_key_wins_and_value_keeps_equals() {
    let f = parse_scontrol("A=1 A=2 Cmd=x=y Empty=");
    assert_eq!(text(f.get("A")), Some("2".to_string()));
    assert_eq!(text(f.get("Cmd")), Some("x=y".to_string()));
    assert_eq!(text(f.get("Empty")), Some(String::new()));
}

#[test]
fn get_u64_reads_numbers_or_zero() {
    let f = parse_scontrol("CPUTot=32 RealMemory=abc");
    assert_eq!(f.get_u64("CPUTot"), 32);
    assert_eq!(f.get_u64("RealMemory"), 0);
    assert_eq!(f.get_u64("Missing"), 0);
}

#[test]
fn parse_gres_count_sums_matching_kind() {
    assert_eq!(parse_gres_count("gpu:a100:4(S:0-1),gpu:v100:2", "gpu"), 6);
    assert_eq!(parse_gres_count("gpu:4,mps:100", "gpu"), 4);
    assert_eq!(parse_gres_count("gpu:4,mps:100", "mps"), 100);
}

#[test]
fn parse_gres_count_empty_null_or_bad_is_zero() {
    assert_eq!(parse_gres_count("", "gpu"), 0);
    assert_eq!(parse_gres_count("(null)", "gpu"), 0);
    assert_eq!(parse_gres_count("gpu:x", "gpu"), 0);
    assert_eq!(parse_gres_count("gpus:4", "gpu"), 0);
    assert_eq!(parse_gres_count(",, gpu:2 ,", "gpu"), 2);
}

#[test]
fn categorize_state_by_keywords() {
    assert_eq!(categorize_state("mixed"), StateCat::Mix);
    assert_eq!(categorize_state("IDLE+DRAIN"), StateCat::Down);
    assert_eq!(categorize_state("ALLOCATED"), StateCat::Alloc);
    assert_eq!(categorize_state("idle"), StateCat::Idle);
    assert_eq!(categorize_state("down*"), StateCat::Down);
    assert_eq!(categorize_state("MIXED+POWERED_DOWN"), StateCat::Down);
    assert_eq!(categorize_state("RESERVED"), StateCat::Other);
    assert_eq!(categorize_state("ALLOC"), StateCat::Other);
}

#[test]
fn extract_gpu_takes_count_after_last_colon() {
    let f = parse_scontrol("TresPerNode=gres:gpu:2");
    assert_eq!(extract_gpu(&f), "2");
    let f = parse_scontrol("TresPerJob=cpu:4,gres/GPU:a100:3");
    assert_eq!(extract_gpu(&f), "3");
}

#[test]
fn extract_gpu_none_or_first_key_wins() {
    let f = parse_scontrol("TresPerJob=cpu:4");
    assert_eq!(extract_gpu(&f), "");
    let f = parse_scontrol("TresPerTask=gres:gpu:8 TresPerNode=gres:gpu:1");
    assert_eq!(extract_gpu(&f), "1");
}

#[test]
fn gres_counts_add_up_over_a_comma() {
    let (a, b) = ("gpu:a100:4(S:0-1)", "gpu:2,mps:10");
    assert_eq!(
        parse_gres_count(&format!("{a},{b}"), "gpu"),
        parse_gres_count(a, "gpu") + parse_gres_count(b, "gpu")
    );
    assert_eq!(parse_gres_count(&format!("{},{}", "(null)", "gpu:3"), "gpu"), 3);
    assert_eq!(parse_gres_count(",", "gpu"), 0);
}

#[test]
fn gpu_count_from_lowered_value() {
    let c = |s: &str| s.chars().collect::<Vec<char>>();
    let val = c("cpu:4,gres/GPU:a100:3");
    let lowered = vec![c("cpu:4"), c("gres/gpu:a100:3")];
    let r = gpu_count_lowered(&val, &c("cpu:4,gres/gpu:a100:3"), &lowered);
    assert_eq!(r.map(|v| v.into_iter().collect::<String>()), Some("3".to_string()));
    assert_eq!(gpu_count_lowered(&val, &c("cpu:4"), &lowered), None);
    assert_eq!(gpu_count_lowered(&c("cpu:4"), &c("cpu:4"), &vec![c("cpu:4")]), None);
}

#[test]
fn ascii_state_category_ignores_case() {
    for s in ["mixed", "Idle+Drain", "allocated", "IDLE", "reserved", "down*"] {
        assert_eq!(categorize_state(s), categorize_state(&s.to_lowercase()));
        assert_eq!(categorize_state(s), categorize_state(&s.to_uppercase()));
    }
    assert_eq!(categorize_state("mixed+drain"), StateCat::Down);
}
