use slurm_tui::nodes::{compare_text, node_stats_fit_check, parse_node_stats};
use slurm_tui::scontrol::gres_count_fits;

const LISTING: &str = "NodeName=n1 Partitions=gpu,cpu State=MIXED CPUAlloc=8 CPUTot=32 RealMemory=1000 AllocMem=400 Gres=gpu:a100:4 GresUsed=gpu:a100:1(IDX:0)\n\
NodeName=n2 Partitions=cpu State=IDLE+DRAIN CPUAlloc=0 CPUTot=16 RealMemory=500 AllocMem=0 Gres=(null) GresUsed=(null)\n\
\n\
NodeName=n3 Partitions= State=IDLE CPUTot=4\n\
NodeName=n4 Partitions=cpu State=ALLOCATED CPUAlloc=40 CPUTot=32 RealMemory=100 AllocMem=200\n";

#[test]
fn parse_node_stats_counts_states_once_per_node() {
    let (_, idle, mix, alloc, down) = parse_node_stats(LISTING);
    assert_eq!((idle, mix, alloc, down), (0, 1, 1, 1));
}

#[test]
fn parse_node_stats_sorted_partitions() {
    let (stats, ..) = parse_node_stats(LISTING);
    let names: Vec<&str> = stats.iter().map(|s| s.partition.as_str()).collect();
    assert_eq!(names, vec!["cpu", "gpu"]);
}

#[test]
fn parse_node_stats_sums_per_partition() {
    let (stats, ..) = parse_node_stats(LISTING);
    let cpu = &stats[0];
    assert_eq!(cpu.total_nodes, 3);
    assert_eq!((cpu.idle_nodes, cpu.mix_nodes, cpu.alloc_nodes, cpu.down_nodes, cpu.other_nodes), (0, 1, 1, 1, 0));
    // The drained node's resources are not free; the overfull node has none free.
    assert_eq!((cpu.cpu_idle, cpu.cpu_total), (24, 80));
    assert_eq!((cpu.mem_free_mb, cpu.mem_total_mb), (600, 1600));
    assert_eq!((cpu.gpu_free, cpu.gpu_total), (3, 4));
    let gpu = &stats[1];
    assert_eq!(gpu.total_nodes, 1);
    assert_eq!((gpu.cpu_idle, gpu.cpu_total), (24, 32));
    assert_eq!((gpu.mem_free_mb, gpu.mem_total_mb), (600, 1000));
    assert_eq!((gpu.gpu_free, gpu.gpu_total), (3, 4));
}

#[test]
fn parse_node_stats_empty_or_error() {
    let (stats, idle, mix, alloc, down) = parse_node_stats("");
    assert!(stats.is_empty());
    assert_eq!((idle, mix, alloc, down), (0, 0, 0, 0));
    let (stats, ..) = parse_node_stats("Error: scontrol not found");
    assert!(stats.is_empty());
}

#[test]
fn parse_node_stats_other_state() {
    let (stats, idle, mix, alloc, down) = parse_node_stats("NodeName=a Partitions=p State=RESERVED CPUTot=2");
    assert_eq!((idle, mix, alloc, down), (0, 0, 0, 0));
    assert_eq!(stats.len(), 1);
    assert_eq!(stats[0].other_nodes, 1);
    assert_eq!(stats[0].cpu_idle, 2);
}

#[test]
fn compare_text_orders_by_characters() {
    let v = |s: &str| s.chars().collect::<Vec<char>>();
    assert_eq!(compare_text(&v("cpu"), &v("gpu")), -1);
    assert_eq!(compare_text(&v("gpu"), &v("cpu")), 1);
    assert_eq!(compare_text(&v("gpu"), &v("gpu")), 0);
    assert_eq!(compare_text(&v("gp"), &v("gpu")), -1);
}

#[test]
fn node_stats_fit_check_accepts_ordinary_listings() {
    assert!(node_stats_fit_check(LISTING));
    assert!(node_stats_fit_check(""));
    assert!(node_stats_fit_check("Error: x"));
}

#[test]
fn node_stats_fit_check_rejects_overflowing_totals() {
    let big = "NodeName=a Partitions=p CPUTot=18446744073709551615\nNodeName=b Partitions=p CPUTot=1";
    assert!(!node_stats_fit_check(big));
    let one = "NodeName=a Partitions=p,q CPUTot=18446744073709551615";
    assert!(node_stats_fit_check(one));
    let twice = "NodeName=a Partitions=p,p CPUTot=18446744073709551615";
    assert!(!node_stats_fit_check(twice));
    let gpus = "NodeName=a Partitions=p Gres=gpu:18446744073709551615,gpu:1";
    assert!(!node_stats_fit_check(gpus));
}

#[test]
fn gres_count_fits_in_sixty_four_bits() {
    assert!(gres_count_fits("gpu:a100:4", "gpu"));
    assert!(gres_count_fits("gpu:18446744073709551615", "gpu"));
    assert!(!gres_count_fits("gpu:18446744073709551615,gpu:1", "gpu"));
    assert!(gres_count_fits("gpu:18446744073709551615,mps:1", "gpu"));
}

#[test]
fn partition_counts_add_up() {
    let (stats, ..) = parse_node_stats(LISTING);
    for s in &stats {
        assert_eq!(s.idle_nodes + s.mix_nodes + s.alloc_nodes + s.down_nodes + s.other_nodes, s.total_nodes);
        assert!(s.total_nodes >= 1);
        assert!(s.cpu_idle <= s.cpu_total);
        assert!(s.mem_free_mb <= s.mem_total_mb);
        assert!(s.gpu_free <= s.gpu_total);
    }
}
