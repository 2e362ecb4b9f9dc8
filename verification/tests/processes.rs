use health_monitor::processes::{
    rank_processes, ProcessEntry, MAX_REPORTED_PROCESSES, SCORE_UNITS_PER_PERCENT,
};

fn process(name: &str, pid: u32, cpu_millionths: u64, memory_bytes: u64) -> ProcessEntry {
    ProcessEntry { name: name.to_string(), pid, cpu_millionths, memory_bytes }
}

fn pids(entries: &[ProcessEntry]) -> Vec<u32> {
    entries.iter().map(|entry| entry.pid).collect()
}

#[test]
fn process_limits_are_as_documented() {
    assert_eq!(MAX_REPORTED_PROCESSES, 5);
    assert_eq!(SCORE_UNITS_PER_PERCENT, 1_000_000);
}

#[test]
fn score_is_percent_plus_megabytes() {
    // 12.5 % of the processor and 300 MB of memory: 12.5 + 300 = 312.5
    let entry = process("editor", 10, 12_500_000, 300_000_000);
    assert_eq!(entry.score(), 312_500_000);
    assert_eq!(entry.score() as f64 / SCORE_UNITS_PER_PERCENT as f64, 312.5);
}

#[test]
fn score_of_an_idle_process_is_its_memory() {
    assert_eq!(process("idle", 1, 0, 4_096).score(), 4_096);
    assert_eq!(process("nothing", 1, 0, 0).score(), 0);
}

#[test]
fn score_does_not_overflow() {
    let entry = process("huge", 1, u64::MAX, u64::MAX);
    assert_eq!(entry.score(), 2 * (u64::MAX as u128));
}

#[test]
fn one_percent_counts_as_much_as_one_megabyte() {
    let by_cpu = process("cpu", 1, 1_000_000, 0);
    let by_memory = process("memory", 2, 0, 1_000_000);
    assert_eq!(by_cpu.score(), by_memory.score());
}

#[test]
fn five_highest_scores_are_reported_in_descending_order() {
    let samples = vec![
        process("a", 1, 1_000_000, 10_000_000),
        process("b", 2, 90_000_000, 0),
        process("c", 3, 0, 2_000_000_000),
        process("d", 4, 50_000_000, 50_000_000),
        process("e", 5, 0, 0),
        process("f", 6, 20_000_000, 500_000_000),
        process("g", 7, 3_000_000, 3_000_000),
    ];
    let reported = rank_processes(samples);
    assert_eq!(pids(&reported), vec![3, 6, 4, 2, 1]);
    let scores: Vec<u128> = reported.iter().map(|entry| entry.score()).collect();
    assert_eq!(scores, vec![2_000_000_000, 520_000_000, 100_000_000, 90_000_000, 11_000_000]);
}

#[test]
fn fewer_than_five_processes_are_all_reported() {
    let samples = vec![process("a", 1, 5, 5), process("b", 2, 50, 50), process("c", 3, 7, 0)];
    let reported = rank_processes(samples);
    assert_eq!(pids(&reported), vec![2, 1, 3]);
    assert!(rank_processes(Vec::new()).is_empty());
}

#[test]
fn equal_scores_keep_the_order_of_the_samples() {
    let samples = vec![
        process("first", 11, 2_000_000, 1_000_000),
        process("top", 99, 0, 900_000_000),
        process("second", 12, 1_000_000, 2_000_000),
        process("third", 13, 0, 3_000_000),
        process("fourth", 14, 3_000_000, 0),
        process("fifth", 15, 1_500_000, 1_500_000),
        process("low", 16, 0, 1),
    ];
    let reported = rank_processes(samples);
    assert_eq!(pids(&reported), vec![99, 11, 12, 13, 14]);
}

#[test]
fn ranking_is_reproducible() {
    let build = || {
        vec![
            process("x", 1, 7, 7),
            process("y", 2, 14, 0),
            process("z", 3, 0, 14),
            process("w", 4, 1, 1),
            process("v", 5, 14, 0),
            process("u", 6, 100, 0),
            process("t", 7, 0, 14),
        ]
    };
    let first = rank_processes(build());
    let second = rank_processes(build());
    assert_eq!(pids(&first), vec![6, 1, 2, 3, 5]);
    assert_eq!(pids(&first), pids(&second));
    for (one, other) in first.iter().zip(second.iter()) {
        assert_eq!(one.name, other.name);
        assert_eq!(one.cpu_millionths, other.cpu_millionths);
        assert_eq!(one.memory_bytes, other.memory_bytes);
    }
}

#[test]
fn ranking_keeps_the_samples_as_they_are() {
    let samples = vec![process("only", 42, 1_234, 5_678)];
    let reported = rank_processes(samples);
    assert_eq!(reported.len(), 1);
    assert_eq!(reported[0].name, "only");
    assert_eq!(reported[0].pid, 42);
    assert_eq!(reported[0].cpu_millionths, 1_234);
    assert_eq!(reported[0].memory_bytes, 5_678);
}

#[test]
fn process_entry_clone_is_equal() {
    let entry = process("p", 3, 4, 5);
    let copy = entry.clone();
    assert_eq!(copy.name, "p");
    assert_eq!(copy.pid, 3);
    assert_eq!(copy.cpu_millionths, 4);
    assert_eq!(copy.memory_bytes, 5);
}
