use health_monitor::images::{parse_image_list, read_tool_run, ImageEntry, ToolRun};
use health_monitor::issues::{IssueState, ProcessReport, ScanReport};
use health_monitor::processes::ProcessEntry;
use health_monitor::scan::CacheEntry;

fn cache(path: &str, size_bytes: u64) -> CacheEntry {
    CacheEntry { path: path.to_string(), size_bytes }
}

fn process(name: &str, pid: u32, cpu_millionths: u64, memory_bytes: u64) -> ProcessEntry {
    ProcessEntry { name: name.to_string(), pid, cpu_millionths, memory_bytes }
}

fn image(name: &str) -> ImageEntry {
    ImageEntry {
        name: name.to_string(),
        size_label: "1MB".to_string(),
        created_label: "now".to_string(),
    }
}

fn cache_sizes(state: &IssueState) -> Vec<u64> {
    state.caches().iter().map(|entry| entry.size_bytes).collect()
}

fn image_names(state: &IssueState) -> Vec<String> {
    state.images().iter().map(|entry| entry.name.clone()).collect()
}

fn pids(state: &IssueState) -> Vec<u32> {
    state.processes().iter().map(|entry| entry.pid).collect()
}

#[test]
fn state_starts_empty_and_scanning() {
    let state = IssueState::new();
    assert!(state.is_scanning());
    assert!(state.caches().is_empty());
    assert!(state.images().is_empty());
    assert!(state.processes().is_empty());
    assert_eq!(state.process_count(), 0);
    assert_eq!(state.reclaimable_bytes(), 0);
    assert!(state.cache_paths().is_empty());
}

#[test]
fn default_state_is_the_starting_state() {
    let state = IssueState::default();
    assert!(state.is_scanning());
    assert!(state.caches().is_empty());
    assert!(state.images().is_empty());
    assert!(state.processes().is_empty());
}

#[test]
fn publishing_a_scan_replaces_caches_and_images_and_ends_scanning() {
    let mut state = IssueState::new();
    let report = ScanReport::assemble(
        vec![cache("/a", 200_000_000), cache("/b", 900_000_000)],
        vec![image("nginx:latest"), image("redis:7")],
    );
    state.publish_scan(report);
    assert!(!state.is_scanning());
    assert_eq!(cache_sizes(&state), vec![900_000_000, 200_000_000]);
    assert_eq!(state.cache_paths(), vec!["/b".to_string(), "/a".to_string()]);
    assert_eq!(image_names(&state), vec!["nginx:latest".to_string(), "redis:7".to_string()]);
}

#[test]
fn scan_with_one_large_and_one_small_cache_shows_only_the_large_one() {
    let mut state = IssueState::new();
    let found = vec![cache("/work/app/node_modules", 500_000_000), cache("/work/lib/node_modules", 50_000_000)];
    state.publish_scan(ScanReport::assemble(found, Vec::new()));
    assert!(!state.is_scanning());
    assert_eq!(state.caches().len(), 1);
    assert_eq!(state.caches()[0].path, "/work/app/node_modules");
    assert_eq!(state.caches()[0].size_bytes, 500_000_000);
    assert_eq!(state.reclaimable_bytes(), 500_000_000);
}

#[test]
fn scan_without_the_container_tool_still_ends() {
    let mut state = IssueState::new();
    let images = read_tool_run(ToolRun::Unavailable);
    assert!(images.is_empty());
    state.publish_scan(ScanReport::assemble(vec![cache("/a", 300_000_000)], images));
    assert!(!state.is_scanning());
    assert!(state.images().is_empty());
    assert_eq!(cache_sizes(&state), vec![300_000_000]);
}

#[test]
fn scan_that_finds_nothing_still_ends() {
    let mut state = IssueState::new();
    state.publish_scan(ScanReport::assemble(Vec::new(), read_tool_run(ToolRun::Failed)));
    assert!(!state.is_scanning());
    assert!(state.caches().is_empty());
    assert!(state.images().is_empty());
}

#[test]
fn report_caps_caches_and_images_at_ten() {
    let mut found = Vec::new();
    let mut images = Vec::new();
    for index in 0..14u64 {
        found.push(cache(&format!("/c{}", index), 100_000_001 + index));
        images.push(image(&format!("image{}", index)));
    }
    let mut state = IssueState::new();
    state.publish_scan(ScanReport::assemble(found, images));
    assert_eq!(state.caches().len(), 10);
    assert_eq!(state.images().len(), 10);
    assert_eq!(cache_sizes(&state)[0], 100_000_014);
    assert_eq!(cache_sizes(&state)[9], 100_000_005);
    let names: Vec<String> = (0..10).map(|index| format!("image{}", index)).collect();
    assert_eq!(image_names(&state), names);
}

#[test]
fn report_keeps_images_in_the_order_of_the_tool() {
    let images = parse_image_list("z\t1\t1\na\t2\t2\nm\t3\t3\n");
    let mut state = IssueState::new();
    state.publish_scan(ScanReport::assemble(Vec::new(), images));
    assert_eq!(image_names(&state), vec!["z".to_string(), "a".to_string(), "m".to_string()]);
}

#[test]
fn publishing_processes_leaves_the_scan_alone() {
    let mut state = IssueState::new();
    let report = ProcessReport::rank(vec![process("a", 1, 5, 0), process("b", 2, 50, 0)]);
    state.publish_processes(report);
    assert!(state.is_scanning());
    assert!(state.caches().is_empty());
    assert!(state.images().is_empty());
    assert_eq!(pids(&state), vec![2, 1]);
    assert_eq!(state.process_count(), 2);
}

#[test]
fn publishing_a_scan_leaves_the_processes_alone() {
    let mut state = IssueState::new();
    state.publish_processes(ProcessReport::rank(vec![process("a", 7, 1, 1)]));
    state.publish_scan(ScanReport::assemble(vec![cache("/a", 100_000_001)], Vec::new()));
    assert_eq!(pids(&state), vec![7]);
    assert!(!state.is_scanning());
    state.publish_processes(ProcessReport::rank(vec![process("b", 8, 1, 1)]));
    assert!(!state.is_scanning());
    assert_eq!(cache_sizes(&state), vec![100_000_001]);
    assert_eq!(pids(&state), vec![8]);
}

#[test]
fn processes_are_replaced_on_every_sampling() {
    let mut state = IssueState::new();
    let many: Vec<ProcessEntry> =
        (0..9u32).map(|pid| process("p", pid, pid as u64 * 10, 0)).collect();
    state.publish_processes(ProcessReport::rank(many));
    assert_eq!(pids(&state), vec![8, 7, 6, 5, 4]);
    state.publish_processes(ProcessReport::rank(vec![process("q", 100, 0, 1)]));
    assert_eq!(pids(&state), vec![100]);
    state.publish_processes(ProcessReport::rank(Vec::new()));
    assert!(state.processes().is_empty());
}

#[test]
fn process_pid_is_that_of_the_row() {
    let mut state = IssueState::new();
    state.publish_processes(ProcessReport::rank(vec![
        process("small", 30, 1, 0),
        process("large", 10, 100, 0),
        process("middle", 20, 10, 0),
    ]));
    assert_eq!(state.process_pid(0), Some(10));
    assert_eq!(state.process_pid(1), Some(20));
    assert_eq!(state.process_pid(2), Some(30));
    assert_eq!(state.process_pid(3), None);
    assert_eq!(state.process_pid(usize::MAX), None);
}

#[test]
fn reclaimable_bytes_add_up_beyond_a_u64() {
    let mut state = IssueState::new();
    let found = vec![cache("/a", u64::MAX), cache("/b", u64::MAX), cache("/c", 100_000_001)];
    state.publish_scan(ScanReport::assemble(found, Vec::new()));
    assert_eq!(state.reclaimable_bytes(), 2 * (u64::MAX as u128) + 100_000_001);
}

#[test]
fn snapshot_copies_the_state() {
    let mut state = IssueState::new();
    state.publish_scan(ScanReport::assemble(
        vec![cache("/a", 200_000_000), cache("/b", 300_000_000)],
        vec![image("one")],
    ));
    state.publish_processes(ProcessReport::rank(vec![process("p", 5, 1, 2)]));
    let copy = state.snapshot();
    state.publish_processes(ProcessReport::rank(Vec::new()));
    assert!(!copy.is_scanning());
    assert_eq!(cache_sizes(&copy), vec![300_000_000, 200_000_000]);
    assert_eq!(copy.cache_paths(), vec!["/b".to_string(), "/a".to_string()]);
    assert_eq!(image_names(&copy), vec!["one".to_string()]);
    assert_eq!(copy.images()[0].size_label, "1MB");
    assert_eq!(copy.images()[0].created_label, "now");
    assert_eq!(pids(&copy), vec![5]);
    assert_eq!(copy.processes()[0].name, "p");
    assert_eq!(copy.processes()[0].cpu_millionths, 1);
    assert_eq!(copy.processes()[0].memory_bytes, 2);
    assert!(state.processes().is_empty());
}

#[test]
fn snapshot_of_the_starting_state_is_scanning() {
    let copy = IssueState::new().snapshot();
    assert!(copy.is_scanning());
    assert!(copy.caches().is_empty());
}
