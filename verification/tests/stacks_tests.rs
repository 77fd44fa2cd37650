use gem_keep::model::{PhotoFormat, ScannedFile};
use gem_keep::pairs::LogicalGroup;
use gem_keep::stacks::assign_stacks_clean;
use std::collections::HashSet;

fn make_group(capture_time: Option<i64>) -> LogicalGroup {
    let sf = ScannedFile {
        path: "/tmp/photo.jpg".to_string(),
        format: PhotoFormat::Jpeg,
        capture_time,
        camera_model: None,
        lens: None,
        orientation: None,
        base_name: "photo".to_string(),
        dir: "/tmp".to_string(),
    };
    LogicalGroup { jpeg: Some(sf), raw: None, is_pair: false }
}

fn count_stacks(result: &[(LogicalGroup, usize)]) -> usize {
    result.iter().map(|(_, i)| *i).collect::<HashSet<_>>().len()
}

fn base_time() -> i64 {
    // 2024-03-15 12:00:00
    1710504000
}

#[test]
fn test_stack_burst_3s() {
    let t = base_time();
    let groups = vec![
        make_group(Some(t)),
        make_group(Some(t + 1)),
        make_group(Some(t + 2)),
        make_group(Some(t + 3)),
        make_group(Some(t + 4)),
    ];
    let assigned = assign_stacks_clean(groups, 3);
    let indices: Vec<usize> = assigned.iter().map(|(_, i)| *i).collect();
    assert!(
        indices.iter().all(|&i| i == 0),
        "all should be stack 0, got {:?}",
        indices
    );
}

#[test]
fn test_stack_gap() {
    let t = base_time();
    let groups = vec![
        make_group(Some(t)),
        make_group(Some(t + 2)),
        make_group(Some(t + 3)),
        make_group(Some(t + 13)),
        make_group(Some(t + 14)),
        make_group(Some(t + 15)),
    ];
    let assigned = assign_stacks_clean(groups, 3);
    let stack_0: Vec<_> = assigned.iter().filter(|(_, i)| *i == 0).collect();
    let stack_1: Vec<_> = assigned.iter().filter(|(_, i)| *i == 1).collect();
    assert_eq!(stack_0.len(), 3);
    assert_eq!(stack_1.len(), 3);
}

#[test]
fn test_stack_single() {
    let groups = vec![make_group(Some(base_time()))];
    let assigned = assign_stacks_clean(groups, 3);
    assert_eq!(assigned.len(), 1);
    assert_eq!(assigned[0].1, 0);
}

#[test]
fn test_stack_no_exif_solo() {
    let groups = vec![make_group(None), make_group(None), make_group(None)];
    let assigned = assign_stacks_clean(groups, 3);
    let indices: Vec<usize> = assigned.iter().map(|(_, i)| *i).collect();
    let unique: HashSet<usize> = indices.iter().cloned().collect();
    assert_eq!(unique.len(), 3, "each untimed group should have its own stack");
}

#[test]
fn test_stack_mixed() {
    let t = base_time();
    let groups = vec![
        make_group(Some(t)),
        make_group(Some(t + 1)),
        make_group(None),
        make_group(None),
    ];
    let assigned = assign_stacks_clean(groups, 3);
    assert_eq!(assigned.len(), 4);
    let timed: Vec<_> = assigned
        .iter()
        .filter(|(g, _)| g.jpeg.as_ref().unwrap().capture_time.is_some())
        .collect();
    assert!(timed.iter().all(|(_, i)| *i == 0));
    let untimed: Vec<usize> = assigned
        .iter()
        .filter(|(g, _)| g.jpeg.as_ref().unwrap().capture_time.is_none())
        .map(|(_, i)| *i)
        .collect();
    assert_ne!(untimed[0], untimed[1]);
}

#[test]
fn test_stack_configurable_gap() {
    let t = base_time();
    let groups = vec![make_group(Some(t)), make_group(Some(t + 5))];
    let assigned_1 = assign_stacks_clean(groups.clone(), 1);
    let indices_1: Vec<_> = assigned_1.iter().map(|(_, i)| *i).collect();
    assert_ne!(indices_1[0], indices_1[1], "with gap=1s should be 2 stacks");

    let assigned_10 = assign_stacks_clean(groups, 10);
    let indices_10: Vec<_> = assigned_10.iter().map(|(_, i)| *i).collect();
    assert_eq!(indices_10[0], indices_10[1], "with gap=10s should be 1 stack");
}

#[test]
fn test_stack_consecutive_not_from_stack_origin() {
    // Stacking compares consecutive pairs, not the gap from the first
    // photo of the stack: five photos two seconds apart span eight
    // seconds but stay in one stack with a gap of three.
    let t = base_time();
    let groups = vec![
        make_group(Some(t)),
        make_group(Some(t + 2)),
        make_group(Some(t + 4)),
        make_group(Some(t + 6)),
        make_group(Some(t + 8)),
    ];
    let assigned = assign_stacks_clean(groups, 3);
    let indices: Vec<usize> = assigned.iter().map(|(_, i)| *i).collect();
    assert!(
        indices.iter().all(|&i| i == 0),
        "5 photos with 2s consecutive gaps must be in one stack (burst_gap=3), got {:?}",
        indices
    );
}

#[test]
fn test_restack_reduces_stacks_on_larger_gap() {
    let base = base_time();
    let offsets: &[i64] = &[0, 1, 2, 10, 11, 12, 20, 21, 22, 30];

    let groups: Vec<LogicalGroup> = offsets.iter().map(|&s| make_group(Some(base + s))).collect();

    let result_gap3 = assign_stacks_clean(groups.clone(), 3);
    let result_gap30 = assign_stacks_clean(groups, 30);

    let stacks_gap3 = count_stacks(&result_gap3);
    let stacks_gap30 = count_stacks(&result_gap30);

    assert_eq!(
        stacks_gap3, 4,
        "burst_gap=3s should produce 4 stacks (gaps of 8s split the groups), got {}",
        stacks_gap3
    );
    assert_eq!(
        stacks_gap30, 1,
        "burst_gap=30s should produce 1 stack (all consecutive gaps <= 30s), got {}",
        stacks_gap30
    );
}

#[test]
fn test_restack_increases_stacks_on_smaller_gap() {
    let base = base_time();
    let offsets: &[i64] = &[0, 1, 2, 10, 11, 12, 20, 21, 22, 30];

    let groups: Vec<LogicalGroup> = offsets.iter().map(|&s| make_group(Some(base + s))).collect();

    let result_gap0 = assign_stacks_clean(groups, 0);
    let stacks_gap0 = count_stacks(&result_gap0);

    assert_eq!(
        stacks_gap0, 10,
        "burst_gap=0 should produce 10 stacks (every gap > 0 splits), got {}",
        stacks_gap0
    );
}

#[test]
fn test_stack_unsorted_input_is_sorted_by_time() {
    let t = base_time();
    let groups = vec![
        make_group(Some(t + 100)),
        make_group(Some(t)),
        make_group(Some(t + 1)),
    ];
    let assigned = assign_stacks_clean(groups, 3);
    // The two close-together times share stack 0, the far one sits alone.
    assert_eq!(assigned.len(), 3);
    assert_eq!(assigned[0].1, 0);
    assert_eq!(assigned[1].1, 0);
    assert_eq!(assigned[2].1, 1);
    let t0 = assigned[0].0.jpeg.as_ref().unwrap().capture_time.unwrap();
    let t2 = assigned[2].0.jpeg.as_ref().unwrap().capture_time.unwrap();
    assert_eq!(t0, t);
    assert_eq!(t2, t + 100);
}
