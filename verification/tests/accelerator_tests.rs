use amemory_optimized_cpu_probe::accelerator::{
    amemory_cpu_step, amemory_incidence_flag, amemory_probe, CanonicalPlanner,
};

#[test]
fn probe_and_cpu_step() {
    assert_eq!(amemory_probe(), 0xA013);
    assert_eq!(amemory_cpu_step(1), 2);
    assert_eq!(amemory_cpu_step(u32::MAX), 0);
}

#[test]
fn incidence_flag_bits() {
    assert_eq!(amemory_incidence_flag(1, 2, 1, 2), 7);
    assert_eq!(amemory_incidence_flag(1, 2, 1, 3), 1);
    assert_eq!(amemory_incidence_flag(1, 2, 4, 2), 2);
    assert_eq!(amemory_incidence_flag(1, 2, 3, 4), 0);
}

#[test]
fn canonical_plan_marks_existing_prior_and_first_representatives() {
    let mut planner = CanonicalPlanner::new();
    assert_eq!(planner.set_existing(0, 5, 6), 1);
    assert_eq!(planner.set_existing(64, 5, 6), 0);
    assert_eq!(planner.set_candidate(0, 5, 6), 1);
    assert_eq!(planner.set_candidate(1, 7, 8), 1);
    assert_eq!(planner.set_candidate(2, 7, 8), 1);
    assert_eq!(planner.set_candidate(3, 5, 6), 1);
    assert_eq!(planner.set_candidate(99, 1, 1), 0);

    assert_eq!(planner.canonical_flag(0, 1), 1);
    assert_eq!(planner.canonical_flag(1, 1), 4);
    assert_eq!(planner.canonical_flag(2, 1), 2);
    assert_eq!(planner.canonical_flag(3, 1), 3);
    // With no committed pairs, the first occurrence is the representative.
    assert_eq!(planner.canonical_flag(0, 0), 4);
    assert_eq!(planner.canonical_flag(64, 0), u32::MAX);
    assert_eq!(planner.canonical_flag(0, 65), u32::MAX);
}
