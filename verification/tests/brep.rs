use physical::brep::{
    accel_cache_clear, accel_cache_stats, converged_result, group_bend_setups, mate_equation_count, remaining_dof,
    solve_precheck, total_equations, total_params, AccelCache, AssemblySolveResult, BendOp, MateKind,
};

#[test]
fn empty_assembly() {
    assert_eq!(remaining_dof(&vec![], &vec![]), 0);
}

#[test]
fn single_grounded_part() {
    assert_eq!(remaining_dof(&vec![true], &vec![]), 0);
}

#[test]
fn two_parts_no_mates() {
    assert_eq!(remaining_dof(&vec![true, false], &vec![]), 6);
}

#[test]
fn dof_tracking() {
    let grounded = vec![true, false];
    let mut mates = Vec::new();
    assert_eq!(remaining_dof(&grounded, &mates), 6);
    mates.push(MateKind::Coincident);
    assert_eq!(remaining_dof(&grounded, &mates), 3);
    mates.push(MateKind::Parallel);
    assert_eq!(remaining_dof(&grounded, &mates), 0);
}

#[test]
fn mate_counts_and_totals() {
    assert_eq!(mate_equation_count(MateKind::Concentric), 4);
    assert_eq!(mate_equation_count(MateKind::Coplanar), 2);
    assert_eq!(mate_equation_count(MateKind::Angle), 1);
    assert_eq!(total_params(&vec![false, false, true]), 12);
    assert_eq!(total_equations(&vec![MateKind::Coincident, MateKind::Concentric, MateKind::Tangent]), 8);
    // More equations than parameters leave no freedom.
    assert_eq!(remaining_dof(&vec![false], &vec![MateKind::Concentric, MateKind::Concentric]), 0);
}

#[test]
fn solver_prechecks() {
    assert_eq!(solve_precheck(6, 0), Some(AssemblySolveResult::UnderConstrained { remaining_dof: 6 }));
    assert_eq!(solve_precheck(6, 8), Some(AssemblySolveResult::OverConstrained));
    assert_eq!(solve_precheck(6, 3), None);
    assert_eq!(converged_result(6, 6), AssemblySolveResult::FullyConstrained);
    assert_eq!(converged_result(6, 3), AssemblySolveResult::UnderConstrained { remaining_dof: 3 });
}

#[test]
fn accel_cache_counts_hits_and_misses() {
    let mut cache: AccelCache<u32> = AccelCache::new();
    let mut builds = 0;
    assert_eq!(*cache.get_or_build(7, || { builds += 1; 70 }), 70);
    assert_eq!(*cache.get_or_build(7, || 0), 70);
    assert_eq!(*cache.get_or_build(8, || 80), 80);
    assert_eq!(builds, 1);
    let s = accel_cache_stats(&cache);
    assert_eq!(s.misses, 2);
    assert_eq!(s.hits, 1);
    assert_eq!(s.entries, 2);
}

#[test]
fn accel_cache_repeated_key_hits() {
    let mut cache: AccelCache<String> = AccelCache::new();
    for _ in 0..20 {
        let _ = cache.get_or_build(42, || String::from("accel"));
    }
    let s = cache.stats();
    assert_eq!(s.misses, 1);
    assert_eq!(s.hits, 19);
}

#[test]
fn accel_cache_clear_resets() {
    let mut cache: AccelCache<u8> = AccelCache::new();
    let _ = cache.get_or_build(1, || 1);
    accel_cache_clear(&mut cache);
    let s = cache.stats();
    assert_eq!((s.entries, s.hits, s.misses), (0, 0, 0));
}

#[test]
fn bend_setups_follow_direction_changes() {
    let order = vec![2, 0, 1, 3];
    let dirs: Vec<i8> = vec![1, 1, 1, -1];
    let ops = group_bend_setups(&order, &dirs);
    assert_eq!(
        ops,
        vec![
            BendOp { bend_index: 2, setup: 0 },
            BendOp { bend_index: 0, setup: 0 },
            BendOp { bend_index: 1, setup: 0 },
            BendOp { bend_index: 3, setup: 1 },
        ]
    );
    let alt = group_bend_setups(&vec![0, 1, 2], &vec![1, -1, 1]);
    assert_eq!(alt.iter().map(|b| b.setup).collect::<Vec<_>>(), vec![0, 1, 2]);
    assert!(group_bend_setups(&vec![], &dirs).is_empty());
}
