use vleue_navigator::updater::{
    navmeshes_to_check, plan_build, DebounceWindow, plan_trigger, should_clear_cache, watch_build_task,
    ManagedNavMesh, NavMeshStatus, NavMeshWatch, TaskWatch, TriggerPlan, UpdateModeKind,
};

fn plan(mark: bool, debounce: bool, reset: bool, build: bool) -> TriggerPlan {
    TriggerPlan {
        mark_retrigger: mark,
        start_debounce: debounce,
        reset_on_demand: reset,
        build,
    }
}

#[test]
fn status_defaults_to_invalid() {
    assert_eq!(NavMeshStatus::default(), NavMeshStatus::Invalid);
}

#[test]
fn update_mode_defaults_to_on_demand_without_request() {
    assert_eq!(UpdateModeKind::default(), UpdateModeKind::OnDemand(false));
}

#[test]
fn direct_mode_builds_unless_running() {
    assert_eq!(
        plan_trigger(false, UpdateModeKind::Direct, false),
        plan(false, false, false, true)
    );
    assert_eq!(
        plan_trigger(false, UpdateModeKind::Direct, true),
        plan(false, false, false, false)
    );
}

#[test]
fn debounced_mode_starts_delay_and_builds() {
    assert_eq!(
        plan_trigger(false, UpdateModeKind::Debounced, false),
        plan(false, true, false, true)
    );
    assert_eq!(
        plan_trigger(false, UpdateModeKind::Debounced, true),
        plan(false, true, false, false)
    );
}

#[test]
fn running_delay_only_remembers_the_change() {
    for mode in [
        UpdateModeKind::Direct,
        UpdateModeKind::Debounced,
        UpdateModeKind::OnDemand(true),
        UpdateModeKind::OnDemand(false),
    ] {
        for running in [false, true] {
            assert_eq!(plan_trigger(true, mode, running), plan(true, false, false, false));
        }
    }
}

#[test]
fn on_demand_request_is_taken() {
    assert_eq!(
        plan_trigger(false, UpdateModeKind::OnDemand(true), false),
        plan(false, false, true, true)
    );
    assert_eq!(
        plan_trigger(false, UpdateModeKind::OnDemand(true), true),
        plan(false, false, true, false)
    );
    assert_eq!(
        plan_trigger(false, UpdateModeKind::OnDemand(false), false),
        plan(false, false, false, false)
    );
}

#[test]
fn navmeshes_to_check_sorted_once_each() {
    let watches = vec![
        NavMeshWatch { entity: 9, settings_changed: true, mode: UpdateModeKind::Direct },
        NavMeshWatch { entity: 3, settings_changed: false, mode: UpdateModeKind::Direct },
        NavMeshWatch { entity: 5, settings_changed: false, mode: UpdateModeKind::OnDemand(true) },
        NavMeshWatch { entity: 9, settings_changed: true, mode: UpdateModeKind::Debounced },
    ];
    assert_eq!(navmeshes_to_check(&watches, false, false, &vec![7, 3, 7]), vec![3, 5, 7, 9]);
    assert_eq!(navmeshes_to_check(&watches, false, false, &vec![]), vec![5, 9]);
    assert_eq!(navmeshes_to_check(&watches, true, false, &vec![]), vec![3, 5, 9]);
    assert_eq!(navmeshes_to_check(&watches, false, true, &vec![1]), vec![1, 3, 5, 9]);
    assert_eq!(navmeshes_to_check(&vec![], true, true, &vec![]), Vec::<u64>::new());
}

#[test]
fn cache_is_cleared_on_changes() {
    assert!(should_clear_cache(true, false));
    assert!(should_clear_cache(false, true));
    assert!(!should_clear_cache(false, false));
}

#[test]
fn build_plan_uses_and_stores_cache() {
    let p = plan_build(false, 3);
    assert!(p.rebuild_base && p.store_base);
    let p = plan_build(false, 0);
    assert!(p.rebuild_base && !p.store_base);
    let p = plan_build(true, 0);
    assert!(!p.rebuild_base && !p.store_base);
    let p = plan_build(true, 2);
    assert!(!p.rebuild_base && p.store_base);
}

#[test]
fn watch_records_start_of_build() {
    assert_eq!(
        watch_build_task(true, true, true, Some(true)),
        TaskWatch { record_start: true, new_status: None, stop_task: false }
    );
    assert_eq!(
        watch_build_task(false, false, true, Some(true)),
        TaskWatch { record_start: false, new_status: None, stop_task: false }
    );
}

#[test]
fn watch_cancels_and_times_out() {
    assert_eq!(
        watch_build_task(false, true, true, None),
        TaskWatch { record_start: false, new_status: Some(NavMeshStatus::Cancelled), stop_task: true }
    );
    assert_eq!(
        watch_build_task(false, true, true, Some(false)),
        TaskWatch { record_start: false, new_status: Some(NavMeshStatus::Cancelled), stop_task: true }
    );
    assert_eq!(
        watch_build_task(false, true, true, Some(true)),
        TaskWatch { record_start: false, new_status: Some(NavMeshStatus::Failed), stop_task: true }
    );
    assert_eq!(
        watch_build_task(false, true, false, Some(true)),
        TaskWatch { record_start: false, new_status: Some(NavMeshStatus::Failed), stop_task: true }
    );
    assert_eq!(
        watch_build_task(false, true, false, Some(false)),
        TaskWatch { record_start: false, new_status: None, stop_task: false }
    );
}

#[test]
fn managed_navmesh_ids() {
    assert_eq!(ManagedNavMesh::single(), ManagedNavMesh::from_id(0));
    assert_eq!(ManagedNavMesh::from_id(42).id(), 42);
    assert_eq!(ManagedNavMesh::from_id(u128::MAX).id(), u128::MAX);
    assert_ne!(ManagedNavMesh::from_id(1), ManagedNavMesh::single());
}

#[test]
fn debounced_changes_build_once_then_catch_up() {
    let mut window = DebounceWindow::new();
    assert!(!window.is_open());
    // The first change builds at once and opens the delay.
    assert_eq!(window.change(UpdateModeKind::Debounced, false), plan(false, true, false, true));
    assert!(window.is_open());
    // Changes during the delay only ask for a catch-up.
    assert_eq!(window.change(UpdateModeKind::Debounced, false), plan(true, false, false, false));
    assert_eq!(window.change(UpdateModeKind::Debounced, true), plan(true, false, false, false));
    // Time goes by without the delay running out.
    assert!(!window.tick(false));
    assert!(window.is_open());
    // The delay runs out: the mesh is looked at again, and the window closes.
    assert!(window.tick(true));
    assert!(!window.is_open());
    assert!(!window.tick(true));
    // That look starts the catch-up build and a new delay.
    assert_eq!(window.change(UpdateModeKind::Debounced, false), plan(false, true, false, true));
}

#[test]
fn a_single_debounced_change_needs_no_catch_up() {
    let mut window = DebounceWindow::new();
    assert_eq!(window.change(UpdateModeKind::Debounced, true), plan(false, true, false, false));
    assert!(window.is_open());
    assert!(!window.tick(true));
    assert!(!window.is_open());
}

#[test]
fn other_modes_open_no_delay() {
    let mut window = DebounceWindow::new();
    assert_eq!(window.change(UpdateModeKind::Direct, false), plan(false, false, false, true));
    assert!(!window.is_open());
    assert_eq!(window.change(UpdateModeKind::OnDemand(true), false), plan(false, false, true, true));
    assert_eq!(window.change(UpdateModeKind::OnDemand(false), false), plan(false, false, false, false));
    assert!(!window.is_open());
    assert!(!window.tick(true));
}
