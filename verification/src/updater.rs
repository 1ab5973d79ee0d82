//! Decisions of the navigation mesh updater: which navigation meshes to look
//! at after a change, whether and how to start a build, how a running build is
//! watched, and what is kept in the cache of static obstacles.
use vstd::prelude::*;

use crate::sorted::{sorted_unique_u64, strictly_sorted_u64};

verus! {

/// Status of the generation of a navigation mesh.
#[derive(Debug, Clone, Copy, PartialEq, Eq, Structural)]
pub enum NavMeshStatus {
    /// The navigation mesh has not been built yet.
    Building,
    /// The navigation mesh has been built and is ready for use.
    Built,
    /// The last build failed; a mesh from an earlier build may still be there, out of date.
    Failed,
    /// The mesh cannot be used for pathfinding, for example while some of its
    /// layers are not built yet.
    Invalid,
    /// The build was cancelled, because its settings changed before it ended.
    Cancelled,
}

impl Default for NavMeshStatus {
    /// A navigation mesh starts out unusable.
    fn default() -> (r: Self)
        ensures
            r == NavMeshStatus::Invalid,
    {
        NavMeshStatus::Invalid
    }
}

/// When a navigation mesh is rebuilt, without the debounce delay (which the
/// caller keeps).
#[derive(Debug, Clone, Copy, PartialEq, Eq, Structural)]
pub enum UpdateModeKind {
    /// Rebuild on every change.
    Direct,
    /// Rebuild on a change, then at most once more at the end of the delay.
    Debounced,
    /// Rebuild when asked for; `true` asks for a rebuild.
    OnDemand(bool),
}

impl Default for UpdateModeKind {
    /// A navigation mesh is rebuilt on demand, and no rebuild is asked for yet.
    fn default() -> (r: Self)
        ensures
            r == UpdateModeKind::OnDemand(false),
    {
        UpdateModeKind::OnDemand(false)
    }
}

/// What the updater does for a navigation mesh that has to be looked at.
#[derive(Debug, Clone, Copy, PartialEq, Eq, Structural)]
pub struct TriggerPlan {
    /// A debounce delay is running: remember to rebuild when it ends, and do nothing else.
    pub mark_retrigger: bool,
    /// Start a debounce delay for this navigation mesh.
    pub start_debounce: bool,
    /// Set the update mode back to `OnDemand(false)`: the request was taken.
    pub reset_on_demand: bool,
    /// Start a build.
    pub build: bool,
}

/// The plan that `plan_trigger` returns, stated directly.
pub open spec fn trigger_plan_spec(
    debounce_running: bool,
    mode: UpdateModeKind,
    build_running: bool,
) -> TriggerPlan {
    if debounce_running {
        TriggerPlan { mark_retrigger: true, start_debounce: false, reset_on_demand: false, build: false }
    } else {
        match mode {
            UpdateModeKind::OnDemand(false) => TriggerPlan {
                mark_retrigger: false,
                start_debounce: false,
                reset_on_demand: false,
                build: false,
            },
            _ => TriggerPlan {
                mark_retrigger: false,
                start_debounce: mode == UpdateModeKind::Debounced,
                reset_on_demand: mode == UpdateModeKind::OnDemand(true),
                build: !build_running,
            },
        }
    }
}

/// Decides what to do for a navigation mesh that has to be looked at:
/// `debounce_running` tells whether a debounce delay is running for it,
/// `build_running` whether a build task is already attached to it.
///
/// While a delay runs, the change is only remembered. Otherwise a debounced
/// mesh starts a delay, a pending on-demand request is taken, a mesh in
/// on-demand mode without a request is left alone, and a build starts unless
/// one is already running.
pub fn plan_trigger(debounce_running: bool, mode: UpdateModeKind, build_running: bool) -> (r: TriggerPlan)
    ensures
        r == trigger_plan_spec(debounce_running, mode, build_running),
        r.build ==> !debounce_running && !build_running && mode != UpdateModeKind::OnDemand(false),
{
    if debounce_running {
        return TriggerPlan { mark_retrigger: true, start_debounce: false, reset_on_demand: false, build: false };
    }
    let mut plan = TriggerPlan { mark_retrigger: false, start_debounce: false, reset_on_demand: false, build: false };
    match mode {
        UpdateModeKind::Debounced => {
            plan.start_debounce = true;
        },
        UpdateModeKind::OnDemand(false) => {
            return plan;
        },
        UpdateModeKind::OnDemand(true) => {
            plan.reset_on_demand = true;
        },
        UpdateModeKind::Direct => {},
    }
    plan.build = !build_running;
    plan
}

/// The debounce delay of one navigation mesh: whether a delay is running, and
/// whether a change came in while it ran that a rebuild has to catch up on.
/// The time left is kept by the caller, which reports when it ran out.
#[derive(Debug, Clone, Copy)]
pub struct DebounceWindow {
    open: bool,
    catch_up: bool,
}

impl View for DebounceWindow {
    /// (a delay is running, a change waits for a rebuild at its end)
    type V = (bool, bool);

    closed spec fn view(&self) -> (bool, bool) {
        (self.open, self.catch_up)
    }
}

/// The window after a change to its navigation mesh is looked at: a change
/// while the delay runs is remembered, and a change to a debounced mesh
/// without a running delay starts one.
pub open spec fn window_after_change(w: (bool, bool), mode: UpdateModeKind) -> (bool, bool) {
    if w.0 {
        (true, true)
    } else if mode == UpdateModeKind::Debounced {
        (true, false)
    } else {
        w
    }
}

/// The window after the time of an update went by: when the delay ran out it
/// closes and forgets the remembered change.
pub open spec fn window_after_tick(w: (bool, bool), expired: bool) -> (bool, bool) {
    if w.0 && expired {
        (false, false)
    } else {
        w
    }
}

/// The window after `n` changes to a debounced navigation mesh, one after the other.
pub open spec fn window_after_debounced_changes(w: (bool, bool), n: nat) -> (bool, bool)
    decreases n,
{
    if n == 0 {
        w
    } else {
        window_after_debounced_changes(window_after_change(w, UpdateModeKind::Debounced), (n - 1) as nat)
    }
}

/// How many builds a run of changes to a debounced navigation mesh starts,
/// from the window `w`; `build_running[i]` tells whether a build task was
/// attached to the mesh at the `i`-th change.
pub open spec fn debounced_builds(w: (bool, bool), build_running: Seq<bool>) -> nat
    decreases build_running.len(),
{
    if build_running.len() == 0 {
        0
    } else {
        let first = if trigger_plan_spec(w.0, UpdateModeKind::Debounced, build_running[0]).build {
            1nat
        } else {
            0nat
        };
        first + debounced_builds(
            window_after_change(w, UpdateModeKind::Debounced),
            build_running.drop_first(),
        )
    }
}

impl DebounceWindow {
    /// A window with no delay running.
    pub fn new() -> (r: Self)
        ensures
            r@ == (false, false),
    {
        DebounceWindow { open: false, catch_up: false }
    }

    /// Whether a delay is running.
    pub fn is_open(&self) -> (r: bool)
        ensures
            r == self@.0,
    {
        self.open
    }

    /// Looks at a change to the navigation mesh (with its update mode, and
    /// whether a build task is attached to it): decides what to do with
    /// `plan_trigger`, and keeps in the window what the decision starts or
    /// remembers.
    pub fn change(&mut self, mode: UpdateModeKind, build_running: bool) -> (r: TriggerPlan)
        ensures
            r == trigger_plan_spec(old(self)@.0, mode, build_running),
            final(self)@ == window_after_change(old(self)@, mode),
    {
        let plan = plan_trigger(self.open, mode, build_running);
        if plan.mark_retrigger {
            self.catch_up = true;
        }
        if plan.start_debounce {
            self.open = true;
            self.catch_up = false;
        }
        plan
    }

    /// Lets the time of an update go by; `expired` tells whether the delay
    /// ran out. Returns whether the mesh has to be looked at again to catch up
    /// on a change that came in while the delay ran.
    pub fn tick(&mut self, expired: bool) -> (r: bool)
        ensures
            r == (old(self)@.0 && expired && old(self)@.1),
            final(self)@ == window_after_tick(old(self)@, expired),
    {
        if self.open && expired {
            let retrigger = self.catch_up;
            self.open = false;
            self.catch_up = false;
            retrigger
        } else {
            false
        }
    }
}

/// Builds of a debounced navigation mesh start at most once per delay: from
/// any window, a run of changes starts at most one build, and none while a
/// delay runs; the first change of a run that finds no delay running opens one,
/// and builds unless a build is already running. When the delay then runs out,
/// the window closes, and the mesh is looked at again exactly when a change came
/// in while the delay ran; that look starts the catch-up build unless a build
/// is running then.
pub proof fn debounce_builds_once_per_delay(
    w: (bool, bool),
    build_running: Seq<bool>,
    running_at_catch_up: bool,
)
    ensures
        debounced_builds(w, build_running) <= 1,
        w.0 ==> debounced_builds(w, build_running) == 0,
        !w.0 && build_running.len() > 0 ==> debounced_builds(w, build_running) == (if build_running[0] {
            0nat
        } else {
            1nat
        }),
        build_running.len() > 0 ==> window_after_debounced_changes(w, build_running.len()).0,
        ({
            let end = window_after_debounced_changes(w, build_running.len());
            &&& !window_after_tick(end, true).0
            &&& (end.0 && end.1) == ((w.0 && (w.1 || build_running.len() > 0)) || (!w.0
                && build_running.len() > 1))
        }),
        trigger_plan_spec(
            window_after_tick(window_after_debounced_changes(w, build_running.len()), true).0,
            UpdateModeKind::Debounced,
            running_at_catch_up,
        ).build == !running_at_catch_up,
    decreases build_running.len(),
{
    if build_running.len() > 0 {
        let next = window_after_change(w, UpdateModeKind::Debounced);
        let rest = build_running.drop_first();
        debounce_builds_once_per_delay(next, rest, running_at_catch_up);
        assert(next.0);
    }
}

/// What the updater knows of a navigation mesh when deciding which ones to look at.
#[derive(Debug, Clone, Copy, PartialEq, Eq, Structural)]
pub struct NavMeshWatch {
    /// The id of the entity holding the navigation mesh.
    pub entity: u64,
    /// Its settings changed since the last update.
    pub settings_changed: bool,
    /// Its update mode.
    pub mode: UpdateModeKind,
}

/// A navigation mesh has to be looked at: its settings changed, an obstacle
/// was removed or changed, or a rebuild was asked for.
pub open spec fn needs_check(w: NavMeshWatch, obstacles_removed: bool, obstacles_changed: bool) -> bool {
    w.settings_changed || obstacles_removed || w.mode == UpdateModeKind::OnDemand(true)
        || obstacles_changed
}

/// The entities of the navigation meshes to look at, each once and in
/// increasing order: those that `needs_check` selects, and those whose debounce
/// delay ended with a change to catch up on (`retrigger`).
pub fn navmeshes_to_check(
    navmeshes: &Vec<NavMeshWatch>,
    obstacles_removed: bool,
    obstacles_changed: bool,
    retrigger: &Vec<u64>,
) -> (r: Vec<u64>)
    ensures
        strictly_sorted_u64(r@),
        forall|e: u64|
            r@.contains(e) <==> (retrigger@.contains(e) || exists|i: int|
                0 <= i < navmeshes@.len() && #[trigger] navmeshes@[i].entity == e && needs_check(
                    navmeshes@[i],
                    obstacles_removed,
                    obstacles_changed,
                )),
        forall|i: int|
            0 <= i < navmeshes@.len() && (navmeshes@[i].settings_changed || obstacles_removed
                || obstacles_changed || navmeshes@[i].mode == UpdateModeKind::OnDemand(true))
                ==> r@.contains(#[trigger] navmeshes@[i].entity),
        forall|e: u64|
            #![trigger r@.contains(e)]
            r@.contains(e) && !retrigger@.contains(e) ==> exists|i: int|
                0 <= i < navmeshes@.len() && #[trigger] navmeshes@[i].entity == e && (
                navmeshes@[i].settings_changed || obstacles_removed || obstacles_changed
                    || navmeshes@[i].mode == UpdateModeKind::OnDemand(true)),
        forall|j: int| 0 <= j < retrigger@.len() ==> r@.contains(#[trigger] retrigger@[j]),
{
    let mut candidates: Vec<u64> = Vec::new();
    let mut i: usize = 0;
    while i < navmeshes.len()
        invariant
            0 <= i <= navmeshes.len(),
            forall|e: u64|
                candidates@.contains(e) <==> exists|k: int|
                    0 <= k < i && #[trigger] navmeshes@[k].entity == e && needs_check(
                        navmeshes@[k],
                        obstacles_removed,
                        obstacles_changed,
                    ),
        decreases navmeshes.len() - i,
    {
        let w = navmeshes[i];
        let selected = w.settings_changed || obstacles_removed || (match w.mode {
            UpdateModeKind::OnDemand(true) => true,
            _ => false,
        }) || obstacles_changed;
        let ghost before = candidates@;
        if selected {
            candidates.push(w.entity);
        }
        proof {
            assert forall|e: u64|
                candidates@.contains(e) <==> exists|k: int|
                    0 <= k < i + 1 && #[trigger] navmeshes@[k].entity == e && needs_check(
                        navmeshes@[k],
                        obstacles_removed,
                        obstacles_changed,
                    ) by {
                if candidates@.contains(e) {
                    let j = choose|j: int| 0 <= j < candidates@.len() && candidates@[j] == e;
                    if j < before.len() {
                        assert(before[j] == e);
                        assert(before.contains(e));
                    } else {
                        assert(navmeshes@[i as int].entity == e);
                    }
                }
                if exists|k: int|
                    0 <= k < i + 1 && #[trigger] navmeshes@[k].entity == e && needs_check(
                        navmeshes@[k],
                        obstacles_removed,
                        obstacles_changed,
                    ) {
                    let k = choose|k: int|
                        0 <= k < i + 1 && #[trigger] navmeshes@[k].entity == e && needs_check(
                            navmeshes@[k],
                            obstacles_removed,
                            obstacles_changed,
                        );
                    if k < i {
                        assert(before.contains(e));
                        let j = choose|j: int| 0 <= j < before.len() && before[j] == e;
                        assert(candidates@[j] == e);
                    } else {
                        assert(candidates@[candidates@.len() - 1] == e);
                    }
                }
            }
        }
        i = i + 1;
    }
    let mut j: usize = 0;
    let ghost from_watch = candidates@;
    while j < retrigger.len()
        invariant
            0 <= j <= retrigger.len(),
            candidates@ =~= from_watch + retrigger@.subrange(0, j as int),
        decreases retrigger.len() - j,
    {
        candidates.push(retrigger[j]);
        proof {
            assert(retrigger@.subrange(0, j + 1) =~= retrigger@.subrange(0, j as int).push(
                retrigger@[j as int],
            ));
        }
        j = j + 1;
    }
    proof {
        assert(retrigger@.subrange(0, retrigger@.len() as int) =~= retrigger@);
        assert forall|x: u64| candidates@.contains(x) <==> (from_watch.contains(x) || retrigger@.contains(x)) by {
            vstd::seq_lib::lemma_seq_concat_contains_all_elements(from_watch, retrigger@, x);
        }
    }
    let r = sorted_unique_u64(&candidates);
    assert forall|e: u64|
        r@.contains(e) <==> (retrigger@.contains(e) || exists|i: int|
            0 <= i < navmeshes@.len() && #[trigger] navmeshes@[i].entity == e && needs_check(
                navmeshes@[i],
                obstacles_removed,
                obstacles_changed,
            )) by {
        assert(r@.contains(e) <==> candidates@.contains(e));
        assert(from_watch.contains(e) <==> exists|i: int|
            0 <= i < navmeshes@.len() && #[trigger] navmeshes@[i].entity == e && needs_check(
                navmeshes@[i],
                obstacles_removed,
                obstacles_changed,
            ));
    }
    proof {
        meshes_looked_at_law(navmeshes@, obstacles_removed, obstacles_changed, retrigger@, r@);
    }
    r
}

/// Which navigation meshes are looked at, for any list that holds exactly
/// the entities that `navmeshes_to_check` promises: every mesh whose settings
/// changed, whatever its update mode; every mesh when an obstacle was
/// removed or changed; every mesh with a pending on-demand request; every
/// mesh whose delay ended with a change to catch up on. And no other: an
/// entity outside the catch-ups is looked at only for one of those reasons.
pub proof fn meshes_looked_at_law(
    navmeshes: Seq<NavMeshWatch>,
    obstacles_removed: bool,
    obstacles_changed: bool,
    retrigger: Seq<u64>,
    r: Seq<u64>,
)
    requires
        forall|e: u64|
            r.contains(e) <==> (retrigger.contains(e) || exists|i: int|
                0 <= i < navmeshes.len() && #[trigger] navmeshes[i].entity == e && needs_check(
                    navmeshes[i],
                    obstacles_removed,
                    obstacles_changed,
                )),
    ensures
        forall|i: int|
            0 <= i < navmeshes.len() && navmeshes[i].settings_changed ==> r.contains(
                #[trigger] navmeshes[i].entity,
            ),
        forall|i: int|
            0 <= i < navmeshes.len() && (obstacles_removed || obstacles_changed) ==> r.contains(
                #[trigger] navmeshes[i].entity,
            ),
        forall|i: int|
            0 <= i < navmeshes.len() && navmeshes[i].mode == UpdateModeKind::OnDemand(true)
                ==> r.contains(#[trigger] navmeshes[i].entity),
        forall|i: int|
            0 <= i < navmeshes.len() && (navmeshes[i].settings_changed || obstacles_removed
                || obstacles_changed || navmeshes[i].mode == UpdateModeKind::OnDemand(true))
                ==> r.contains(#[trigger] navmeshes[i].entity),
        forall|j: int| 0 <= j < retrigger.len() ==> r.contains(#[trigger] retrigger[j]),
        forall|e: u64|
            #![trigger r.contains(e)]
            r.contains(e) && !retrigger.contains(e) ==> exists|i: int|
                0 <= i < navmeshes.len() && #[trigger] navmeshes[i].entity == e && (
                navmeshes[i].settings_changed || obstacles_removed || obstacles_changed
                    || navmeshes[i].mode == UpdateModeKind::OnDemand(true)),
{
    assert forall|i: int|
        0 <= i < navmeshes.len() && (navmeshes[i].settings_changed || obstacles_removed
            || obstacles_changed || navmeshes[i].mode == UpdateModeKind::OnDemand(true)) implies r.contains(
        #[trigger] navmeshes[i].entity,
    ) by {
        assert(needs_check(navmeshes[i], obstacles_removed, obstacles_changed));
    }
    assert forall|j: int| 0 <= j < retrigger.len() implies r.contains(#[trigger] retrigger[j]) by {
        assert(retrigger.contains(retrigger[j]));
    }
}

/// The cache of static obstacles of a navigation mesh is dropped when a
/// cachable obstacle was added or removed, or when the mesh's settings changed.
pub fn should_clear_cache(cachable_obstacles_changed: bool, settings_changed: bool) -> (r: bool)
    ensures
        r == (cachable_obstacles_changed || settings_changed),
{
    cachable_obstacles_changed || settings_changed
}

/// How a build uses the cache of static (cachable) obstacles.
#[derive(Debug, Clone, Copy, PartialEq, Eq, Structural)]
pub struct BuildPlan {
    /// Gather the cachable obstacles and build the base triangulation from the
    /// fixed edges and them; otherwise the cached base is used.
    pub rebuild_base: bool,
    /// Hand the base that the build started from (rebuilt or cached) back,
    /// to be kept as the cache.
    pub store_base: bool,
}

/// Plans a build from whether a cached base exists and how many cachable
/// obstacles were handed to the build.
///
/// The base is rebuilt exactly when there is no cache, and it is handed back
/// exactly when cachable obstacles were handed in: the cached base itself
/// when it was used.
pub fn plan_build(has_cache: bool, cachable_obstacle_count: usize) -> (r: BuildPlan)
    ensures
        r.rebuild_base == !has_cache,
        r.store_base == (cachable_obstacle_count > 0),
{
    BuildPlan { rebuild_base: !has_cache, store_base: cachable_obstacle_count > 0 }
}

/// What the watch over a running build does in one update.
#[derive(Debug, Clone, Copy, PartialEq, Eq, Structural)]
pub struct TaskWatch {
    /// Remember the current time as the start of the build.
    pub record_start: bool,
    /// The new status of the navigation mesh, if it changes.
    pub new_status: Option<NavMeshStatus>,
    /// Drop the build task and forget its start time.
    pub stop_task: bool,
}

/// The watch that `watch_build_task` returns, stated directly.
pub open spec fn task_watch_spec(
    status_changed: bool,
    start_known: bool,
    settings_changed: bool,
    timed_out: Option<bool>,
) -> TaskWatch {
    if status_changed {
        TaskWatch { record_start: true, new_status: None, stop_task: false }
    } else if !start_known {
        TaskWatch { record_start: false, new_status: None, stop_task: false }
    } else {
        let failed = timed_out == Some(true);
        TaskWatch {
            record_start: false,
            new_status: if failed {
                Some(NavMeshStatus::Failed)
            } else if settings_changed {
                Some(NavMeshStatus::Cancelled)
            } else {
                None
            },
            stop_task: failed || settings_changed,
        }
    }
}

/// How a running build is watched: the start of a build is recorded exactly
/// when the status of its mesh just changed, whether or not a start was known
/// before, and then nothing else happens. Once a start is known, a settings
/// change cancels the build and a timeout fails it, the timeout winning when
/// both happen; the task is dropped exactly in those two cases. Without a
/// known start nothing is cancelled or failed.
pub proof fn build_watch_law(
    status_changed: bool,
    start_known: bool,
    settings_changed: bool,
    timed_out: Option<bool>,
)
    ensures
        ({
            let w = task_watch_spec(status_changed, start_known, settings_changed, timed_out);
            &&& w.record_start == status_changed
            &&& (status_changed || !start_known) ==> (w.new_status is None && !w.stop_task)
            &&& (!status_changed && start_known) ==> (w.stop_task == (settings_changed
                || timed_out == Some(true)))
            &&& (!status_changed && start_known && timed_out == Some(true)) ==> w.new_status
                == Some(NavMeshStatus::Failed)
            &&& (!status_changed && start_known && timed_out != Some(true) && settings_changed)
                ==> w.new_status == Some(NavMeshStatus::Cancelled)
            &&& (!status_changed && start_known && timed_out != Some(true) && !settings_changed)
                ==> w.new_status is None
        }),
{
}

/// Watches a navigation mesh that has a build task attached.
///
/// - `status_changed`: its status changed since the last update (a build was
///   just started), so the start time is recorded;
/// - `start_known`: a start time was recorded for it;
/// - `settings_changed`: its settings changed, which cancels the build;
/// - `timed_out`: `None` when no timeout is set, otherwise whether the time
///   since the start exceeds it, which fails the build.
///
/// A timeout is checked after a cancellation, so it has the last word.
pub fn watch_build_task(
    status_changed: bool,
    start_known: bool,
    settings_changed: bool,
    timed_out: Option<bool>,
) -> (r: TaskWatch)
    ensures
        r == task_watch_spec(status_changed, start_known, settings_changed, timed_out),
        r.record_start == status_changed,
        status_changed || !start_known ==> r.new_status is None && !r.stop_task,
        !status_changed && start_known ==> r.stop_task == (settings_changed || timed_out == Some(
            true,
        )),
        !status_changed && start_known ==> r.new_status == (if timed_out == Some(true) {
            Some(NavMeshStatus::Failed)
        } else if settings_changed {
            Some(NavMeshStatus::Cancelled)
        } else {
            None
        }),
{
    proof {
        build_watch_law(status_changed, start_known, settings_changed, timed_out);
    }
    let mut watch = TaskWatch { record_start: false, new_status: None, stop_task: false };
    if status_changed {
        watch.record_start = true;
    } else if start_known {
        if settings_changed {
            watch.new_status = Some(NavMeshStatus::Cancelled);
            watch.stop_task = true;
        }
        match timed_out {
            None => {},
            Some(exceeded) => {
                if exceeded {
                    watch.new_status = Some(NavMeshStatus::Failed);
                    watch.stop_task = true;
                }
            },
        }
    }
    watch
}

/// A navigation mesh that the updater keeps up to date, named by the id of
/// its asset.
#[derive(Debug, Clone, Copy, PartialEq, Eq, Structural)]
pub struct ManagedNavMesh {
    id: u128,
}

impl ManagedNavMesh {
    /// The id of the asset of this navigation mesh.
    pub closed spec fn asset_id(self) -> u128 {
        self.id
    }

    /// A managed navigation mesh is named by its asset id alone: two with the
    /// same id are the same, so `single()` is `from_id(0)`.
    pub proof fn asset_id_names_the_mesh(a: Self, b: Self)
        requires
            a.asset_id() == b.asset_id(),
        ensures
            a == b,
    {
    }

    /// A managed navigation mesh with the given asset id.
    pub fn from_id(id: u128) -> (r: Self)
        ensures
            r.asset_id() == id,
    {
        ManagedNavMesh { id }
    }

    /// The managed navigation mesh of a scene that holds only one: its asset
    /// id is `0`.
    pub fn single() -> (r: Self)
        ensures
            r.asset_id() == 0,
    {
        ManagedNavMesh { id: 0 }
    }

    /// The id of the asset of this navigation mesh.
    pub fn id(&self) -> (r: u128)
        ensures
            r == self.asset_id(),
    {
        self.id
    }
}

} // verus!
