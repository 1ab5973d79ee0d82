use vleue_navigator::stitching::{
    grow_layers, layer_count_for, layer_update_plan, stitch_targets, LayerUpdate, StitchFinish,
    StitchRun,
};
use vleue_navigator::updater::NavMeshStatus;

#[test]
fn targets_are_the_stitches_touching_the_layer() {
    let stitches = vec![(0, 1), (2, 0), (1, 2), (0, 0)];
    assert_eq!(stitch_targets(&stitches, 0), vec![(0, 1), (1, 2), (3, 0)]);
    assert_eq!(stitch_targets(&stitches, 1), vec![(0, 0), (2, 2)]);
    assert_eq!(stitch_targets(&stitches, 5), vec![]);
}

#[test]
fn layer_count_grows_to_hold_layer() {
    assert_eq!(layer_count_for(0, 0), 1);
    assert_eq!(layer_count_for(1, 3), 4);
    assert_eq!(layer_count_for(5, 3), 5);
    assert_eq!(layer_count_for(4, 3), 4);
    assert_eq!(layer_count_for(0, 255), 256);
}

#[test]
fn all_stitches_made_publishes() {
    let mut run = StitchRun::new(vec![(1, 0), (0, 1)]);
    assert!(run.target_available(&vec![4, 3], 1));
    let pairs = run.pair_points(0, 1, &vec![2, 3], &vec![0, 1]).unwrap();
    assert_eq!(pairs, vec![(2, 0), (3, 1)]);
    run.stitch_made(0, 1, pairs);
    assert!(run.previously_failed.is_empty());
    assert_eq!(run.stitched.len(), 1);
    assert_eq!(run.stitched[0].layers, (0, 1));
    match run.finish(0, true) {
        (NavMeshStatus::Built, StitchFinish::Publish { use_entity_transform: true }) => {}
        other => panic!("unexpected {:?}", other),
    }
}

#[test]
fn publish_on_other_layer_keeps_transform() {
    let run = StitchRun::new(vec![]);
    match run.finish(2, false) {
        (NavMeshStatus::Built, StitchFinish::Publish { use_entity_transform: false }) => {}
        other => panic!("unexpected {:?}", other),
    }
}

#[test]
fn missing_layer_makes_mesh_invalid() {
    let mut run = StitchRun::new(vec![]);
    assert!(!run.target_available(&vec![4, 3], 2));
    assert_eq!(run.status, NavMeshStatus::Invalid);
    assert!(!run.target_available(&vec![4, 0], 1));
    match run.finish(0, false) {
        (NavMeshStatus::Invalid, StitchFinish::PublishInvalid) => {}
        other => panic!("unexpected {:?}", other),
    }
}

#[test]
fn failed_stitches_are_kept_sorted_once() {
    let mut run = StitchRun::new(vec![(2, 1), (0, 3), (2, 1)]);
    assert_eq!(run.pair_points(2, 0, &vec![1, 2], &vec![1]), None);
    assert_eq!(run.status, NavMeshStatus::Failed);
    run.points_mismatch(2, 3);
    run.points_mismatch(2, 0);
    assert_eq!(run.failed_stitches, vec![(2, 0), (2, 3), (2, 0)]);
    match run.finish(2, true) {
        (NavMeshStatus::Failed, StitchFinish::KeepBuilding { failed_stitches }) => {
            assert_eq!(failed_stitches, vec![(0, 3), (2, 0), (2, 1), (2, 3)]);
        }
        other => panic!("unexpected {:?}", other),
    }
}

#[test]
fn earlier_failure_blocks_publication() {
    let mut run = StitchRun::new(vec![(0, 2), (3, 0)]);
    run.stitch_made(0, 3, vec![]);
    assert_eq!(run.previously_failed, vec![(0, 2)]);
    match run.finish(0, true) {
        (NavMeshStatus::Built, StitchFinish::KeepBuilding { failed_stitches }) => {
            assert_eq!(failed_stitches, vec![(0, 2)]);
        }
        other => panic!("unexpected {:?}", other),
    }
}

#[test]
fn named_layer_is_replaced_and_stitched() {
    assert_eq!(layer_update_plan(Some(3)), LayerUpdate { layer_id: 3, stitch: true });
    assert_eq!(layer_update_plan(Some(0)), LayerUpdate { layer_id: 0, stitch: true });
}

#[test]
fn without_a_layer_the_first_is_replaced_without_stitching() {
    assert_eq!(layer_update_plan(None), LayerUpdate { layer_id: 0, stitch: false });
}

#[test]
fn layers_grow_with_clones_and_keep_what_they_had() {
    let mut layers = vec![String::from("a"), String::from("b")];
    grow_layers(&mut layers, 4, &String::from("empty"));
    assert_eq!(layers, vec!["a", "b", "empty", "empty", "empty"]);
    grow_layers(&mut layers, 1, &String::from("other"));
    assert_eq!(layers, vec!["a", "b", "empty", "empty", "empty"]);
    let mut none: Vec<u32> = vec![];
    grow_layers(&mut none, 0, &7);
    assert_eq!(none, vec![7]);
}
