use rustflow::controls::{
    handle_controls, import_gate, is_gltf_extension, is_wheel_name, placement_step, plan_cube, staged_asset_path,
    CubePlan, ImportGate, PlacementAction, ShortcutKeys, VizSettings, RESEAT_DELAY_FRAMES,
};
use rustflow::mesh::triangle_list;

fn no_keys() -> ShortcutKeys {
    ShortcutKeys {
        toggle_running: false,
        reset_flow: false,
        toggle_streamlines: false,
        toggle_obstacle: false,
        toggle_color: false,
        import_model: false,
        restore_cube: false,
    }
}

#[test]
fn default_viz_settings() {
    let v = VizSettings::default();
    assert!(v.show_streamlines && v.show_obstacle && v.color_by_speed && v.spin_wheels);
    assert_eq!(v.density, 20);
    assert_eq!(v.seeds_per_axis(), 20);
}

#[test]
fn seeds_per_axis_at_least_two() {
    let mut v = VizSettings::default();
    v.density = 0;
    assert_eq!(v.seeds_per_axis(), 2);
    v.density = 1;
    assert_eq!(v.seeds_per_axis(), 2);
    v.density = 36;
    assert_eq!(v.seeds_per_axis(), 36);
}

#[test]
fn shortcuts_toggle_and_request() {
    let mut keys = no_keys();
    keys.toggle_running = true;
    keys.toggle_streamlines = true;
    keys.import_model = true;
    keys.reset_flow = true;
    let (mut running, mut viz, mut import, mut restore) = (true, VizSettings::default(), false, false);
    let reset = handle_controls(&keys, &mut running, &mut viz, &mut import, &mut restore);
    assert!(reset);
    assert!(!running);
    assert!(!viz.show_streamlines);
    assert!(viz.show_obstacle && viz.color_by_speed);
    assert!(import);
    assert!(!restore);
}

#[test]
fn no_keys_change_nothing() {
    let (mut running, mut viz, mut import, mut restore) = (false, VizSettings::default(), true, false);
    let reset = handle_controls(&no_keys(), &mut running, &mut viz, &mut import, &mut restore);
    assert!(!reset);
    assert!(!running);
    assert_eq!(viz, VizSettings::default());
    assert!(import);
    assert!(!restore);
}

#[test]
fn pressing_toggles_twice_restores() {
    let keys = ShortcutKeys {
        toggle_running: true,
        reset_flow: false,
        toggle_streamlines: true,
        toggle_obstacle: true,
        toggle_color: true,
        import_model: false,
        restore_cube: true,
    };
    let start = VizSettings::default();
    let (mut running, mut viz, mut import, mut restore) = (true, start, false, false);
    handle_controls(&keys, &mut running, &mut viz, &mut import, &mut restore);
    assert!(!viz.show_obstacle && !viz.color_by_speed);
    handle_controls(&keys, &mut running, &mut viz, &mut import, &mut restore);
    assert!(running);
    assert_eq!(viz, start);
    assert!(restore);
}

#[test]
fn restore_request_rebuilds_cube() {
    let expected = CubePlan { drop_model: true, rebuild: true, cube_active: true };
    assert_eq!(plan_cube(true, true, false, false), expected);
    assert_eq!(plan_cube(true, false, true, true), expected);
}

#[test]
fn model_keeps_cube_inactive() {
    assert_eq!(
        plan_cube(false, true, true, true),
        CubePlan { drop_model: false, rebuild: false, cube_active: false }
    );
}

#[test]
fn cube_follows_ride_height() {
    assert_eq!(
        plan_cube(false, false, true, true),
        CubePlan { drop_model: false, rebuild: true, cube_active: true }
    );
    assert_eq!(
        plan_cube(false, false, true, false),
        CubePlan { drop_model: false, rebuild: false, cube_active: true }
    );
    assert_eq!(
        plan_cube(false, false, false, true),
        CubePlan { drop_model: false, rebuild: false, cube_active: false }
    );
}

#[test]
fn placement_steps() {
    assert_eq!(placement_step(true, None), (PlacementAction::Reseat, Some(RESEAT_DELAY_FRAMES)));
    assert_eq!(placement_step(true, Some(0)), (PlacementAction::Reseat, Some(1)));
    assert_eq!(placement_step(false, Some(3)), (PlacementAction::Wait, Some(2)));
    assert_eq!(placement_step(false, Some(0)), (PlacementAction::Voxelize, None));
    assert_eq!(placement_step(false, None), (PlacementAction::Idle, None));
}

#[test]
fn reseat_then_wait_then_voxelize() {
    let (a0, v0) = placement_step(true, None);
    let (a1, v1) = placement_step(false, v0);
    let (a2, v2) = placement_step(false, v1);
    let (a3, _) = placement_step(false, v2);
    assert_eq!(
        [a0, a1, a2, a3],
        [PlacementAction::Reseat, PlacementAction::Wait, PlacementAction::Voxelize, PlacementAction::Idle]
    );
}

#[test]
fn countdown_from_five() {
    let mut v = Some(5u8);
    for _ in 0..5 {
        let (a, nv) = placement_step(false, v);
        assert_eq!(a, PlacementAction::Wait);
        v = nv;
    }
    assert_eq!(v, Some(0));
    assert_eq!(placement_step(false, v), (PlacementAction::Voxelize, None));
}

#[test]
fn import_gate_answers() {
    let mut req = false;
    assert_eq!(import_gate(&mut req, false), ImportGate::Idle);
    assert!(!req);
    let mut req = true;
    assert_eq!(import_gate(&mut req, true), ImportGate::AlreadyPending);
    assert!(!req);
    let mut req = true;
    assert_eq!(import_gate(&mut req, false), ImportGate::OpenDialog);
    assert!(!req);
}

#[test]
fn gltf_extension_ignores_ascii_case() {
    assert!(is_gltf_extension("gltf"));
    assert!(is_gltf_extension("GLTF"));
    assert!(is_gltf_extension("GlTf"));
    assert!(!is_gltf_extension("glb"));
    assert!(!is_gltf_extension("gltfx"));
    assert!(!is_gltf_extension(""));
    assert!(!is_gltf_extension("gltf "));
    assert!(!is_gltf_extension("gľtf"));
}

#[test]
fn staged_paths() {
    assert_eq!(staged_asset_path(Some("car.gltf"), true), "imported/model/car.gltf");
    assert_eq!(staged_asset_path(Some("car.glb"), false), "imported/car.glb");
    assert_eq!(staged_asset_path(None, false), "imported/model.glb");
    assert_eq!(staged_asset_path(None, true), "imported/model/model.glb");
}

#[test]
fn indexed_triangles() {
    let ix: Vec<u32> = vec![0, 1, 2, 2, 3, 0, 7];
    assert_eq!(triangle_list(Some(&ix), 8), vec![(0, 1, 2), (2, 3, 0)]);
}

#[test]
fn unindexed_triangles() {
    assert_eq!(triangle_list(None, 7), vec![(0, 1, 2), (3, 4, 5)]);
    assert!(triangle_list(None, 2).is_empty());
    assert!(triangle_list(Some(&[]), 9).is_empty());
}

#[test]
fn wheel_names_ignore_ascii_case() {
    assert!(is_wheel_name("FrontWheel_L"));
    assert!(is_wheel_name("TYRE"));
    assert!(is_wheel_name("Tire.003"));
    assert!(is_wheel_name("Rim.001"));
    assert!(is_wheel_name("trim_panel"));
    assert!(!is_wheel_name("body"));
    assert!(!is_wheel_name("whe el"));
    assert!(!is_wheel_name(""));
    assert!(!is_wheel_name("ri"));
}
