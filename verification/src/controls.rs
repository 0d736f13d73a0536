//! Per-frame decisions of the interactive front end: keyboard shortcuts,
//! display settings, the default-cube and model-placement state machines,
//! the model-import gate, and where an imported model is staged.
//!
//! Each function takes the state and what happened this frame and returns
//! the next state and what the caller must do; the caller performs the
//! actual work (spawning meshes, opening dialogs, copying files).

use vstd::prelude::*;

verus! {

/// Display options, driven from the settings menu.
#[derive(Clone, Copy, Debug, PartialEq, Eq, Structural)]
pub struct VizSettings {
    pub show_streamlines: bool,
    pub show_obstacle: bool,
    pub color_by_speed: bool,
    /// Spin imported wheels at a rate proportional to wind speed.
    pub spin_wheels: bool,
    /// Seed lines per axis on the inlet face (density x density lines).
    pub density: u32,
}

impl Default for VizSettings {
    fn default() -> (r: Self)
        ensures
            r.show_streamlines,
            r.show_obstacle,
            r.color_by_speed,
            r.spin_wheels,
            r.density == 20,
    {
        VizSettings {
            show_streamlines: true,
            show_obstacle: true,
            color_by_speed: true,
            spin_wheels: true,
            density: 20,
        }
    }
}

impl VizSettings {
    /// Streamline seeds per axis of the inlet rake: the configured density,
    /// but never fewer than two.
    pub fn seeds_per_axis(&self) -> (n: u32)
        ensures
            n == if self.density < 2 {
                2
            } else {
                self.density
            },
    {
        if self.density < 2 {
            2
        } else {
            self.density
        }
    }
}

/// Shortcut keys pressed this frame.
#[derive(Clone, Copy, Debug, PartialEq, Eq, Structural)]
pub struct ShortcutKeys {
    /// `Enter`: pause / resume the simulation.
    pub toggle_running: bool,
    /// `R`: reset the flow field to rest.
    pub reset_flow: bool,
    /// `P`: toggle streamlines.
    pub toggle_streamlines: bool,
    /// `B`: toggle obstacle visibility.
    pub toggle_obstacle: bool,
    /// `C`: toggle color-by-speed.
    pub toggle_color: bool,
    /// `O`: import a model.
    pub import_model: bool,
    /// `X`: drop the model and restore the default cube.
    pub restore_cube: bool,
}

/// Display settings after this frame's shortcut keys.
pub open spec fn toggled_viz(viz: VizSettings, keys: ShortcutKeys) -> VizSettings {
    VizSettings {
        show_streamlines: viz.show_streamlines != keys.toggle_streamlines,
        show_obstacle: viz.show_obstacle != keys.toggle_obstacle,
        color_by_speed: viz.color_by_speed != keys.toggle_color,
        spin_wheels: viz.spin_wheels,
        density: viz.density,
    }
}

/// Applies this frame's keyboard shortcuts: toggles the run flag and the
/// display layers, raises the import / restore requests, and returns whether
/// the flow field must be reset.
pub fn handle_controls(
    keys: &ShortcutKeys,
    running: &mut bool,
    viz: &mut VizSettings,
    import_requested: &mut bool,
    restore_requested: &mut bool,
) -> (reset: bool)
    ensures
        *final(running) == (*old(running) != keys.toggle_running),
        *final(viz) == toggled_viz(*old(viz), *keys),
        final(viz).show_streamlines == (old(viz).show_streamlines != keys.toggle_streamlines),
        final(viz).show_obstacle == (old(viz).show_obstacle != keys.toggle_obstacle),
        final(viz).color_by_speed == (old(viz).color_by_speed != keys.toggle_color),
        final(viz).spin_wheels == old(viz).spin_wheels,
        final(viz).density == old(viz).density,
        *final(import_requested) == (*old(import_requested) || keys.import_model),
        *final(restore_requested) == (*old(restore_requested) || keys.restore_cube),
        reset == keys.reset_flow,
{
    if keys.toggle_running {
        *running = !*running;
    }
    if keys.toggle_streamlines {
        viz.show_streamlines = !viz.show_streamlines;
    }
    if keys.toggle_obstacle {
        viz.show_obstacle = !viz.show_obstacle;
    }
    if keys.toggle_color {
        viz.color_by_speed = !viz.color_by_speed;
    }
    if keys.import_model {
        *import_requested = true;
    }
    if keys.restore_cube {
        *restore_requested = true;
    }
    keys.reset_flow
}

/// What the default-cube manager does this frame.
#[derive(Clone, Copy, Debug, PartialEq, Eq, Structural)]
pub struct CubePlan {
    /// Drop the imported model (placed or still loading).
    pub drop_model: bool,
    /// Clear the obstacle and rebuild the cube at the current ride height.
    pub rebuild: bool,
    /// Whether the cube is the active obstacle afterwards.
    pub cube_active: bool,
}

/// The default-cube decision for one frame.
pub open spec fn spec_plan_cube(
    restore_requested: bool,
    model_active: bool,
    cube_active: bool,
    ride_changed: bool,
) -> CubePlan {
    CubePlan {
        drop_model: restore_requested,
        rebuild: restore_requested || (!model_active && cube_active && ride_changed),
        cube_active: restore_requested || (!model_active && cube_active),
    }
}

/// Decides the default cube's fate: an explicit restore request drops any
/// model and rebuilds the cube; while a model is placed or loading the cube
/// stays inactive; otherwise an active cube is rebuilt when the ride height
/// changed.
pub fn plan_cube(
    restore_requested: bool,
    model_active: bool,
    cube_active: bool,
    ride_changed: bool,
) -> (p: CubePlan)
    ensures
        p == spec_plan_cube(restore_requested, model_active, cube_active, ride_changed),
        p.drop_model == restore_requested,
        p.rebuild == (restore_requested || (!model_active && cube_active && ride_changed)),
        p.cube_active == (restore_requested || (!model_active && cube_active)),
{
    if restore_requested {
        CubePlan { drop_model: true, rebuild: true, cube_active: true }
    } else if model_active {
        CubePlan { drop_model: false, rebuild: false, cube_active: false }
    } else {
        CubePlan { drop_model: false, rebuild: cube_active && ride_changed, cube_active }
    }
}

/// Frames to wait after re-seating a model before voxelizing it, so the new
/// transform has propagated.
pub const RESEAT_DELAY_FRAMES: u8 = 1;

/// What the model placement does this frame.
#[derive(Clone, Copy, Debug, PartialEq, Eq, Structural)]
pub enum PlacementAction {
    /// Rebuild the model transform from the current ride height / heading.
    Reseat,
    /// Wait for the transform to propagate.
    Wait,
    /// Re-voxelize the model into the obstacle mask.
    Voxelize,
    /// Nothing to do.
    Idle,
}

/// One frame of the placement state machine, from whether the ride height
/// or heading changed and the pending voxelization countdown.
pub open spec fn spec_placement_step(settings_changed: bool, voxelize_in: Option<u8>) -> (
    PlacementAction,
    Option<u8>,
) {
    if settings_changed {
        (PlacementAction::Reseat, Some(RESEAT_DELAY_FRAMES))
    } else {
        match voxelize_in {
            Some(n) => if n > 0 {
                (PlacementAction::Wait, Some((n - 1) as u8))
            } else {
                (PlacementAction::Voxelize, None)
            },
            None => (PlacementAction::Idle, None),
        }
    }
}

/// Advances the placement state machine by one frame: re-seat when the
/// settings changed, otherwise count the pending voxelization down and
/// voxelize when it reaches zero. Returns the action and the new countdown.
pub fn placement_step(settings_changed: bool, voxelize_in: Option<u8>) -> (r: (
    PlacementAction,
    Option<u8>,
))
    ensures
        r == spec_placement_step(settings_changed, voxelize_in),
{
    if settings_changed {
        return (PlacementAction::Reseat, Some(RESEAT_DELAY_FRAMES));
    }
    match voxelize_in {
        Some(n) => if n > 0 {
            (PlacementAction::Wait, Some(n - 1))
        } else {
            (PlacementAction::Voxelize, None)
        },
        None => (PlacementAction::Idle, None),
    }
}

/// How an import request is answered this frame.
#[derive(Clone, Copy, Debug, PartialEq, Eq, Structural)]
pub enum ImportGate {
    /// No import was requested.
    Idle,
    /// A model is still loading; the request is dropped.
    AlreadyPending,
    /// Open the file dialog.
    OpenDialog,
}

/// Consumes the import request flag and decides whether to open the file
/// dialog: only when an import was requested and no model is loading.
pub fn import_gate(requested: &mut bool, pending: bool) -> (g: ImportGate)
    ensures
        !*final(requested),
        g == if !*old(requested) {
            ImportGate::Idle
        } else if pending {
            ImportGate::AlreadyPending
        } else {
            ImportGate::OpenDialog
        },
{
    if !*requested {
        return ImportGate::Idle;
    }
    *requested = false;
    if pending {
        ImportGate::AlreadyPending
    } else {
        ImportGate::OpenDialog
    }
}

/// `c` is the lowercase ASCII letter `lower` or its uppercase form.
pub open spec fn eq_ignore_ascii_case(c: char, lower: char) -> bool {
    c == lower || c as int + 32 == lower as int
}

/// `ext` spells `gltf` in any mix of ASCII case.
pub open spec fn is_gltf_ext(ext: Seq<char>) -> bool {
    &&& ext.len() == 4
    &&& eq_ignore_ascii_case(ext[0], 'g')
    &&& eq_ignore_ascii_case(ext[1], 'l')
    &&& eq_ignore_ascii_case(ext[2], 't')
    &&& eq_ignore_ascii_case(ext[3], 'f')
}

/// Whether a file extension names a multi-file glTF model (`gltf`, ASCII
/// case ignored), whose whole folder must be staged; anything else (a
/// `.glb`) is self-contained.
pub fn is_gltf_extension(ext: &str) -> (r: bool)
    ensures
        r == is_gltf_ext(ext@),
{
    if ext.unicode_len() != 4 {
        return false;
    }
    let c0 = ext.get_char(0);
    let c1 = ext.get_char(1);
    let c2 = ext.get_char(2);
    let c3 = ext.get_char(3);
    (c0 == 'g' || c0 == 'G') && (c1 == 'l' || c1 == 'L') && (c2 == 't' || c2 == 'T') && (c3 == 'f'
        || c3 == 'F')
}

/// Asset path under which a staged model is loaded: a glTF model's folder is
/// copied to `imported/model/`, a `.glb` file to `imported/`; a source
/// without a file name is staged as `model.glb`.
pub fn staged_asset_path(file_name: Option<&str>, is_gltf: bool) -> (r: String)
    ensures
        r@ == (if is_gltf {
            "imported/model/"@
        } else {
            "imported/"@
        }) + (match file_name {
            Some(name) => name@,
            None => "model.glb"@,
        }),
{
    let name: &str = match file_name {
        Some(n) => n,
        None => "model.glb",
    };
    let mut path = if is_gltf {
        String::from_str("imported/model/")
    } else {
        String::from_str("imported/")
    };
    path.append(name);
    path
}


/// `c` with an ASCII uppercase letter mapped to its lowercase form.
pub open spec fn ascii_lower(c: char) -> char {
    if 'A' <= c <= 'Z' {
        ((c as int) + 32) as char
    } else {
        c
    }
}

/// `pat` occurs in `s` at position `i`, comparing `s` ASCII-lowercased.
pub open spec fn lower_match_at(s: Seq<char>, pat: Seq<char>, i: int) -> bool {
    &&& 0 <= i
    &&& i + pat.len() <= s.len()
    &&& forall|k: int| 0 <= k < pat.len() ==> ascii_lower(#[trigger] s[i + k]) == pat[k]
}

/// `pat` occurs somewhere in `s` ASCII-lowercased.
pub open spec fn lower_contains(s: Seq<char>, pat: Seq<char>) -> bool {
    exists|i: int| lower_match_at(s, pat, i)
}

/// A scene node name that marks a wheel: its ASCII-lowercased form contains
/// `wheel`, `tyre`, `tire` or `rim`.
pub open spec fn is_wheel_part(name: Seq<char>) -> bool {
    ||| lower_contains(name, "wheel"@)
    ||| lower_contains(name, "tyre"@)
    ||| lower_contains(name, "tire"@)
    ||| lower_contains(name, "rim"@)
}

/// Whether `c`, ASCII-lowercased, is `p`.
fn lower_char_eq(c: char, p: char) -> (r: bool)
    ensures
        r == (ascii_lower(c) == p),
{
    if 'A' <= c && c <= 'Z' {
        (c as u32) + 32 == (p as u32)
    } else {
        c == p
    }
}

/// Whether `pat` occurs in `s` (ASCII-lowercased) at position `i`.
fn lower_match_at_exec(s: &Vec<char>, pat: &Vec<char>, i: usize) -> (r: bool)
    ensures
        r == lower_match_at(s@, pat@, i as int),
        r == (i + pat@.len() <= s@.len() && forall|k: int|
            0 <= k < pat@.len() ==> ascii_lower(#[trigger] s@[i + k]) == pat@[k]),
{
    if i > s.len() || pat.len() > s.len() - i {
        return false;
    }
    let mut k: usize = 0;
    while k < pat.len()
        invariant
            i + pat@.len() <= s@.len(),
            s@.len() <= usize::MAX,
            k <= pat@.len(),
            forall|j: int| 0 <= j < k ==> ascii_lower(#[trigger] s@[i + j]) == pat@[j],
        decreases pat@.len() - k,
    {
        if !lower_char_eq(s[i + k], pat[k]) {
            return false;
        }
        k += 1;
    }
    true
}

/// The characters of `s`, in order.
fn chars_of(s: &str) -> (r: Vec<char>)
    ensures
        r@ == s@,
{
    let n = s.unicode_len();
    let mut r: Vec<char> = Vec::new();
    let mut i: usize = 0;
    while i < n
        invariant
            n == s@.len(),
            i <= n,
            r@ == s@.subrange(0, i as int),
        decreases n - i,
    {
        r.push(s.get_char(i));
        i += 1;
        assert(r@ =~= s@.subrange(0, i as int));
    }
    assert(r@ =~= s@);
    r
}

/// Whether `pat` occurs in `s`, comparing `s` ASCII-lowercased.
fn lower_contains_exec(s: &Vec<char>, pat: &str) -> (r: bool)
    ensures
        r == lower_contains(s@, pat@),
{
    let p = chars_of(pat);
    let mut i: usize = 0;
    while i < s.len()
        invariant
            p@ == pat@,
            i <= s@.len(),
            forall|j: int| 0 <= j < i ==> !lower_match_at(s@, pat@, j),
        decreases s@.len() - i,
    {
        if lower_match_at_exec(s, &p, i) {
            return true;
        }
        i += 1;
    }
    if lower_match_at_exec(s, &p, i) {
        return true;
    }
    assert forall|j: int| !lower_match_at(s@, pat@, j) by {
        if j > s@.len() && lower_match_at(s@, pat@, j) {
            assert(j + pat@.len() <= s@.len());
        }
    }
    false
}

/// Whether a scene node is a wheel that spins with the wind, judged by its
/// name: it contains `wheel`, `tyre`, `tire` or `rim`, ignoring ASCII case.
pub fn is_wheel_name(name: &str) -> (r: bool)
    ensures
        r == is_wheel_part(name@),
{
    let s = chars_of(name);
    lower_contains_exec(&s, "wheel") || lower_contains_exec(&s, "tyre") || lower_contains_exec(
        &s,
        "tire",
    ) || lower_contains_exec(&s, "rim")
}

/// Law: pressing the same toggle keys on two frames restores the display
/// settings (each shortcut toggles its layer).
pub proof fn lemma_toggles_undo(viz: VizSettings, keys: ShortcutKeys)
    ensures
        toggled_viz(toggled_viz(viz, keys), keys) == viz,
{
}

/// State of the placement countdown after `k` frames with unchanged
/// settings.
pub open spec fn settle(voxelize_in: Option<u8>, k: nat) -> Option<u8>
    decreases k,
{
    if k == 0 {
        voxelize_in
    } else {
        spec_placement_step(false, settle(voxelize_in, (k - 1) as nat)).1
    }
}

/// Law: a countdown of `n` frames with unchanged settings waits on each of
/// the first `n` frames, voxelizes on the next one, and is idle afterwards.
pub proof fn lemma_countdown_voxelizes(n: u8)
    ensures
        forall|k: nat| k < n ==> (#[trigger] spec_placement_step(false, settle(Some(n), k))).0
            == PlacementAction::Wait,
        settle(Some(n), n as nat) == Some(0u8),
        spec_placement_step(false, settle(Some(n), n as nat)) == (PlacementAction::Voxelize, None::<u8>),
        spec_placement_step(false, settle(Some(n), (n + 1) as nat)).0 == PlacementAction::Idle,
{
    lemma_settle_counts_down(n, n as nat);
    assert forall|k: nat| k < n implies (#[trigger] spec_placement_step(
        false,
        settle(Some(n), k),
    )).0 == PlacementAction::Wait by {
        lemma_settle_counts_down(n, k);
    }
}

/// After `k <= n` unchanged frames a countdown from `n` stands at `n - k`.
proof fn lemma_settle_counts_down(n: u8, k: nat)
    requires
        k <= n,
    ensures
        settle(Some(n), k) == Some((n - k) as u8),
    decreases k,
{
    if k > 0 {
        lemma_settle_counts_down(n, (k - 1) as nat);
    }
}

/// Law: after a re-seat, the model is voxelized on the second following
/// frame with unchanged settings (one frame lets the transform propagate).
pub proof fn lemma_reseat_then_voxelize(voxelize_in: Option<u8>)
    ensures
        ({
            let (a0, v0) = spec_placement_step(true, voxelize_in);
            let (a1, v1) = spec_placement_step(false, v0);
            let (a2, v2) = spec_placement_step(false, v1);
            &&& a0 == PlacementAction::Reseat
            &&& a1 == PlacementAction::Wait
            &&& a2 == PlacementAction::Voxelize
            &&& v2 == None::<u8>
        }),
{
}

/// Law: the restore request always wins: it drops any model and rebuilds
/// the cube, which is then the active obstacle; without it, a placed or
/// loading model keeps the cube from being rebuilt and inactive.
pub proof fn lemma_restore_rebuilds_cube(model_active: bool, cube_active: bool, ride_changed: bool)
    ensures
        spec_plan_cube(true, model_active, cube_active, ride_changed) == (CubePlan {
            drop_model: true,
            rebuild: true,
            cube_active: true,
        }),
        model_active ==> !spec_plan_cube(false, model_active, cube_active, ride_changed).rebuild
            && !spec_plan_cube(false, model_active, cube_active, ride_changed).cube_active,
{
}


/// Law: without a restore request the imported model is never dropped,
/// whatever else holds this frame; with one it always is.
pub proof fn lemma_model_dropped_only_on_restore(
    restore_requested: bool,
    model_active: bool,
    cube_active: bool,
    ride_changed: bool,
)
    ensures
        spec_plan_cube(restore_requested, model_active, cube_active, ride_changed).drop_model
            <==> restore_requested,
        !restore_requested && model_active ==> spec_plan_cube(
            restore_requested,
            model_active,
            cube_active,
            ride_changed,
        ) == (CubePlan { drop_model: false, rebuild: false, cube_active: false }),
        !restore_requested && !model_active ==> spec_plan_cube(
            restore_requested,
            model_active,
            cube_active,
            ride_changed,
        ).cube_active == cube_active,
{
}

/// Law: each toggle key flips its own display layer and nothing else. A
/// layer changes exactly when its own key is pressed; the wheel-spin flag and
/// the streamline density never change.
pub proof fn lemma_each_key_flips_its_own_layer(viz: VizSettings, keys: ShortcutKeys)
    ensures
        (toggled_viz(viz, keys).show_streamlines != viz.show_streamlines)
            <==> keys.toggle_streamlines,
        (toggled_viz(viz, keys).show_obstacle != viz.show_obstacle) <==> keys.toggle_obstacle,
        (toggled_viz(viz, keys).color_by_speed != viz.color_by_speed) <==> keys.toggle_color,
        toggled_viz(viz, keys).spin_wheels == viz.spin_wheels,
        toggled_viz(viz, keys).density == viz.density,
{
}

/// Law: ASCII lowercasing maps `A`..`Z` to `a`..`z` (32 code points up) and
/// leaves every other character unchanged.
pub proof fn lemma_ascii_lower_maps_uppercase(c: char)
    ensures
        'A' <= c <= 'Z' ==> ascii_lower(c) as int == c as int + 32 && 'a' <= ascii_lower(c) <= 'z',
        !('A' <= c <= 'Z') ==> ascii_lower(c) == c,
{
}

/// Law: a name is a wheel part exactly when, for one of the words `wheel`,
/// `tyre`, `tire`, `rim`, some window of the name matches every character of
/// the word (the first one included) after ASCII lowercasing.
pub proof fn lemma_wheel_part_is_whole_word_match(name: Seq<char>)
    ensures
        is_wheel_part(name) <==> (exists|i: int|
            0 <= i && i + 5 <= name.len() && ascii_lower(#[trigger] name[i]) == 'w' && ascii_lower(
                name[i + 1],
            ) == 'h' && ascii_lower(name[i + 2]) == 'e' && ascii_lower(name[i + 3]) == 'e'
                && ascii_lower(name[i + 4]) == 'l') || (exists|i: int|
            0 <= i && i + 4 <= name.len() && ascii_lower(#[trigger] name[i]) == 't' && ascii_lower(
                name[i + 1],
            ) == 'y' && ascii_lower(name[i + 2]) == 'r' && ascii_lower(name[i + 3]) == 'e') || (
        exists|i: int|
            0 <= i && i + 4 <= name.len() && ascii_lower(#[trigger] name[i]) == 't' && ascii_lower(
                name[i + 1],
            ) == 'i' && ascii_lower(name[i + 2]) == 'r' && ascii_lower(name[i + 3]) == 'e') || (
        exists|i: int|
            0 <= i && i + 3 <= name.len() && ascii_lower(#[trigger] name[i]) == 'r' && ascii_lower(
                name[i + 1],
            ) == 'i' && ascii_lower(name[i + 2]) == 'm'),
{
    reveal_strlit("wheel");
    reveal_strlit("tyre");
    reveal_strlit("tire");
    reveal_strlit("rim");
    let w = "wheel"@;
    let ty = "tyre"@;
    let ti = "tire"@;
    let ri = "rim"@;
    if lower_contains(name, w) {
        let i = choose|i: int| lower_match_at(name, w, i);
        assert(ascii_lower(name[i + 0]) == w[0]);
        assert(ascii_lower(name[i + 1]) == w[1]);
        assert(ascii_lower(name[i + 2]) == w[2]);
        assert(ascii_lower(name[i + 3]) == w[3]);
        assert(ascii_lower(name[i + 4]) == w[4]);
        assert(name[i + 0] == name[i]);
    }
    if lower_contains(name, ty) {
        let i = choose|i: int| lower_match_at(name, ty, i);
        assert(ascii_lower(name[i + 0]) == ty[0]);
        assert(ascii_lower(name[i + 1]) == ty[1]);
        assert(ascii_lower(name[i + 2]) == ty[2]);
        assert(ascii_lower(name[i + 3]) == ty[3]);
        assert(name[i + 0] == name[i]);
    }
    if lower_contains(name, ti) {
        let i = choose|i: int| lower_match_at(name, ti, i);
        assert(ascii_lower(name[i + 0]) == ti[0]);
        assert(ascii_lower(name[i + 1]) == ti[1]);
        assert(ascii_lower(name[i + 2]) == ti[2]);
        assert(ascii_lower(name[i + 3]) == ti[3]);
        assert(name[i + 0] == name[i]);
    }
    if lower_contains(name, ri) {
        let i = choose|i: int| lower_match_at(name, ri, i);
        assert(ascii_lower(name[i + 0]) == ri[0]);
        assert(ascii_lower(name[i + 1]) == ri[1]);
        assert(ascii_lower(name[i + 2]) == ri[2]);
        assert(name[i + 0] == name[i]);
    }
    assert forall|i: int|
        0 <= i && i + 5 <= name.len() && ascii_lower(#[trigger] name[i]) == 'w' && ascii_lower(
            name[i + 1],
        ) == 'h' && ascii_lower(name[i + 2]) == 'e' && ascii_lower(name[i + 3]) == 'e'
            && ascii_lower(name[i + 4]) == 'l' implies lower_contains(name, w) by {
        assert forall|k: int| 0 <= k < w.len() implies ascii_lower(#[trigger] name[i + k]) == w[k] by {
            if k == 0 {
                assert(name[i + k] == name[i]);
            }
        }
        assert(lower_match_at(name, w, i));
    }
    assert forall|i: int|
        0 <= i && i + 4 <= name.len() && ascii_lower(#[trigger] name[i]) == 't' && ascii_lower(
            name[i + 1],
        ) == 'y' && ascii_lower(name[i + 2]) == 'r' && ascii_lower(name[i + 3]) == 'e' implies lower_contains(
        name,
        ty,
    ) by {
        assert forall|k: int| 0 <= k < ty.len() implies ascii_lower(#[trigger] name[i + k]) == ty[k] by {
            if k == 0 {
                assert(name[i + k] == name[i]);
            }
        }
        assert(lower_match_at(name, ty, i));
    }
    assert forall|i: int|
        0 <= i && i + 4 <= name.len() && ascii_lower(#[trigger] name[i]) == 't' && ascii_lower(
            name[i + 1],
        ) == 'i' && ascii_lower(name[i + 2]) == 'r' && ascii_lower(name[i + 3]) == 'e' implies lower_contains(
        name,
        ti,
    ) by {
        assert forall|k: int| 0 <= k < ti.len() implies ascii_lower(#[trigger] name[i + k]) == ti[k] by {
            if k == 0 {
                assert(name[i + k] == name[i]);
            }
        }
        assert(lower_match_at(name, ti, i));
    }
    assert forall|i: int|
        0 <= i && i + 3 <= name.len() && ascii_lower(#[trigger] name[i]) == 'r' && ascii_lower(
            name[i + 1],
        ) == 'i' && ascii_lower(name[i + 2]) == 'm' implies lower_contains(name, ri) by {
        assert forall|k: int| 0 <= k < ri.len() implies ascii_lower(#[trigger] name[i + k]) == ri[k] by {
            if k == 0 {
                assert(name[i + k] == name[i]);
            }
        }
        assert(lower_match_at(name, ri, i));
    }
}


/// Law: an extension is a glTF one exactly when it has four characters that,
/// ASCII-lowercased, spell `g`, `l`, `t`, `f`.
pub proof fn lemma_gltf_ext_is_lowercase_gltf(ext: Seq<char>)
    ensures
        is_gltf_ext(ext) <==> (ext.len() == 4 && ascii_lower(ext[0]) == 'g' && ascii_lower(ext[1])
            == 'l' && ascii_lower(ext[2]) == 't' && ascii_lower(ext[3]) == 'f'),
{
}

} // verus!
