use wisp::entity::Entity;
use wisp::input::{contexts_for, sync_contexts, Contexts, InputMode};
use wisp::net::protocol::{NetworkedPosition, PlayerCustomization, Tints};
use wisp::net::server::PeerId;
use wisp::player::controller::{
    aim_pitch_bone, apply_aim_pitch_to_local_spine, apply_ground_brake, apply_jump, apply_look,
    apply_movement, camera_view, cursor_grab, ground_check, movement_held,
    sync_local_player_from_server, track_local_velocity, CameraView, Facing, ToldPlayer,
};
use wisp::player::parts::{slot_at, PartSelection, Slot, SLOTS};
use wisp::player::recolor::{
    apply_recolor_materials, apply_remote_recolor_materials, face_feature_depth_bias,
    find_material_with_prefix, refresh_remote_tints_on_change, refresh_tints_on_change,
    ChangedLook, CharacterColors, RecolorOwner, RecolorSlot, Recolored, Recoloring, Source,
};
use wisp::player::rig::{
    ancestor_has_body_marker, ancestor_has_remote_body, ancestor_is_local_player,
    apply_local_part_visibility, find_ancestor_customization, find_ancestor_owner,
    refresh_part_visibility, resolve_node_name, RigNode,
};
use wisp::player::setup::{spawn_player, PlayerSpawn, RigPart, SELF_BODY_LAYER};
use wisp::player::spells::{ActiveSpell as SpellInHand, EquippedSpells, SpellId as WheelSpell};
use wisp::player::visuals::{
    apply_character_change, attach_animation_graph, clip_at, cycle_character_on_input, drive_animation, drives_locally, is_casting,
    locomotion_blend, propagate_self_body_render_layer, step_airborne_blend, step_casting_blend,
    update_character_label, weight, CharacterDef, CharacterRegistry, Clip, ClipStart, ClipWeight,
    CurrentCharacter, LocalAnimBlend, WizardClips, CLIPS,
};
use wisp::scalar::Scalar;
use wisp::spells::data::SpellId;
use wisp::spells::engine::{CastInstance, CastPhase, CastState};
use wisp::spells::registry::{
    apply_switch_spell, ActiveSpell, SpellEntry, SpellRegistry, Switch,
};
use wisp::table::Table;
use wisp::vector::{Quat, Vec2, Vec3};

fn s(x: f32) -> Scalar {
    Scalar::from_bits(x.to_bits())
}

fn f(x: Scalar) -> f32 {
    f32::from_bits(x.to_bits())
}

fn v(x: f32, y: f32, z: f32) -> Vec3 {
    Vec3::new(s(x), s(y), s(z))
}

fn e(bits: u64) -> Entity {
    Entity { bits }
}

fn node(name: &str) -> RigNode {
    RigNode {
        entity: e(1),
        name: if name.is_empty() { None } else { Some(name.to_string()) },
        local_body: false,
        remote_body: false,
        local_player: false,
        owner: None,
        look: None,
    }
}

fn look(red: f32) -> PlayerCustomization {
    let mut body = Tints::first_body();
    body.red = v(red, 0.0, 0.0);
    PlayerCustomization { body, objects: Tints::first_objects(), parts: PartSelection::starter() }
}

fn every_clip() -> WizardClips {
    WizardClips {
        idle: Some(0),
        walk_f: Some(1),
        walk_b: Some(2),
        walk_l: Some(3),
        walk_r: Some(4),
        falling: Some(5),
        cast_idle: Some(6),
        cast_walk_f: Some(7),
        cast_walk_b: Some(8),
        cast_walk_l: Some(9),
        cast_walk_r: Some(10),
    }
}

#[test]
fn the_ways_to_take_input_exclude_each_other() {
    assert_eq!(contexts_for(InputMode::Player), Contexts { player: true, menu: false });
    assert_eq!(contexts_for(InputMode::RadialMenu), Contexts { player: false, menu: true });
    for mode in [
        InputMode::Player,
        InputMode::RadialMenu,
        InputMode::Customizing,
        InputMode::Inventory,
    ] {
        let contexts = contexts_for(mode);
        assert!(!(contexts.player && contexts.menu));
    }
    let mut before = None;
    assert!(sync_contexts(InputMode::Player, &mut before).is_some());
    assert_eq!(sync_contexts(InputMode::Player, &mut before), None);
    assert!(sync_contexts(InputMode::RadialMenu, &mut before).is_some());
    assert_eq!(before, Some(InputMode::RadialMenu));
}

#[test]
fn parts_go_around() {
    for i in 0..SLOTS {
        let slot = slot_at(i);
        let count = PartSelection::variant_count(slot) as u8;
        let mut parts = PartSelection::starter();
        let start = parts.index_for(slot);
        for step in 1..=count {
            parts.advance(slot, 1);
            assert_eq!(parts.index_for(slot), (start + step) % count);
        }
        parts.advance(slot, -1);
        assert_eq!(parts.index_for(slot), (start + count - 1) % count);
        parts.advance(slot, 1);
        assert_eq!(parts, PartSelection::starter());
        assert_ne!(parts.label(slot), "?");
        assert!(!slot.display().is_empty());
    }
}

#[test]
fn a_selection_shows_its_own_parts() {
    let mut parts = PartSelection::starter();
    parts = parts.with_index(Slot::Headwear, 5);
    assert!(parts.is_visible("F_Knight_ArmetHelmet"));
    assert!(parts.is_visible("F_Knight_ArmetHelmet_Visor"));
    assert!(!parts.is_visible("F_Witch_Headwear"));
    parts = parts.with_index(Slot::Headwear, 0);
    assert!(!parts.is_visible("F_Knight_ArmetHelmet"));
    assert!(!parts.is_visible("F_Knight_ArmetHelmet_Visor"));

    parts = parts.with_index(Slot::Hair, 2);
    assert!(parts.is_visible("F_hair_1b"));
    assert!(!parts.is_visible("F_hair_1"));
    assert!(!parts.is_visible("F_hair_99"));
}

#[test]
fn some_parts_are_never_shown_and_others_always() {
    let parts = PartSelection::starter();
    assert!(!parts.is_visible("F_BottomBody"));
    assert!(!parts.is_visible("F_TopBody"));
    assert!(parts.is_visible("F_Head"));
    assert!(parts.is_visible(""));
}

#[test]
fn a_face_has_one_of_each() {
    let parts = PartSelection::starter();
    for (prefix, slot) in [
        ("F_eyes", Slot::Eyes),
        ("F_eyebrows", Slot::Eyebrows),
        ("F_mouth", Slot::Mouth),
    ] {
        let count = PartSelection::variant_count(slot);
        for chosen in 0..count {
            let parts = parts.with_index(slot, chosen as u8);
            let shown: Vec<usize> = (0..count + 3)
                .filter(|n| parts.is_visible(&format!("{}_{}", prefix, n)))
                .collect();
            assert!(shown.len() <= 1, "{} {:?}", prefix, shown);
        }
    }
}

#[test]
fn a_part_goes_by_the_first_given_name_above_it() {
    let line = vec![node(""), node("Mesh.001"), node("F_hair_1"), node("Wizard")];
    assert_eq!(resolve_node_name(&line), "F_hair_1");
    assert_eq!(resolve_node_name(&vec![node("Mesh"), node("")]), "");
    assert_eq!(resolve_node_name(&vec![]), "");
}

#[test]
fn what_stands_above_a_part_decides() {
    let mut line = vec![node("F_Head"), node("Wizard"), node("Player")];
    assert!(!ancestor_has_body_marker(&line));
    line[1].local_body = true;
    line[2].local_player = true;
    assert!(ancestor_has_body_marker(&line));
    assert!(ancestor_is_local_player(&line));
    assert!(!ancestor_has_remote_body(&line));
    assert!(drives_locally(&line));
    assert_eq!(propagate_self_body_render_layer(&line), Some(SELF_BODY_LAYER));

    let mut other = vec![node("F_Head"), node("Wizard"), node("Player")];
    other[1].remote_body = true;
    other[2].owner = Some(7);
    other[2].look = Some(look(0.5));
    assert!(ancestor_has_remote_body(&other));
    assert_eq!(find_ancestor_owner(&other), Some(7));
    assert_eq!(find_ancestor_customization(&other), Some((e(1), look(0.5))));
    assert_eq!(propagate_self_body_render_layer(&other), None);
    assert_eq!(find_ancestor_customization(&line), None);
}

#[test]
fn only_ones_own_parts_follow_the_selection() {
    let mut line = vec![node(""), node("F_hair_1"), node("Wizard")];
    assert!(apply_local_part_visibility(&line, PartSelection::starter()).is_none());
    line[2].local_body = true;
    let shown = PartSelection::starter().with_index(Slot::Hair, 1);
    let mut part = apply_local_part_visibility(&line, shown).unwrap();
    assert_eq!(part.name, "F_hair_1");
    assert!(part.shown);
    refresh_part_visibility(&mut part, shown.with_index(Slot::Hair, 3));
    assert!(!part.shown);
}

#[test]
fn the_face_is_drawn_to_the_front() {
    assert_eq!(face_feature_depth_bias("F_eyes_01").map(f), Some(100.0));
    assert_eq!(face_feature_depth_bias("F_eyebrows_01").map(f), Some(50.0));
    assert_eq!(face_feature_depth_bias("F_mouth_01").map(f), Some(50.0));
    assert_eq!(face_feature_depth_bias("F_Head"), None);
    let names: Vec<String> =
        ["Glass", "Body_A", "Body_B"].iter().map(|name| name.to_string()).collect();
    assert_eq!(find_material_with_prefix(&names, "Body"), Some(1));
    assert_eq!(find_material_with_prefix(&names, "Objects"), None);
}

#[test]
fn colors_go_where_they_belong() {
    let colors = CharacterColors { body: look(0.25).body, objects: look(0.0).objects };
    let mut line = vec![node("F_eyes_01"), node("Wizard")];
    let apply = |line: &Vec<RigNode>, material: u64, source: Source| {
        apply_recolor_materials(line, material, Some(11), Some(12), source, colors)
    };
    assert_eq!(apply(&line, 11, Source::Marked), Recoloring::Leave);
    line[1].local_body = true;
    let mine = Recolored { slot: RecolorSlot::Body, owner: RecolorOwner::Local };
    assert_eq!(
        apply(&line, 11, Source::Marked),
        Recoloring::Swap { recolored: mine, tints: colors.body, bias: Some(s(100.0)) }
    );
    assert_eq!(apply(&line, 11, Source::Unmarked), Recoloring::Done(mine));
    assert_eq!(apply(&line, 11, Source::Missing), Recoloring::Leave);
    assert_eq!(apply(&line, 13, Source::Marked), Recoloring::Leave);
    assert!(
        matches!(apply(&line, 12, Source::Marked), Recoloring::Swap { recolored, .. }
            if recolored.slot == RecolorSlot::Objects)
    );
    assert_eq!(refresh_tints_on_change(mine, colors), Some(colors.body));
}

#[test]
fn others_have_their_own_colors() {
    let mut line = vec![node("F_Head"), node("Wizard"), node("Player")];
    line[1].remote_body = true;
    line[2].look = Some(look(0.75));
    let apply =
        apply_remote_recolor_materials(&line, 11, Some(11), Some(12), Source::Marked);
    let theirs = Recolored { slot: RecolorSlot::Body, owner: RecolorOwner::Remote(e(1)) };
    assert_eq!(
        apply,
        Recoloring::Swap { recolored: theirs, tints: look(0.75).body, bias: None }
    );
    line[2].look = None;
    assert_eq!(
        apply_remote_recolor_materials(&line, 11, Some(11), Some(12), Source::Marked),
        Recoloring::Leave
    );
    let changed = vec![ChangedLook { player: e(1), look: look(0.5) }];
    assert_eq!(refresh_remote_tints_on_change(theirs, &changed), Some(look(0.5).body));
    let mine = Recolored { slot: RecolorSlot::Body, owner: RecolorOwner::Local };
    assert_eq!(refresh_remote_tints_on_change(mine, &changed), None);
    assert_eq!(refresh_remote_tints_on_change(theirs, &vec![]), None);
    let colors = CharacterColors { body: look(0.25).body, objects: look(0.0).objects };
    assert_eq!(refresh_tints_on_change(theirs, colors), None);
}

#[test]
fn characters_take_turns() {
    let def = |id: &str| CharacterDef {
        id: id.to_string(),
        asset: format!("{}.glb", id),
        label: id.to_string(),
    };
    let registry = CharacterRegistry { characters: vec![def("witch"), def("mage")] };
    let mut current = CurrentCharacter { index: 0 };
    let mut before = false;
    cycle_character_on_input(true, &mut before, &registry, &mut current);
    assert_eq!(current.current(&registry).unwrap().id, "mage");
    cycle_character_on_input(true, &mut before, &registry, &mut current);
    assert_eq!(current.index, 1);
    cycle_character_on_input(false, &mut before, &registry, &mut current);
    cycle_character_on_input(true, &mut before, &registry, &mut current);
    assert_eq!(current.current(&registry).unwrap().id, "witch");

    assert_eq!(apply_character_change(&registry, current, true, false), Some("witch.glb"));
    assert_eq!(apply_character_change(&registry, current, true, true), None);
    assert_eq!(apply_character_change(&registry, current, false, false), None);
    assert_eq!(update_character_label(&registry, current, true), Some("witch"));
    assert_eq!(update_character_label(&registry, current, false), None);

    let none = CharacterRegistry { characters: vec![] };
    assert_eq!(apply_character_change(&none, current, true, false), None);
    assert_eq!(update_character_label(&none, current, true), None);
    current.advance(&none);
    assert!(current.current(&none).is_none());
}

#[test]
fn every_movement_starts_at_once() {
    let started = attach_animation_graph(every_clip());
    assert_eq!(started.len(), CLIPS);
    assert_eq!(started[0], ClipStart { node: 0, weight: s(1.0), speed: s(1.0) });
    assert_eq!(started[2], ClipStart { node: 2, weight: s(0.0), speed: s(1.15) });
    assert_eq!(started[8], ClipStart { node: 8, weight: s(0.0), speed: s(1.15) });
    let lame = WizardClips { walk_f: None, falling: None, ..every_clip() };
    let nodes: Vec<u32> = attach_animation_graph(lame).iter().map(|start| start.node).collect();
    assert_eq!(nodes, vec![0, 2, 3, 4, 6, 7, 8, 9, 10]);
    let stiff = WizardClips { idle: None, ..every_clip() };
    assert!(attach_animation_graph(stiff).is_empty());
}

#[test]
fn at_rest_only_standing_shows() {
    let still = v(0.1, -3.0, 0.0);
    let shown = locomotion_blend(every_clip(), still, Quat::identity(), s(0.0), s(0.25));
    assert_eq!(shown.len(), CLIPS);
    for clip in 0..CLIPS {
        let got = f(weight(every_clip(), clip_at(clip), still, Quat::identity(), s(0.0), s(0.25)));
        let expected = match clip_at(clip) {
            Clip::Idle => 0.75,
            Clip::CastIdle => 0.25,
            _ => 0.0,
        };
        assert_eq!(got, expected, "{:?}", clip_at(clip));
    }
}

#[test]
fn walking_shows_the_way_it_goes() {
    let w = |clip: Clip, velocity: Vec3, air: f32| {
        f(weight(every_clip(), clip, velocity, Quat::identity(), s(air), s(0.0)))
    };
    let half = v(0.0, 0.0, -1.75);
    assert_eq!(w(Clip::WalkForward, half, 0.0), 0.5);
    assert_eq!(w(Clip::Idle, half, 0.0), 0.5);
    assert_eq!(w(Clip::WalkBackward, half, 0.0), 0.0);
    let fast = v(7.0, 0.0, 0.0);
    assert_eq!(w(Clip::WalkRight, fast, 0.0), 1.0);
    assert_eq!(w(Clip::Idle, fast, 0.0), 0.0);
    assert_eq!(w(Clip::WalkRight, fast, 0.75), 0.25);
    assert_eq!(w(Clip::Falling, fast, 0.75), 0.75);
    assert_eq!(w(Clip::Falling, fast, 2.0), 1.0);
    assert_eq!(w(Clip::WalkLeft, v(-7.0, 0.0, 0.0), 0.0), 1.0);
    assert_eq!(w(Clip::WalkBackward, v(0.0, 0.0, 7.0), 0.0), 1.0);
}

#[test]
fn a_movement_that_the_model_lacks_is_left_out() {
    let mut clips = every_clip();
    clips.cast_walk_f = None;
    clips.idle = None;
    assert!(!clips.ready());
    let shown: Vec<ClipWeight> =
        locomotion_blend(clips, v(0.0, 0.0, -7.0), Quat::identity(), s(0.0), s(0.5));
    assert_eq!(shown.len(), CLIPS - 2);
    assert!(shown.iter().all(|c| c.node != 7 && c.node != 0));
    assert!(shown.iter().any(|c| c.node == 1 && f(c.weight) == 1.0));
    let stands = WizardClips { cast_idle: None, ..every_clip() };
    let still = v(0.0, 0.0, 0.0);
    let shown = locomotion_blend(stands, still, Quat::identity(), s(0.0), s(1.0));
    assert!(shown.iter().all(|c| f(c.weight) == if c.node == 0 { 1.0 } else { 0.0 }));
}

#[test]
fn what_shows_adds_up_to_one() {
    let sum = |velocity: Vec3, air: f32, cast: f32| -> f32 {
        let shown = locomotion_blend(every_clip(), velocity, Quat::identity(), s(air), s(cast));
        let nodes: Vec<u32> = shown.iter().map(|c| c.node).collect();
        assert_eq!(nodes, (0..CLIPS as u32).collect::<Vec<_>>());
        assert!(shown.iter().all(|c| f(c.weight) >= 0.0 && f(c.weight) <= 1.0));
        shown.iter().map(|c| f(c.weight)).sum()
    };
    assert_eq!(sum(v(7.0, 0.0, 7.0), 0.0, 0.0), 1.0);
    let ways = [v(3.0, 0.0, 4.0), v(-2.0, 0.0, 1.0), v(0.3, -9.0, -0.1), v(1e30, 0.0, 1.0)];
    for velocity in ways {
        for (air, cast) in [(0.0, 0.0), (0.3, 0.7), (2.0, 0.5), (0.1, -1.0)] {
            assert!((sum(velocity, air, cast) - 1.0).abs() < 1e-5);
        }
    }
    let w = |clip: Clip| f(weight(every_clip(), clip, v(3.0, 0.0, 4.0), Quat::identity(), s(0.0), s(0.0)));
    assert!((w(Clip::WalkBackward) - 4.0 / 7.0).abs() < 1e-6);
    assert!((w(Clip::WalkRight) - 3.0 / 7.0).abs() < 1e-6);
}

#[test]
fn movements_have_names_and_speeds() {
    assert_eq!(clip_at(0).name(), "idle");
    assert_eq!(Clip::CastWalkLeft.name(), "casting_walk_left");
    assert_eq!(f(Clip::WalkBackward.speed()), 1.15);
    assert_eq!(f(Clip::WalkForward.speed()), 1.0);
    assert_eq!(f(Clip::Idle.first_weight()), 1.0);
    assert_eq!(f(Clip::Falling.first_weight()), 0.0);
    assert_eq!(f(step_airborne_blend(s(0.0), false)), 0.25);
    assert_eq!(f(step_airborne_blend(s(1.0), true)), 0.75);
    assert_eq!(f(step_casting_blend(s(0.0), true)), 0.2);
    assert_eq!(f(step_casting_blend(s(1.0), false)), 0.8);
}

#[test]
fn a_cast_under_way_shows() {
    let mut casts = CastState::new();
    assert!(!is_casting(&casts));
    casts.instances.insert("a".to_string(), CastInstance::idle());
    assert!(!is_casting(&casts));
    casts
        .instances
        .insert("b".to_string(), CastInstance { phase: CastPhase::Channeling, ..CastInstance::idle() });
    assert!(is_casting(&casts));
    let mut blend = LocalAnimBlend { airborne: s(0.0), casting: s(0.0) };
    let shown =
        drive_animation(every_clip(), v(0.0, 0.0, 0.0), Quat::identity(), false, true, &mut blend);
    assert_eq!((f(blend.airborne), f(blend.casting)), (0.25, 0.2));
    assert_eq!(shown.len(), CLIPS);
}

#[test]
fn a_look_turns_a_player_as_far_as_it_goes() {
    let mut facing = Facing { yaw: s(0.0), pitch: s(0.0), grounded: false };
    apply_look(&mut facing, Vec2 { x: s(0.5), y: s(0.25) });
    assert_eq!((f(facing.yaw), f(facing.pitch)), (0.5, 0.25));
    apply_look(&mut facing, Vec2 { x: s(0.0), y: s(9.0) });
    assert_eq!(f(facing.pitch), 85.0f32.to_radians());
    apply_look(&mut facing, Vec2 { x: s(0.0), y: s(-9.0) });
    assert_eq!(f(facing.pitch), -85.0f32.to_radians());
    ground_check(&mut facing, 1);
    assert!(facing.grounded);
    ground_check(&mut facing, 0);
    assert!(!facing.grounded);
}

#[test]
fn the_server_says_where_a_player_is() {
    let players = vec![
        ToldPlayer { client: 1, position: NetworkedPosition::from_vec3(v(1.0, 0.0, 0.0)) },
        ToldPlayer { client: 2, position: NetworkedPosition::from_vec3(v(2.0, 0.0, 0.0)) },
    ];
    let told = |me| sync_local_player_from_server(me, &players);
    assert_eq!(told(Some(PeerId::Netcode(2))), Some(v(2.0, 0.0, 0.0)));
    assert_eq!(told(Some(PeerId::Netcode(3))), None);
    assert_eq!(told(Some(PeerId::Unnumbered)), None);
    assert_eq!(told(None), None);
}

#[test]
fn the_camera_is_in_the_head_or_around_it() {
    assert_eq!(
        camera_view(InputMode::Player, Quat::identity()),
        CameraView::FirstPerson { at: v(0.0, 0.7, 0.0) }
    );
    match camera_view(InputMode::Customizing, Quat::identity()) {
        CameraView::Orbit { at, target } => {
            assert!(at.equals(v(0.0, 1.3, 3.5)));
            assert_eq!(target, v(0.0, 0.5, 0.0));
        },
        other => panic!("{:?}", other),
    }
}

#[test]
fn a_player_speeds_up_and_stops() {
    let dt = 0.0625f32;
    let still = v(0.0, 0.0, 0.0);
    let ahead = Vec2 { x: s(0.0), y: s(1.0) };
    let push = apply_movement(ahead, Quat::identity(), still, true, s(dt));
    assert!((f(push.z) + 60.0).abs() < 1e-3);
    let push = apply_movement(ahead, Quat::identity(), still, false, s(dt));
    assert!((f(push.z) + 10.0).abs() < 1e-3);
    let slant = Vec2 { x: s(3.0), y: s(4.0) };
    let push = apply_movement(slant, Quat::identity(), v(2.52, 0.0, -3.36), true, s(dt));
    assert!(f(push.length()) < 1e-3);

    let brake = apply_ground_brake(true, false, v(1.0, -2.0, 0.0), s(dt)).unwrap();
    assert_eq!(f(brake.x), -1.0 / dt);
    assert_eq!(f(brake.y), 0.0);
    let brake = apply_ground_brake(true, false, v(100.0, 0.0, 0.0), s(dt)).unwrap();
    assert!((f(brake.x) + 50.0).abs() < 1e-3);
    assert_eq!(apply_ground_brake(false, false, v(1.0, 0.0, 0.0), s(dt)), None);
    assert_eq!(apply_ground_brake(true, true, v(1.0, 0.0, 0.0), s(dt)), None);
    assert_eq!(apply_ground_brake(true, false, v(0.005, 0.0, 0.0), s(dt)), None);

    assert_eq!(apply_jump(true, v(1.0, 0.0, 2.0)), v(1.0, 5.0, 2.0));
    assert_eq!(apply_jump(false, v(1.0, 0.0, 2.0)), v(1.0, 0.0, 2.0));
    assert!(movement_held(InputMode::Player, false, false, true, false));
    assert!(!movement_held(InputMode::Player, false, false, false, false));
    assert!(!movement_held(InputMode::RadialMenu, true, true, true, true));
}

#[test]
fn a_velocity_is_told_from_the_places() {
    let mut velocity = v(0.0, 0.0, 0.0);
    let mut prev = None;
    track_local_velocity(&mut velocity, &mut prev, v(1.0, 0.0, 0.0), s(0.5));
    assert_eq!(velocity, v(0.0, 0.0, 0.0));
    assert_eq!(prev, Some(v(1.0, 0.0, 0.0)));
    track_local_velocity(&mut velocity, &mut prev, v(3.0, 0.0, 0.0), s(0.5));
    assert_eq!(f(velocity.x), 4.0 * 0.35);
}

#[test]
fn the_cursor_is_free_or_not() {
    assert!(!cursor_grab(InputMode::Player, true, true, false));
    assert!(cursor_grab(InputMode::Player, true, false, false));
    assert!(cursor_grab(InputMode::Player, false, false, true));
    assert!(!cursor_grab(InputMode::Player, false, true, false));
    assert!(cursor_grab(InputMode::RadialMenu, true, true, false));
    assert!(!cursor_grab(InputMode::RadialMenu, false, false, true));
}

#[test]
fn the_spine_leans_with_the_aim() {
    let mut line = vec![node(aim_pitch_bone()), node("Wizard"), node("Player")];
    line[1].local_body = true;
    line[2].local_player = true;
    let lean = Quat { x: s(0.5), y: s(0.5), z: s(0.5), w: s(0.5) };
    let bent =
        apply_aim_pitch_to_local_spine(aim_pitch_bone(), &line, Quat::identity(), lean).unwrap();
    assert!(bent.equals(lean));
    assert_eq!(
        apply_aim_pitch_to_local_spine("Hips", &line, Quat::identity(), lean),
        None
    );
}

#[test]
fn a_player_is_put_together() {
    let mut spells = SpellRegistry { entries: Table::new() };
    spells.add(SpellId::new("iris"), SpellEntry { label: "Iris".to_string() });
    let spawn = PlayerSpawn::default();
    let plan = spawn_player(&spawn, &spells);
    assert_eq!(plan.at, spawn.position);
    assert_eq!(plan.at, v(0.0, 1.5, 5.0));
    assert!(plan.is_local);
    assert!(plan.active_spell.is(spawn.initial_spell.0.as_str()));
    assert_eq!(RigPart::Player.parent(), None);
    assert_eq!(RigPart::LensAnchor.parent(), Some(RigPart::Camera));
    assert!(RigPart::Camera.is_marked(true));
    assert!(!RigPart::Camera.is_marked(false));

    let mut other = PlayerSpawn::default();
    other.initial_spell = SpellId::new("iris");
    assert_eq!(spawn_player(&other, &spells).activate, Some(0));
}

#[test]
fn the_wheel_has_eight_spells() {
    let wheel = EquippedSpells::default();
    assert_eq!(wheel.0[0], WheelSpell::ConvexLens);
    assert_eq!(wheel.0[2], WheelSpell::Portal);
    assert_eq!(wheel.0[7].label(), "Slot 8");
    assert_eq!(SpellInHand::default(), SpellInHand(WheelSpell::ConvexLens));
}

#[test]
fn switching_turns_one_spell_off_and_another_on() {
    let mut spells = SpellRegistry { entries: Table::new() };
    spells.add(SpellId::new("lens"), SpellEntry { label: "Lens".to_string() });
    spells.add(SpellId::new("iris"), SpellEntry { label: "Iris".to_string() });
    spells.add(SpellId::new("lens"), SpellEntry { label: "Convex Lens".to_string() });
    assert_eq!(spells.label(&SpellId::new("lens")), "Convex Lens");
    assert_eq!(spells.get(&SpellId::new("iris")).unwrap().label, "Iris");
    assert!(spells.get(&SpellId::new("nothing")).is_none());

    let mut active = ActiveSpell(SpellId::new("lens"));
    let switch = apply_switch_spell(&mut active, &SpellId::new("iris"), &spells);
    assert_eq!(switch, Some(Switch { off: Some(0), on: Some(1) }));
    assert!(active.0.is("iris"));
    assert_eq!(apply_switch_spell(&mut active, &SpellId::new("iris"), &spells), None);
    let switch = apply_switch_spell(&mut active, &SpellId::new("nothing"), &spells);
    assert_eq!(switch, Some(Switch { off: Some(1), on: None }));
}
