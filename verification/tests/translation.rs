use world_space_ui::{
    deliver, find_buffer, find_surface, resolve, translate, ui_interactions, Interaction,
    MissingBuffer, Modifiers, PixelBuffer, PointerButton, PointerHit, Request, Resolution,
    Surface, SyntheticEvent, UIPointerClick, UIPointerMove, WorldUI,
};

type Point = (i32, i32, i32);
type Pixel = (i64, i64);
type Panel = Surface<u32, i32, Pixel>;

fn panel(entity: u64, texture: u64) -> Panel {
    Surface {
        entity,
        world_ui: WorldUI::new(2, 4),
        transform: 0,
        texture,
        input: Vec::new(),
    }
}

fn buffer(handle: u64, width: u32, height: u32) -> PixelBuffer {
    PixelBuffer { handle, width, height }
}

/// Two panels, entities 10 and 20, rendered into textures 1 and 2.
fn scene() -> (Vec<Panel>, Vec<PixelBuffer>) {
    (vec![panel(10, 1), panel(20, 2)], vec![buffer(1, 512, 256), buffer(2, 64, 32)])
}

/// A projection on integers: the hit's x and z, offset by the transform,
/// scaled by the buffer's size.
fn project(_ui: &WorldUI<u32>, transform: &i32, hit: &Point, width: u32, height: u32) -> Pixel {
    (
        (hit.0 - transform) as i64 * width as i64,
        (hit.2 - transform) as i64 * height as i64,
    )
}

fn moved(target: u64, hit: Point) -> UIPointerMove<Point> {
    UIPointerMove { target, position: Some(hit), normal: Some((0, 1, 0)) }
}

fn clicked(target: u64, hit: Point) -> UIPointerClick<Point> {
    UIPointerClick { target, position: Some(hit), normal: Some((0, 1, 0)) }
}

fn press(pos: Pixel) -> SyntheticEvent<Pixel> {
    SyntheticEvent::PointerButton {
        pos,
        button: PointerButton::Primary,
        pressed: true,
        modifiers: Modifiers { alt: false, ctrl: false, shift: false, mac_cmd: false, command: false },
    }
}

fn release(pos: Pixel) -> SyntheticEvent<Pixel> {
    SyntheticEvent::PointerButton {
        pos,
        button: PointerButton::Primary,
        pressed: false,
        modifiers: Modifiers { alt: false, ctrl: false, shift: false, mac_cmd: false, command: false },
    }
}

#[test]
fn move_yields_one_pointer_moved_event() {
    let (mut surfaces, textures) = scene();
    let result = ui_interactions(&mut surfaces, vec![moved(10, (1, 0, 2))], vec![], &textures, project);
    assert_eq!(result, Ok(()));
    assert_eq!(surfaces[0].input, vec![SyntheticEvent::PointerMoved { pos: (512, 512) }]);
    assert!(surfaces[1].input.is_empty());
}

#[test]
fn click_yields_press_then_release_at_one_position() {
    let (mut surfaces, textures) = scene();
    let result = ui_interactions(&mut surfaces, vec![], vec![clicked(20, (3, 7, 1))], &textures, project);
    assert_eq!(result, Ok(()));
    assert!(surfaces[0].input.is_empty());
    assert_eq!(surfaces[1].input, vec![press((192, 32)), release((192, 32))]);
    assert_eq!(surfaces[1].input.len(), 2);
}

#[test]
fn click_uses_primary_button_without_modifiers() {
    let (mut surfaces, textures) = scene();
    ui_interactions(&mut surfaces, vec![], vec![clicked(10, (0, 0, 0))], &textures, project).unwrap();
    for (event, down) in surfaces[0].input.iter().zip([true, false]) {
        match event {
            SyntheticEvent::PointerButton { button, pressed, modifiers, .. } => {
                assert_eq!(*button, PointerButton::Primary);
                assert_eq!(*pressed, down);
                assert_eq!(*modifiers, Modifiers::none());
            }
            SyntheticEvent::PointerMoved { .. } => panic!("a click yields no pointer-moved event"),
        }
    }
}

#[test]
fn click_pairs_of_two_targets_are_not_interleaved() {
    let (mut surfaces, textures) = scene();
    let clicks = vec![clicked(10, (1, 0, 1)), clicked(20, (2, 0, 2)), clicked(10, (3, 0, 3))];
    assert_eq!(ui_interactions(&mut surfaces, vec![], clicks, &textures, project), Ok(()));
    assert_eq!(
        surfaces[0].input,
        vec![press((512, 256)), release((512, 256)), press((1536, 768)), release((1536, 768))]
    );
    assert_eq!(surfaces[1].input, vec![press((128, 64)), release((128, 64))]);
}

#[test]
fn missing_position_yields_nothing() {
    let (mut surfaces, textures) = scene();
    let moves = vec![UIPointerMove { target: 10, position: None, normal: Some((0, 1, 0)) }];
    let clicks = vec![UIPointerClick { target: 20, position: None, normal: None }];
    assert_eq!(ui_interactions(&mut surfaces, moves, clicks, &textures, project), Ok(()));
    assert!(surfaces[0].input.is_empty());
    assert!(surfaces[1].input.is_empty());
}

#[test]
fn missing_normal_yields_nothing() {
    let (mut surfaces, textures) = scene();
    let moves = vec![UIPointerMove { target: 10, position: Some((1, 1, 1)), normal: None }];
    let clicks = vec![UIPointerClick { target: 10, position: Some((1, 1, 1)), normal: None }];
    assert_eq!(ui_interactions(&mut surfaces, moves, clicks, &textures, project), Ok(()));
    assert!(surfaces[0].input.is_empty());
    assert!(surfaces[1].input.is_empty());
}

#[test]
fn stale_target_yields_nothing() {
    let (mut surfaces, textures) = scene();
    let result = ui_interactions(
        &mut surfaces,
        vec![moved(99, (1, 0, 1))],
        vec![clicked(7, (1, 0, 1))],
        &textures,
        project,
    );
    assert_eq!(result, Ok(()));
    assert!(surfaces[0].input.is_empty());
    assert!(surfaces[1].input.is_empty());
}

#[test]
fn missing_buffer_is_fatal() {
    let mut surfaces = vec![panel(10, 1), panel(30, 5)];
    let textures = vec![buffer(1, 512, 256)];
    let result = ui_interactions(&mut surfaces, vec![], vec![clicked(30, (1, 0, 1))], &textures, project);
    assert_eq!(result, Err(MissingBuffer { entity: 30, texture: 5 }));
    assert!(surfaces[0].input.is_empty());
    assert!(surfaces[1].input.is_empty());
}

#[test]
fn missing_buffer_without_a_hit_is_skipped_not_fatal() {
    let mut surfaces = vec![panel(30, 5)];
    let textures: Vec<PixelBuffer> = vec![];
    let moves = vec![UIPointerMove { target: 30, position: None, normal: None }];
    assert_eq!(ui_interactions(&mut surfaces, moves, vec![], &textures, project), Ok(()));
    assert!(surfaces[0].input.is_empty());
}

#[test]
fn fatal_request_halts_after_the_earlier_ones() {
    let mut surfaces = vec![panel(10, 1), panel(30, 5)];
    let textures = vec![buffer(1, 512, 256)];
    let moves = vec![moved(10, (1, 0, 1)), moved(30, (1, 0, 1)), moved(10, (2, 0, 2))];
    let clicks = vec![clicked(10, (3, 0, 3))];
    let result = ui_interactions(&mut surfaces, moves, clicks, &textures, project);
    assert_eq!(result, Err(MissingBuffer { entity: 30, texture: 5 }));
    assert_eq!(surfaces[0].input, vec![SyntheticEvent::PointerMoved { pos: (512, 256) }]);
    assert!(surfaces[1].input.is_empty());
}

#[test]
fn moves_are_translated_before_clicks_in_arrival_order() {
    let (mut surfaces, textures) = scene();
    let moves = vec![moved(10, (1, 0, 0)), moved(10, (2, 0, 0))];
    let clicks = vec![clicked(10, (3, 0, 0)), clicked(10, (4, 0, 0))];
    assert_eq!(ui_interactions(&mut surfaces, moves, clicks, &textures, project), Ok(()));
    assert_eq!(
        surfaces[0].input,
        vec![
            SyntheticEvent::PointerMoved { pos: (512, 0) },
            SyntheticEvent::PointerMoved { pos: (1024, 0) },
            press((1536, 0)),
            release((1536, 0)),
            press((2048, 0)),
            release((2048, 0)),
        ]
    );
}

#[test]
fn events_are_appended_behind_what_the_queue_holds() {
    let (mut surfaces, textures) = scene();
    surfaces[0].input.push(SyntheticEvent::PointerMoved { pos: (-1, -1) });
    assert_eq!(
        ui_interactions(&mut surfaces, vec![moved(10, (1, 0, 1))], vec![], &textures, project),
        Ok(())
    );
    assert_eq!(
        surfaces[0].input,
        vec![
            SyntheticEvent::PointerMoved { pos: (-1, -1) },
            SyntheticEvent::PointerMoved { pos: (512, 256) },
        ]
    );
}

#[test]
fn idle_cycle_changes_nothing() {
    let (mut surfaces, textures) = scene();
    let moves: Vec<UIPointerMove<Point>> = vec![];
    assert_eq!(ui_interactions(&mut surfaces, moves, vec![], &textures, project), Ok(()));
    assert!(surfaces[0].input.is_empty());
    assert!(surfaces[1].input.is_empty());
    assert_eq!(surfaces.len(), 2);
}

#[test]
fn translation_leaves_surface_data_alone() {
    let (mut surfaces, textures) = scene();
    ui_interactions(&mut surfaces, vec![moved(20, (1, 0, 1))], vec![clicked(10, (1, 0, 1))], &textures, project)
        .unwrap();
    assert_eq!(surfaces.len(), 2);
    assert_eq!((surfaces[0].entity, surfaces[0].texture, surfaces[0].transform), (10, 1, 0));
    assert_eq!((surfaces[1].entity, surfaces[1].texture, surfaces[1].transform), (20, 2, 0));
    assert_eq!((surfaces[0].world_ui.size_x, surfaces[0].world_ui.size_y), (2, 4));
}

#[test]
fn projection_is_handed_extent_transform_hit_and_buffer_size() {
    let mut surfaces: Vec<Surface<u32, i32, (u32, u32, i32, Point, u32, u32)>> = vec![Surface {
        entity: 4,
        world_ui: WorldUI::new(3, 5),
        transform: -7,
        texture: 9,
        input: Vec::new(),
    }];
    let textures = vec![buffer(8, 1, 1), buffer(9, 640, 480)];
    let echo = |ui: &WorldUI<u32>, transform: &i32, hit: &Point, width: u32, height: u32| {
        (ui.size_x, ui.size_y, *transform, *hit, width, height)
    };
    ui_interactions(&mut surfaces, vec![moved(4, (11, 12, 13))], vec![], &textures, echo).unwrap();
    assert_eq!(
        surfaces[0].input,
        vec![SyntheticEvent::PointerMoved { pos: (3, 5, -7, (11, 12, 13), 640, 480) }]
    );
}

#[test]
fn projected_position_is_forwarded_as_it_is() {
    let (mut surfaces, textures) = scene();
    let far = |_: &WorldUI<u32>, _: &i32, _: &Point, _: u32, _: u32| (i64::MAX, i64::MIN);
    ui_interactions(&mut surfaces, vec![moved(10, (0, 0, 0))], vec![], &textures, far).unwrap();
    assert_eq!(surfaces[0].input, vec![SyntheticEvent::PointerMoved { pos: (i64::MAX, i64::MIN) }]);
}

#[test]
fn first_surface_of_an_entity_is_the_one_addressed() {
    let mut surfaces = vec![panel(10, 1), panel(10, 2)];
    let textures = vec![buffer(1, 512, 256), buffer(2, 64, 32)];
    ui_interactions(&mut surfaces, vec![moved(10, (1, 0, 1))], vec![], &textures, project).unwrap();
    assert_eq!(surfaces[0].input, vec![SyntheticEvent::PointerMoved { pos: (512, 256) }]);
    assert!(surfaces[1].input.is_empty());
}

#[test]
fn find_surface_returns_first_place_or_none() {
    let surfaces = vec![panel(10, 1), panel(20, 2), panel(20, 3)];
    assert_eq!(find_surface(&surfaces, 10), Some(0));
    assert_eq!(find_surface(&surfaces, 20), Some(1));
    assert_eq!(find_surface(&surfaces, 30), None);
    let none: Vec<Panel> = vec![];
    assert_eq!(find_surface(&none, 10), None);
}

#[test]
fn find_buffer_returns_first_buffer_or_none() {
    let textures = vec![buffer(1, 512, 256), buffer(2, 64, 32), buffer(2, 8, 8)];
    assert_eq!(find_buffer(&textures, 2), Some(buffer(2, 64, 32)));
    assert_eq!(find_buffer(&textures, 1), Some(buffer(1, 512, 256)));
    assert_eq!(find_buffer(&textures, 3), None);
}

#[test]
fn resolve_tells_skip_fatal_and_hit_apart() {
    let surfaces = vec![panel(10, 1), panel(30, 5)];
    let textures = vec![buffer(1, 512, 256)];
    assert_eq!(resolve(&surfaces, &textures, 99, true), Resolution::Skip);
    assert_eq!(resolve(&surfaces, &textures, 10, false), Resolution::Skip);
    assert_eq!(resolve(&surfaces, &textures, 30, false), Resolution::Skip);
    assert_eq!(
        resolve(&surfaces, &textures, 10, true),
        Resolution::Hit { surface: 0, width: 512, height: 256 }
    );
    assert_eq!(
        resolve(&surfaces, &textures, 30, true),
        Resolution::Fatal(MissingBuffer { entity: 30, texture: 5 })
    );
}

#[test]
fn deliver_appends_to_one_queue_only() {
    let (mut surfaces, _) = scene();
    deliver(&mut surfaces, 1, Interaction::Move, (5, 6));
    deliver(&mut surfaces, 1, Interaction::Click, (7, 8));
    assert!(surfaces[0].input.is_empty());
    assert_eq!(
        surfaces[1].input,
        vec![SyntheticEvent::PointerMoved { pos: (5, 6) }, press((7, 8)), release((7, 8))]
    );
}

#[test]
fn translate_returns_the_projected_position() {
    let (mut surfaces, textures) = scene();
    let request = Request { kind: Interaction::Click, target: 20, position: Some((2, 0, 3)), normal: Some((0, 1, 0)) };
    assert_eq!(translate(&mut surfaces, &textures, &request, &project), Ok(Some((128, 96))));
    assert_eq!(surfaces[1].input, vec![press((128, 96)), release((128, 96))]);
    assert!(surfaces[0].input.is_empty());
}

#[test]
fn translate_skips_and_fails_without_touching_queues() {
    let mut surfaces = vec![panel(10, 1), panel(30, 5)];
    let textures = vec![buffer(1, 512, 256)];
    let stale = Request { kind: Interaction::Move, target: 1, position: Some((0, 0, 0)), normal: Some((0, 1, 0)) };
    let blind = Request { kind: Interaction::Move, target: 10, position: None, normal: Some((0, 1, 0)) };
    let lost = Request { kind: Interaction::Move, target: 30, position: Some((0, 0, 0)), normal: Some((0, 1, 0)) };
    assert_eq!(translate(&mut surfaces, &textures, &stale, &project), Ok(None));
    assert_eq!(translate(&mut surfaces, &textures, &blind, &project), Ok(None));
    assert_eq!(
        translate(&mut surfaces, &textures, &lost, &project),
        Err(MissingBuffer { entity: 30, texture: 5 })
    );
    assert!(surfaces[0].input.is_empty());
    assert!(surfaces[1].input.is_empty());
}

#[test]
fn pointer_hit_converts_to_both_events() {
    let hit = PointerHit { target: 42, position: Some((1, 2, 3)), normal: Some((0, 0, 1)) };
    let click = UIPointerClick::from(hit);
    let moved = UIPointerMove::from(hit);
    assert_eq!((click.target, click.position, click.normal), (42, Some((1, 2, 3)), Some((0, 0, 1))));
    assert_eq!((moved.target, moved.position, moved.normal), (42, Some((1, 2, 3)), Some((0, 0, 1))));
    let unresolved: PointerHit<Point> = PointerHit { target: 7, position: None, normal: None };
    let click = UIPointerClick::from(unresolved);
    assert_eq!((click.target, click.position, click.normal), (7, None, None));
}

#[test]
fn events_convert_to_requests_of_their_kind() {
    let request = clicked(3, (1, 2, 3)).to_request();
    assert_eq!(request.kind, Interaction::Click);
    assert_eq!((request.target, request.position, request.normal), (3, Some((1, 2, 3)), Some((0, 1, 0))));
    let request = moved(4, (4, 5, 6)).to_request();
    assert_eq!(request.kind, Interaction::Move);
    assert_eq!((request.target, request.position, request.normal), (4, Some((4, 5, 6)), Some((0, 1, 0))));
}

#[test]
fn event_constructors_build_what_they_name() {
    assert_eq!(SyntheticEvent::moved((1, 2)), SyntheticEvent::PointerMoved { pos: (1, 2) });
    assert_eq!(SyntheticEvent::primary((1, 2), true), press((1, 2)));
    assert_eq!(SyntheticEvent::primary((1, 2), false), release((1, 2)));
    let none = Modifiers::none();
    assert!(!none.alt && !none.ctrl && !none.shift && !none.mac_cmd && !none.command);
}

#[test]
fn world_ui_keeps_its_two_sizes() {
    let ui = WorldUI::new(3u8, 9u8);
    assert_eq!((ui.size_x, ui.size_y), (3, 9));
}
