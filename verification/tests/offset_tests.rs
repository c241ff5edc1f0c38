use editor_tab_manager::offset::{
    apply_offset, get_maximize_frame, get_menu_bar_height, maximize_window, restore_positions,
    OffsetStore, ScreenSize, WindowEntry, WindowFrame, WindowGeom,
};
use editor_tab_manager::offset_codec::{parse_store, serialize_store};

fn frame(x: i64, y: i64, width: i64, height: i64) -> WindowFrame {
    WindowFrame { x, y, width, height }
}

fn geom(window_id: u32, x: i64, y: i64, width: i64, height: i64) -> WindowGeom {
    WindowGeom { window_id, x, y, width, height, minimized: false, fullscreen: false }
}

#[test]
fn serialize_and_deserialize_offset_store() {
    let mut store = OffsetStore::new();
    store.set_bundle(
        "com.microsoft.VSCode",
        vec![WindowEntry { window_id: 12345, frame: frame(0, 25, 1920, 1080) }],
    );

    let json = serialize_store(&store);
    let deserialized = parse_store(json.as_str()).unwrap();

    let windows = deserialized.bundle_windows("com.microsoft.VSCode").unwrap();
    assert_eq!(windows.len(), 1);
    assert_eq!(windows[0].window_id, 12345);
    assert_eq!(windows[0].frame.x, 0);
    assert_eq!(windows[0].frame.y, 25);
    assert_eq!(windows[0].frame.width, 1920);
    assert_eq!(windows[0].frame.height, 1080);
}

#[test]
fn deserialize_old_string_key_format_fails_gracefully() {
    // An older store layout keyed windows by title strings; such a
    // document must be rejected, not crash.
    let json = r#"{
        "positions": {
            "com.microsoft.VSCode": {
                "main.rs — my-project": {
                    "x": 0.0,
                    "y": 25.0,
                    "width": 1920.0,
                    "height": 1080.0
                }
            }
        }
    }"#;

    assert!(parse_store(json).is_none());
}

#[test]
fn multiple_editors_and_windows() {
    let mut store = OffsetStore::new();
    store.set_bundle(
        "com.microsoft.VSCode",
        vec![
            WindowEntry { window_id: 100, frame: frame(0, 25, 960, 1080) },
            WindowEntry { window_id: 200, frame: frame(960, 25, 960, 1080) },
        ],
    );
    store.set_bundle(
        "com.todesktop.230313mzl4w4u92",
        vec![WindowEntry { window_id: 300, frame: frame(0, 25, 1920, 1080) }],
    );

    let json = serialize_store(&store);
    let deserialized = parse_store(json.as_str()).unwrap();

    assert_eq!(deserialized.bundle_ids().len(), 2);
    assert_eq!(deserialized.bundle_windows("com.microsoft.VSCode").unwrap().len(), 2);
    let cursor = deserialized.bundle_windows("com.todesktop.230313mzl4w4u92").unwrap();
    assert_eq!(cursor[0].window_id, 300);
    assert_eq!(cursor[0].frame.width, 1920);
}

#[test]
fn apply_offset_moves_overlapping_windows() {
    let mut store = OffsetStore::new();
    let windows = vec![geom(1, 0, 25, 1920, 1000), geom(2, 0, 300, 800, 600)];
    let screen = Some(ScreenSize { width: 1920, height: 1080 });
    // menu bar 25 + strip 32: windows above y=57 move down to 57.
    let actions = apply_offset(&mut store, "com.microsoft.VSCode", &windows, screen, 25, 32);
    assert_eq!(actions.len(), 1);
    assert_eq!(actions[0].window_id, 1);
    assert_eq!(actions[0].frame.y, 57);
    assert_eq!(actions[0].frame.height, 1000 - 32);
    let recorded = store.bundle_windows("com.microsoft.VSCode").unwrap();
    assert_eq!(recorded.len(), 1);
    assert_eq!(recorded[0].frame.y, 25);
}

#[test]
fn apply_offset_twice_is_idempotent() {
    // Applying again with the windows where the first run put them issues
    // no action and records nothing new.
    let mut store = OffsetStore::new();
    let windows = vec![geom(1, 0, 25, 1920, 1000)];
    let screen = Some(ScreenSize { width: 1920, height: 1080 });
    let first = apply_offset(&mut store, "com.microsoft.VSCode", &windows, screen, 25, 32);
    assert_eq!(first.len(), 1);
    let moved = vec![geom(1, 0, first[0].frame.y, 1920, first[0].frame.height)];
    let second = apply_offset(&mut store, "com.microsoft.VSCode", &moved, screen, 25, 32);
    assert_eq!(second.len(), 0);
    assert_eq!(store.bundle_windows("com.microsoft.VSCode").unwrap().len(), 1);
}

#[test]
fn apply_offset_skips_short_minimized_and_secondary() {
    let mut store = OffsetStore::new();
    let mut minimized = geom(3, 0, 0, 800, 600);
    minimized.minimized = true;
    let windows = vec![
        geom(1, 0, 25, 800, 120),  // would shrink below the minimum height
        geom(2, 2500, 25, 800, 600),  // off the primary display
        minimized,
    ];
    let screen = Some(ScreenSize { width: 1920, height: 1080 });
    let actions = apply_offset(&mut store, "dev.zed.Zed", &windows, screen, 25, 32);
    assert_eq!(actions.len(), 0);
    assert_eq!(store.bundle_windows("dev.zed.Zed").unwrap().len(), 0);
}

#[test]
fn restore_returns_original_frames_and_clears() {
    let mut store = OffsetStore::new();
    let windows = vec![geom(1, 0, 25, 1920, 1000)];
    let screen = Some(ScreenSize { width: 1920, height: 1080 });
    apply_offset(&mut store, "com.microsoft.VSCode", &windows, screen, 25, 32);
    let current = vec![geom(1, 0, 57, 1920, 968)];
    let actions = restore_positions(&mut store, "com.microsoft.VSCode", true, &current);
    assert_eq!(actions.len(), 1);
    assert_eq!(actions[0].frame, frame(0, 25, 1920, 1000));
    assert!(store.bundle_windows("com.microsoft.VSCode").is_none());
}

#[test]
fn restore_without_process_just_clears() {
    let mut store = OffsetStore::new();
    store.set_bundle(
        "dev.zed.Zed",
        vec![WindowEntry { window_id: 9, frame: frame(0, 0, 100, 200) }],
    );
    let actions = restore_positions(&mut store, "dev.zed.Zed", false, &vec![]);
    assert_eq!(actions.len(), 0);
    assert!(store.bundle_windows("dev.zed.Zed").is_none());
    assert!(store.is_empty());
}

#[test]
fn parser_rejects_trailing_garbage() {
    let mut store = OffsetStore::new();
    store.set_bundle("a.b", vec![]);
    let mut json = serialize_store(&store);
    assert!(parse_store(json.as_str()).is_some());
    json.push('x');
    assert!(parse_store(json.as_str()).is_none());
    assert!(parse_store("").is_none());
}

#[test]
fn negative_coordinates_round_trip() {
    let mut store = OffsetStore::new();
    store.set_bundle(
        "a.b",
        vec![WindowEntry { window_id: 7, frame: frame(-120, -45, 640, 480) }],
    );
    let json = serialize_store(&store);
    let back = parse_store(json.as_str()).unwrap();
    let ws = back.bundle_windows("a.b").unwrap();
    assert_eq!(ws[0].frame, frame(-120, -45, 640, 480));
}

#[test]
fn menu_bar_and_maximize_geometry() {
    let screen = frame(0, 0, 1920, 1080);
    // The visible area sits 25 points below the top (the menu bar).
    let visible = frame(0, 0, 1920, 1055);
    assert_eq!(get_menu_bar_height(Some((screen, visible))), 25);
    assert_eq!(get_menu_bar_height(None), 25);

    let maxed = get_maximize_frame(screen, visible, 32).unwrap();
    assert_eq!(maxed, frame(0, 57, 1920, 1023));

    // A strip taller than the visible area leaves no room.
    let err = get_maximize_frame(screen, visible, 1000).unwrap_err();
    assert_eq!(err, "Calculated maximize frame too small");

    // Fullscreen and minimized windows are left alone.
    assert_eq!(maximize_window(7, false, true, screen, visible, 32).unwrap(), None);
    let action = maximize_window(7, false, false, screen, visible, 32).unwrap().unwrap();
    assert_eq!(action.window_id, 7);
    assert_eq!(action.frame, frame(0, 57, 1920, 1023));
}
