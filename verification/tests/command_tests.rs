use base64::Engine;
use stickynotes::color::parse_hex_color;
use stickynotes::commands::save_image;
use stickynotes::media::{content_type_for, extension_for};
use stickynotes::note::WindowLevel;
use stickynotes::paths::{media_dir, media_file_path, storage_dir, storage_path};
use stickynotes::registry::NoteError;
use stickynotes::window::{
    centered_geometry, creation_stacking, level_transition, note_url, StackOp, Stacking,
};

fn apply(mut s: Stacking, ops: &[StackOp]) -> Stacking {
    for op in ops {
        match op {
            StackOp::SetTop(b) => s.on_top = *b,
            StackOp::SetBottom(b) => s.on_bottom = *b,
        }
    }
    s
}

#[test]
fn save_image_webp_round_trip() {
    let bytes: Vec<u8> = vec![82, 73, 70, 70, 0, 1, 2, 255];
    let data = base64::engine::general_purpose::STANDARD.encode(&bytes);
    let (name, out) = save_image(&data, "image/webp").unwrap();
    assert!(name.ends_with(".webp"));
    assert_eq!(name.len(), 36 + 1 + 4);
    assert_eq!(out, bytes);
}

#[test]
fn save_image_invalid_base64_fails_decode() {
    let r = save_image("@@not base64@@", "image/png");
    assert_eq!(r.unwrap_err(), NoteError::DecodeFailure);
}

#[test]
fn save_image_unknown_mime_defaults_to_png() {
    let data = base64::engine::general_purpose::STANDARD.encode([1u8, 2, 3]);
    let (name, _) = save_image(&data, "application/x-unknown").unwrap();
    assert!(name.ends_with(".png"));
}

#[test]
fn extension_table_matches() {
    assert_eq!(extension_for("image/png"), "png");
    assert_eq!(extension_for("image/jpeg"), "jpg");
    assert_eq!(extension_for("image/jpg"), "jpg");
    assert_eq!(extension_for("image/gif"), "gif");
    assert_eq!(extension_for("image/webp"), "webp");
    assert_eq!(extension_for("image/svg+xml"), "svg");
    assert_eq!(extension_for("text/plain"), "png");
}

#[test]
fn content_type_table_matches() {
    assert_eq!(content_type_for("png"), "image/png");
    assert_eq!(content_type_for("jpg"), "image/jpeg");
    assert_eq!(content_type_for("jpeg"), "image/jpeg");
    assert_eq!(content_type_for("gif"), "image/gif");
    assert_eq!(content_type_for("webp"), "image/webp");
    assert_eq!(content_type_for("svg"), "image/svg+xml");
    assert_eq!(content_type_for("bin"), "application/octet-stream");
}

#[test]
fn level_transitions_clear_opposing_attribute_first() {
    assert_eq!(
        level_transition(WindowLevel::AlwaysOnTop),
        vec![StackOp::SetBottom(false), StackOp::SetTop(true)]
    );
    assert_eq!(
        level_transition(WindowLevel::Desktop),
        vec![StackOp::SetTop(false), StackOp::SetBottom(true)]
    );
    assert_eq!(
        level_transition(WindowLevel::Normal),
        vec![StackOp::SetTop(false), StackOp::SetBottom(false)]
    );
}

#[test]
fn level_transition_is_idempotent() {
    for level in [WindowLevel::Normal, WindowLevel::AlwaysOnTop, WindowLevel::Desktop] {
        let start = Stacking { on_top: true, on_bottom: true };
        let once = apply(start, &level_transition(level));
        let twice = apply(once, &level_transition(level));
        assert_eq!(once, twice);
    }
}

#[test]
fn later_level_transition_wins_and_never_both() {
    let levels = [WindowLevel::Normal, WindowLevel::AlwaysOnTop, WindowLevel::Desktop];
    for x in levels {
        for y in levels {
            let start = Stacking { on_top: false, on_bottom: false };
            let s = apply(apply(start, &level_transition(x)), &level_transition(y));
            assert!(!(s.on_top && s.on_bottom));
            let direct = apply(start, &level_transition(y));
            assert_eq!(s, direct);
        }
    }
}

#[test]
fn creation_stacking_reaches_same_state_as_transition() {
    for level in [WindowLevel::Normal, WindowLevel::AlwaysOnTop, WindowLevel::Desktop] {
        let fresh = Stacking { on_top: false, on_bottom: false };
        let created = apply(fresh, &creation_stacking(level));
        let transitioned = apply(fresh, &level_transition(level));
        assert_eq!(created, transitioned);
    }
}

#[test]
fn centered_geometry_halves_and_centers() {
    let (w, h, x, y) = centered_geometry(1920, 1080);
    assert_eq!(w, 960);
    assert_eq!(h, 540);
    assert_eq!(x, 480);
    assert_eq!(y, 270);
    let (w2, h2, x2, y2) = centered_geometry(1921, 1081);
    assert_eq!(w2, 960);
    assert_eq!(h2, 540);
    assert_eq!(x2, 480);
    assert_eq!(y2, 270);
}

#[test]
fn note_url_strips_trailing_slashes() {
    assert_eq!(note_url("http://localhost:1420/", "a1"), "http://localhost:1420/?noteId=a1");
    assert_eq!(note_url("http://localhost:1420", "a1"), "http://localhost:1420/?noteId=a1");
    assert_eq!(note_url("tauri://localhost//", "xy"), "tauri://localhost/?noteId=xy");
}

#[test]
fn hex_colors_parse_to_rgb() {
    assert_eq!(parse_hex_color("#0a0e14"), (10, 14, 20));
    assert_eq!(parse_hex_color("#00ff88"), (0, 255, 136));
    assert_eq!(parse_hex_color("FFFFFF"), (255, 255, 255));
    assert_eq!(parse_hex_color("#AbCdEf"), (171, 205, 239));
}

#[test]
fn malformed_hex_colors_fall_back_to_dark_gray() {
    assert_eq!(parse_hex_color(""), (10, 10, 10));
    assert_eq!(parse_hex_color("#12345"), (10, 10, 10));
    assert_eq!(parse_hex_color("#zzzzzz"), (10, 10, 10));
}

#[test]
fn show_all_plan_shows_opens_and_focuses_first() {
    let a = stickynotes::note::Note {
        id: "a".to_string(),
        content: String::new(),
        bg_color: "#0a0e14".to_string(),
        fg_color: "#00ff88".to_string(),
        x: 0,
        y: 0,
        width: 320,
        height: 280,
        window_level: WindowLevel::Normal,
        created_at: "t1".to_string(),
        updated_at: "t1".to_string(),
    };
    let mut b = a.clone();
    b.id = "b".to_string();
    let notes = vec![a, b];
    let plan = stickynotes::window::show_all_plan(&notes, &vec![true, false]);
    assert_eq!(plan.len(), 3);
    assert!(matches!(&plan[0], stickynotes::window::WindowAction::Show(s) if s == "a"));
    assert!(matches!(&plan[1], stickynotes::window::WindowAction::Open(n) if n.id == "b"));
    assert!(matches!(&plan[2], stickynotes::window::WindowAction::Focus(s) if s == "a"));
    let empty_plan = stickynotes::window::show_all_plan(&Vec::new(), &Vec::new());
    assert_eq!(empty_plan.len(), 0);
}

#[test]
fn reopen_decision_shows_existing_and_opens_missing() {
    let n = stickynotes::note::Note::with_id_and_time("n1".to_string(), "t".to_string());
    let when_open = stickynotes::window::ensure_open_action(&n, true);
    assert!(matches!(&when_open, stickynotes::window::WindowAction::Show(s) if s == "n1"));
    let when_missing = stickynotes::window::ensure_open_action(&n, false);
    assert!(matches!(&when_missing, stickynotes::window::WindowAction::Open(m) if m.id == "n1"));
}

#[test]
fn storage_paths_are_under_the_app_directory() {
    assert_eq!(storage_dir("/data"), "/data/com.stickynotes.app");
    assert_eq!(storage_path("/data"), "/data/com.stickynotes.app/notes.json");
    assert_eq!(media_dir("/data"), "/data/com.stickynotes.app/media");
    assert_eq!(
        media_file_path("/data", "img.png"),
        "/data/com.stickynotes.app/media/img.png"
    );
}
