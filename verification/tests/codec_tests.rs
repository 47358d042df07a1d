use stickynotes::codec::{decode_notes, level_name_str};
use stickynotes::commands::{event_channel, event_kind_str, NoteEventKind};
use stickynotes::note::{Note, WindowLevel};
use stickynotes::registry::Registry;
use stickynotes::storage::{load_notes, save_notes};

fn note_with(id: &str, content: &str, updated: &str) -> Note {
    Note {
        id: id.to_string(),
        content: content.to_string(),
        bg_color: "#0a0e14".to_string(),
        fg_color: "#00ff88".to_string(),
        x: 10,
        y: 20,
        width: 300,
        height: 200,
        window_level: WindowLevel::Normal,
        created_at: updated.to_string(),
        updated_at: updated.to_string(),
    }
}

#[test]
fn empty_registry_encodes_as_empty_array() {
    let reg = Registry::new();
    assert_eq!(save_notes(&reg), "[]");
}

#[test]
fn single_note_encodes_exactly() {
    let mut reg = Registry::new();
    reg.upsert(note_with("a1", "hi", "2024-01-01T00:00:00+00:00"));
    let text = save_notes(&reg);
    let expected = "[\n  {\n    \"id\": \"a1\",\n    \"content\": \"hi\",\n    \"bg_color\": \"#0a0e14\",\n    \"fg_color\": \"#00ff88\",\n    \"x\": 10,\n    \"y\": 20,\n    \"width\": 300,\n    \"height\": 200,\n    \"window_level\": \"normal\",\n    \"created_at\": \"2024-01-01T00:00:00+00:00\",\n    \"updated_at\": \"2024-01-01T00:00:00+00:00\"\n  }\n]";
    assert_eq!(text, expected);
}

#[test]
fn snapshot_text_is_well_formed_json() {
    let mut reg = Registry::new();
    let mut n = note_with("a1", "line one\nline \"two\" \\ tab\t", "2024-01-01T00:00:00+00:00");
    n.window_level = WindowLevel::AlwaysOnTop;
    n.x = -45;
    reg.upsert(n);
    let text = save_notes(&reg);
    let value: serde_json::Value = serde_json::from_str(&text).unwrap();
    let arr = value.as_array().unwrap();
    assert_eq!(arr.len(), 1);
    assert_eq!(arr[0]["id"].as_str(), Some("a1"));
    assert_eq!(arr[0]["content"].as_str(), Some("line one\nline \"two\" \\ tab\t"));
    assert_eq!(arr[0]["x"].as_i64(), Some(-45));
    assert_eq!(arr[0]["window_level"].as_str(), Some("alwaysOnTop"));
}

#[test]
fn save_then_load_restores_every_field() {
    let mut reg = Registry::new();
    let mut a = note_with("a1", "plain text", "2024-01-02T00:00:00+00:00");
    a.window_level = WindowLevel::Desktop;
    let mut b = note_with("b2", "esc \" \\ \n \r \t done", "2024-01-03T00:00:00+00:00");
    b.x = -2147483648;
    b.y = 2147483647;
    b.window_level = WindowLevel::AlwaysOnTop;
    reg.upsert(a.clone());
    reg.upsert(b.clone());
    let text = save_notes(&reg);
    let restored = load_notes(Some(&text));
    assert_eq!(restored.notes.len(), 2);
    for orig in [&a, &b] {
        let got = restored.get(&orig.id).unwrap();
        assert_eq!(got.id, orig.id);
        assert_eq!(got.content, orig.content);
        assert_eq!(got.bg_color, orig.bg_color);
        assert_eq!(got.fg_color, orig.fg_color);
        assert_eq!(got.x, orig.x);
        assert_eq!(got.y, orig.y);
        assert_eq!(got.width, orig.width);
        assert_eq!(got.height, orig.height);
        assert_eq!(got.window_level, orig.window_level);
        assert_eq!(got.created_at, orig.created_at);
        assert_eq!(got.updated_at, orig.updated_at);
    }
}

#[test]
fn load_missing_file_gives_empty_collection() {
    let reg = load_notes(None);
    assert_eq!(reg.notes.len(), 0);
}

#[test]
fn load_corrupted_text_gives_empty_collection() {
    assert_eq!(load_notes(Some("this is not json")).notes.len(), 0);
    assert_eq!(load_notes(Some("[{\"id\": 3}]")).notes.len(), 0);
    assert_eq!(load_notes(Some("")).notes.len(), 0);
    assert_eq!(load_notes(Some("[")).notes.len(), 0);
}

#[test]
fn decode_rejects_trailing_garbage() {
    let mut reg = Registry::new();
    reg.upsert(note_with("a1", "hi", "2024-01-01T00:00:00+00:00"));
    let mut text = save_notes(&reg);
    assert!(decode_notes(&text).is_some());
    text.push('x');
    assert!(decode_notes(&text).is_none());
}

#[test]
fn decode_rejects_unknown_level_name() {
    let mut reg = Registry::new();
    reg.upsert(note_with("a1", "hi", "2024-01-01T00:00:00+00:00"));
    let text = save_notes(&reg).replace("\"normal\"", "\"sideways\"");
    assert!(decode_notes(&text).is_none());
}

#[test]
fn load_with_duplicate_ids_keeps_the_later_note() {
    let mut reg = Registry::new();
    reg.upsert(note_with("dup", "first", "2024-01-01T00:00:00+00:00"));
    let text_one = save_notes(&reg);
    let mut reg2 = Registry::new();
    reg2.upsert(note_with("dup", "second", "2024-02-01T00:00:00+00:00"));
    let text_two = save_notes(&reg2);
    // splice the two one-element arrays into one two-element array by hand
    let inner_one = &text_one[1..text_one.len() - 2];
    let inner_two = &text_two[1..text_two.len() - 2];
    let combined = format!("[{},{}\n]", inner_one, inner_two);
    let restored = load_notes(Some(&combined));
    assert_eq!(restored.notes.len(), 1);
    assert_eq!(restored.get("dup").unwrap().content, "second");
}

#[test]
fn event_surface_matches_broadcast_shapes() {
    assert_eq!(event_channel(), "notes-changed");
    assert_eq!(event_kind_str(NoteEventKind::Created), "created");
    assert_eq!(event_kind_str(NoteEventKind::Updated), "updated");
    assert_eq!(event_kind_str(NoteEventKind::Deleted), "deleted");
}

#[test]
fn level_names_match_persisted_forms() {
    assert_eq!(level_name_str(WindowLevel::Normal), "normal");
    assert_eq!(level_name_str(WindowLevel::AlwaysOnTop), "alwaysOnTop");
    assert_eq!(level_name_str(WindowLevel::Desktop), "desktop");
}
