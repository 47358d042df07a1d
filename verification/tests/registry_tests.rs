use stickynotes::commands::{
    create_note, delete_note, get_note, list_notes, set_window_level, update_note,
    update_note_position,
};
use stickynotes::note::{Note, WindowLevel};
use stickynotes::registry::{NoteError, Registry};
use stickynotes::window::StackOp;

fn sample_note(id: &str, updated: &str) -> Note {
    Note {
        id: id.to_string(),
        content: String::new(),
        bg_color: "#0a0e14".to_string(),
        fg_color: "#00ff88".to_string(),
        x: 100,
        y: 100,
        width: 320,
        height: 280,
        window_level: WindowLevel::Normal,
        created_at: updated.to_string(),
        updated_at: updated.to_string(),
    }
}

#[test]
fn create_notes_have_distinct_ids() {
    let mut reg = Registry::new();
    let mut ids: Vec<String> = Vec::new();
    for _ in 0..5 {
        let n = create_note(&mut reg);
        ids.push(n.id.clone());
    }
    for i in 0..ids.len() {
        for j in 0..ids.len() {
            if i != j {
                assert_ne!(ids[i], ids[j]);
            }
        }
    }
    let listed = list_notes(&reg);
    assert_eq!(listed.len(), 5);
    for n in &listed {
        assert!(ids.contains(&n.id));
    }
}

#[test]
fn list_sorted_by_updated_at_desc() {
    let mut reg = Registry::new();
    reg.upsert(sample_note("a", "2024-01-02T00:00:00+00:00"));
    reg.upsert(sample_note("b", "2024-03-01T00:00:00+00:00"));
    reg.upsert(sample_note("c", "2024-02-15T00:00:00+00:00"));
    let listed = list_notes(&reg);
    assert_eq!(listed.len(), 3);
    assert_eq!(listed[0].id, "b");
    assert_eq!(listed[1].id, "c");
    assert_eq!(listed[2].id, "a");
}

#[test]
fn get_missing_fails_not_found() {
    let reg = Registry::new();
    let r = get_note(&reg, "nope");
    assert_eq!(r.unwrap_err(), NoteError::NotFound);
}

#[test]
fn update_existing_replaces_fields() {
    let mut reg = Registry::new();
    reg.upsert(sample_note("a", "2024-01-01T00:00:00+00:00"));
    let mut changed = sample_note("a", "2024-01-01T00:00:00+00:00");
    changed.content = "new body".to_string();
    changed.bg_color = "#112233".to_string();
    changed.fg_color = "#445566".to_string();
    changed.x = -5;
    changed.y = 7;
    changed.width = 400;
    changed.height = 150;
    changed.window_level = WindowLevel::Desktop;
    assert!(update_note(&mut reg, changed).is_ok());
    let got = get_note(&reg, "a").unwrap();
    assert_eq!(got.content, "new body");
    assert_eq!(got.bg_color, "#112233");
    assert_eq!(got.fg_color, "#445566");
    assert_eq!(got.x, -5);
    assert_eq!(got.y, 7);
    assert_eq!(got.width, 400);
    assert_eq!(got.height, 150);
    assert_eq!(got.window_level, WindowLevel::Desktop);
}

#[test]
fn update_missing_fails_and_leaves_registry_unchanged() {
    let mut reg = Registry::new();
    reg.upsert(sample_note("a", "2024-01-01T00:00:00+00:00"));
    let r = update_note(&mut reg, sample_note("ghost", "2024-01-01T00:00:00+00:00"));
    assert_eq!(r.unwrap_err(), NoteError::NotFound);
    let listed = list_notes(&reg);
    assert_eq!(listed.len(), 1);
    assert_eq!(listed[0].id, "a");
}

#[test]
fn delete_then_get_fails_not_found() {
    let mut reg = Registry::new();
    reg.upsert(sample_note("a", "2024-01-01T00:00:00+00:00"));
    delete_note(&mut reg, "a");
    let r = get_note(&reg, "a");
    assert_eq!(r.unwrap_err(), NoteError::NotFound);
}

#[test]
fn delete_missing_is_silent_noop() {
    let mut reg = Registry::new();
    reg.upsert(sample_note("a", "2024-01-01T00:00:00+00:00"));
    delete_note(&mut reg, "ghost");
    assert_eq!(list_notes(&reg).len(), 1);
}

#[test]
fn geometry_update_end_to_end() {
    let mut reg = Registry::new();
    let created = create_note(&mut reg);
    let id = created.id.clone();
    assert!(update_note_position(&mut reg, &id, 10, 20, 300, 200).is_ok());
    let got = get_note(&reg, &id).unwrap();
    assert_eq!(got.x, 10);
    assert_eq!(got.y, 20);
    assert_eq!(got.width, 300);
    assert_eq!(got.height, 200);
    assert_eq!(got.content, created.content);
    assert_eq!(got.bg_color, created.bg_color);
    assert_eq!(got.fg_color, created.fg_color);
    assert_eq!(got.window_level, created.window_level);
    assert_eq!(got.created_at, created.created_at);
    assert_eq!(got.updated_at, created.updated_at);
}

#[test]
fn geometry_update_missing_fails() {
    let mut reg = Registry::new();
    let r = update_note_position(&mut reg, "ghost", 1, 2, 3, 4);
    assert_eq!(r.unwrap_err(), NoteError::NotFound);
}

#[test]
fn set_window_level_stores_level_and_returns_transition() {
    let mut reg = Registry::new();
    reg.upsert(sample_note("a", "2024-01-01T00:00:00+00:00"));
    let ops = set_window_level(&mut reg, "a", WindowLevel::AlwaysOnTop).unwrap();
    assert_eq!(ops, vec![StackOp::SetBottom(false), StackOp::SetTop(true)]);
    let got = get_note(&reg, "a").unwrap();
    assert_eq!(got.window_level, WindowLevel::AlwaysOnTop);
}

#[test]
fn set_window_level_missing_fails() {
    let mut reg = Registry::new();
    let r = set_window_level(&mut reg, "ghost", WindowLevel::Desktop);
    assert_eq!(r.unwrap_err(), NoteError::NotFound);
}

#[test]
fn most_recent_picks_latest_updated() {
    let mut reg = Registry::new();
    assert!(reg.most_recent().is_none());
    reg.upsert(sample_note("a", "2024-01-02T00:00:00+00:00"));
    reg.upsert(sample_note("b", "2024-03-01T00:00:00+00:00"));
    reg.upsert(sample_note("c", "2024-02-15T00:00:00+00:00"));
    assert_eq!(reg.most_recent().unwrap().id, "b");
}

#[test]
fn new_note_has_default_fields() {
    let n = Note::new();
    assert_eq!(n.id.len(), 36);
    assert_eq!(n.content, "");
    assert_eq!(n.bg_color, "#0a0e14");
    assert_eq!(n.fg_color, "#00ff88");
    assert_eq!(n.x, 100);
    assert_eq!(n.y, 100);
    assert_eq!(n.width, 320);
    assert_eq!(n.height, 280);
    assert_eq!(n.window_level, WindowLevel::Normal);
    assert_eq!(n.created_at, n.updated_at);
}

#[test]
fn upsert_same_id_replaces_without_duplicating() {
    let mut reg = Registry::new();
    reg.upsert(sample_note("a", "2024-01-01T00:00:00+00:00"));
    let mut second = sample_note("a", "2024-05-01T00:00:00+00:00");
    second.content = "replaced".to_string();
    reg.upsert(second);
    let listed = list_notes(&reg);
    assert_eq!(listed.len(), 1);
    assert_eq!(listed[0].content, "replaced");
    assert_eq!(listed[0].updated_at, "2024-05-01T00:00:00+00:00");
}

#[test]
fn default_window_level_is_normal() {
    assert_eq!(WindowLevel::default(), WindowLevel::Normal);
}
