use mdnotebook::dirmodel::DirModel;
use mdnotebook::errors::VaultError;
use mdnotebook::export::{
    base_name_exec, dec_string, export_notes_to_folder, plan_export, ExportNote,
};
use mdnotebook::lifecycle::{
    folder_pick_result, handle_event, launch_open_file, theme_for, LifecycleEvent, ThemeChoice,
    UiNotice, OPEN_FILE_DELAY_MS, QUIT_GRACE_MS,
};
use mdnotebook::text::lower_str;

fn note(name: &str, content: &str) -> ExportNote {
    ExportNote { name: String::from(name), content: String::from(content) }
}

fn stems(plan: &[mdnotebook::export::PlannedFile]) -> Vec<String> {
    plan.iter().map(|f| f.stem.clone()).collect()
}

#[test]
fn three_identical_names_get_distinct_suffixes() {
    let mut dir = DirModel::new();
    let notes = vec![note("Todo", "one"), note("Todo", "two"), note("Todo", "three")];
    let plan = export_notes_to_folder(&mut dir, &notes);
    assert_eq!(
        stems(&plan),
        vec![String::from("Todo"), String::from("Todo (2)"), String::from("Todo (3)")]
    );
    assert_eq!(dir.read("Todo.md"), Some(String::from("one")));
    assert_eq!(dir.read("Todo (2).md"), Some(String::from("two")));
    assert_eq!(dir.read("Todo (3).md"), Some(String::from("three")));
}

#[test]
fn blank_name_exports_as_untitled() {
    let mut dir = DirModel::new();
    let plan = export_notes_to_folder(&mut dir, &vec![note("  ", "body")]);
    assert_eq!(stems(&plan), vec![String::from("Untitled")]);
    assert_eq!(dir.read("Untitled.md"), Some(String::from("body")));
}

#[test]
fn second_batch_respects_files_from_prior_run() {
    let mut dir = DirModel::new();
    export_notes_to_folder(&mut dir, &vec![note("Todo", "first run")]);
    let plan = export_notes_to_folder(&mut dir, &vec![note("Todo", "second run")]);
    assert_eq!(stems(&plan), vec![String::from("Todo (2)")]);
    assert_eq!(dir.read("Todo.md"), Some(String::from("first run")));
    assert_eq!(dir.read("Todo (2).md"), Some(String::from("second run")));
}

#[test]
fn collision_check_ignores_ascii_case() {
    let mut dir = DirModel::new();
    dir.insert("TODO.md", "existing");
    let plan = export_notes_to_folder(&mut dir, &vec![note("todo", "new")]);
    assert_eq!(stems(&plan), vec![String::from("todo (2)")]);
    assert_eq!(dir.read("TODO.md"), Some(String::from("existing")));
}

#[test]
fn non_markdown_files_do_not_block_stems() {
    let mut dir = DirModel::new();
    dir.insert("Todo.txt", "unrelated");
    let plan = export_notes_to_folder(&mut dir, &vec![note("Todo", "x")]);
    assert_eq!(stems(&plan), vec![String::from("Todo")]);
}

#[test]
fn sanitizer_strips_disallowed_characters() {
    assert_eq!(base_name_exec("a/b:c*d?"), "abcd");
    assert_eq!(base_name_exec("  Meeting notes -- draft_1  "), "Meeting notes -- draft_1");
    assert_eq!(base_name_exec("H\u{e4}h!"), "H\u{e4}h");
    assert_eq!(base_name_exec("///"), "Untitled");
}

#[test]
fn plan_export_works_against_explicit_stem_list() {
    let existing = vec![String::from("todo"), String::from("todo (2)")];
    let plan = plan_export(&existing, &vec![note("Todo", "x")]);
    assert_eq!(stems(&plan), vec![String::from("Todo (3)")]);
}

#[test]
fn decimal_rendering_is_exact() {
    assert_eq!(dec_string(0), "0");
    assert_eq!(dec_string(2), "2");
    assert_eq!(dec_string(10), "10");
    assert_eq!(dec_string(120), "120");
    assert_eq!(dec_string(98765), "98765");
}

#[test]
fn ascii_lowering_is_exact() {
    assert_eq!(lower_str("AbC-12_Z"), "abc-12_z");
    assert_eq!(lower_str(""), "");
}

#[test]
fn show_hide_toggles_visibility() {
    let r = handle_event(true, LifecycleEvent::MenuShowHide);
    assert!(!r.visible && !r.focus && r.notice.is_none() && !r.schedule_quit);
    let r = handle_event(false, LifecycleEvent::MenuShowHide);
    assert!(r.visible && r.focus && r.notice.is_none() && !r.schedule_quit);
}

#[test]
fn note_intents_force_window_up() {
    let r = handle_event(false, LifecycleEvent::MenuNewNote);
    assert!(r.visible && r.focus && !r.schedule_quit);
    assert_eq!(r.notice, Some(UiNotice::TrayNewNote));
    let r = handle_event(true, LifecycleEvent::MenuDailyNote);
    assert!(r.visible && r.focus && !r.schedule_quit);
    assert_eq!(r.notice, Some(UiNotice::TrayDailyNote));
}

#[test]
fn quit_flushes_then_schedules_exit() {
    let r = handle_event(true, LifecycleEvent::MenuQuit);
    assert_eq!(r.notice, Some(UiNotice::FlushSave));
    assert!(r.schedule_quit);
    assert_eq!(QUIT_GRACE_MS, 600);
}

#[test]
fn window_close_becomes_hide() {
    let r = handle_event(true, LifecycleEvent::CloseRequested);
    assert!(!r.visible && !r.schedule_quit && r.notice.is_none());
}

#[test]
fn tray_click_shows_and_focuses() {
    let r = handle_event(false, LifecycleEvent::TrayLeftClick);
    assert!(r.visible && r.focus);
}

#[test]
fn launch_arguments_forward_markdown_files_only() {
    let args = vec![String::from("app"), String::from("/tmp/x.md")];
    assert_eq!(launch_open_file(&args), Some(String::from("/tmp/x.md")));
    let args = vec![String::from("app"), String::from("notes.markdown")];
    assert_eq!(launch_open_file(&args), Some(String::from("notes.markdown")));
    let args = vec![String::from("app"), String::from("x.png")];
    assert_eq!(launch_open_file(&args), None);
    let args = vec![String::from("app")];
    assert_eq!(launch_open_file(&args), None);
    assert_eq!(OPEN_FILE_DELAY_MS, 1500);
}

#[test]
fn cancelled_folder_pick_is_reported() {
    assert_eq!(folder_pick_result(None), Err(VaultError::Cancelled));
    assert_eq!(folder_pick_result(Some(String::from("/vault"))), Ok(String::from("/vault")));
}

#[test]
fn theme_request_maps_to_theme() {
    assert_eq!(theme_for(true), ThemeChoice::Dark);
    assert_eq!(theme_for(false), ThemeChoice::Light);
}
