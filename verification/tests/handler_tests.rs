use spoiler::app::{
    App, ColumnField, FloatingWidget, FocusableWidget, InputMode, RouteId, Torrent, TorrentFile,
};
use spoiler::key_handlers::{handler, toggle_action, Command, Dispatch, JobAction, Key, KeyInput};
use spoiler::store::Snapshot;

fn key(code: Key) -> KeyInput {
    KeyInput { code, shift: false }
}

fn press(app: &mut App, code: Key) -> Dispatch {
    handler(key(code), app)
}

fn job(id: i64, name: &str, status: i64) -> Torrent {
    Torrent {
        id,
        name: name.to_string(),
        status,
        percent_done: 0,
        recheck_progress: 0,
        eta: -1,
        rate_download: 0,
        rate_upload: 0,
        upload_ratio: 0,
        done_date: 0,
        added_date: 0,
        total_size: 0,
        download_dir: "/downloads".to_string(),
        files: Vec::<TorrentFile>::new(),
    }
}

fn app_with_jobs(jobs: Vec<Torrent>) -> App {
    let mut app = App::new();
    app.refresh(Ok(Snapshot { torrents: jobs, stats: None }));
    app
}

#[test]
fn empty_job_list_makes_job_commands_no_ops() {
    let mut app = App::new();
    assert_eq!(app.store.read().torrents.len(), 0);
    for code in [Key::Char('p'), Key::Char('v')] {
        let d = press(&mut app, code);
        assert_eq!(d.command, None);
    }
    // Remove and rename do not even open their overlays with no job.
    let d = press(&mut app, Key::Char('d'));
    assert_eq!(d.command, None);
    assert!(matches!(app.floating_widget, FloatingWidget::Closed));
    let d = press(&mut app, Key::Char('r'));
    assert_eq!(d.command, None);
    assert!(matches!(app.floating_widget, FloatingWidget::Closed));
    assert!(matches!(app.input_mode, InputMode::Normal));
}

#[test]
fn rename_flow_issues_exactly_one_rename() {
    let mut app = app_with_jobs(vec![job(7, "old-name", 0)]);
    let d = press(&mut app, Key::Char('r'));
    assert_eq!(d.command, None);
    assert!(matches!(app.floating_widget, FloatingWidget::Input));
    assert!(matches!(app.input_mode, InputMode::Editing));
    for c in "new-name".chars() {
        let d = press(&mut app, Key::Char(c));
        assert_eq!(d.command, None);
    }
    let d = press(&mut app, Key::Enter);
    assert_eq!(
        d.command,
        Some(Command::Rename {
            id: 7,
            current_name: "old-name".to_string(),
            new_name: "new-name".to_string(),
        })
    );
    assert!(matches!(app.floating_widget, FloatingWidget::Closed));
    assert!(matches!(app.input_mode, InputMode::Normal));
}

#[test]
fn editing_backspace_edits_the_buffer() {
    let mut app = app_with_jobs(vec![job(7, "x", 0)]);
    press(&mut app, Key::Char('r'));
    press(&mut app, Key::Char('a'));
    press(&mut app, Key::Char('b'));
    press(&mut app, Key::Backspace);
    let d = press(&mut app, Key::Enter);
    assert_eq!(
        d.command,
        Some(Command::Rename {
            id: 7,
            current_name: "x".to_string(),
            new_name: "a".to_string(),
        })
    );
}

#[test]
fn add_job_confirm_issues_exactly_one_add_with_the_toggled_flag() {
    let mut app = App::new();
    let d = press(&mut app, Key::Char('a'));
    assert!(d.load_files);
    assert!(matches!(app.floating_widget, FloatingWidget::AddTorrent));
    app.set_torrent_files(vec!["/downloads/one.torrent".to_string()]);
    let d = press(&mut app, Key::Right);
    assert_eq!(d.command, None);
    assert!(matches!(app.floating_widget, FloatingWidget::AddTorrentConfirm));
    let d = press(&mut app, Key::Char('p'));
    assert_eq!(d.command, None);
    assert!(app.add_paused);
    let d = press(&mut app, Key::Enter);
    assert_eq!(
        d.command,
        Some(Command::Add { path: "/downloads/one.torrent".to_string(), paused: true })
    );
    assert!(matches!(app.floating_widget, FloatingWidget::Closed));
}

#[test]
fn add_confirm_without_candidates_is_a_guarded_no_op() {
    let mut app = App::new();
    press(&mut app, Key::Char('a'));
    app.set_torrent_files(Vec::new());
    press(&mut app, Key::Right);
    let d = press(&mut app, Key::Enter);
    assert_eq!(d.command, None);
    assert!(matches!(app.floating_widget, FloatingWidget::Closed));
}

#[test]
fn open_overlay_swallows_keys_for_the_screen_below() {
    let mut app = app_with_jobs(vec![job(1, "a", 0), job(2, "b", 0)]);
    press(&mut app, Key::Char('?'));
    assert!(matches!(app.floating_widget, FloatingWidget::Help));
    let stack_before = app.navigation_stack.len();
    let desc_before = app.store.sort_descending;
    for code in [Key::Right, Key::Left, Key::Down, Key::Up, Key::Char('l'), Key::Char('q'),
        Key::Char('d'), Key::Enter] {
        let d = press(&mut app, code);
        assert_eq!(d.command, None);
        assert_eq!(app.navigation_stack.len(), stack_before);
        assert!(matches!(app.floating_widget, FloatingWidget::Help));
    }
    assert!(matches!(app.store.sort_column, ColumnField::Name));
    assert_eq!(app.store.sort_descending, desc_before);
    assert!(!app.should_quit);
    press(&mut app, Key::Esc);
    assert!(matches!(app.floating_widget, FloatingWidget::Closed));
}

#[test]
fn remove_flow_issues_exactly_one_remove() {
    let mut app = app_with_jobs(vec![job(9, "a", 0)]);
    press(&mut app, Key::Char('d'));
    assert!(matches!(app.floating_widget, FloatingWidget::RemoveTorrent));
    press(&mut app, Key::Char('t'));
    assert!(app.delete_files);
    let d = press(&mut app, Key::Enter);
    assert_eq!(d.command, Some(Command::Remove { id: 9, delete_files: true }));
    assert!(matches!(app.floating_widget, FloatingWidget::Closed));
}

#[test]
fn pause_and_verify_target_the_selected_job() {
    let mut app = app_with_jobs(vec![job(3, "a", 0), job(4, "b", 4)]);
    let d = press(&mut app, Key::Char('p'));
    assert_eq!(d.command, Some(Command::TogglePause { id: 3 }));
    let d = press(&mut app, Key::Char('v'));
    assert_eq!(d.command, Some(Command::Verify { id: 3 }));
}

#[test]
fn toggle_action_starts_only_a_stopped_job() {
    assert_eq!(toggle_action(0), JobAction::Start);
    assert_eq!(toggle_action(4), JobAction::Stop);
    assert_eq!(toggle_action(6), JobAction::Stop);
}

#[test]
fn quit_key_requests_exit() {
    let mut app = App::new();
    assert!(!app.should_quit);
    press(&mut app, Key::Char('q'));
    assert!(app.should_quit);
}

#[test]
fn right_opens_the_detail_screen_with_tabs_focused() {
    let mut app = app_with_jobs(vec![job(1, "a", 0)]);
    press(&mut app, Key::Right);
    assert_eq!(app.navigation_stack.len(), 2);
    let top = app.navigation_stack[1];
    assert!(matches!(top.id, RouteId::TorrentInfo));
    assert!(matches!(top.focused_widget, FocusableWidget::Tabs));
    press(&mut app, Key::Esc);
    assert_eq!(app.navigation_stack.len(), 1);
}

#[test]
fn navigation_stack_never_drops_below_the_root() {
    let mut app = App::new();
    for _ in 0..5 {
        app.stack_pop();
        assert_eq!(app.navigation_stack.len(), 1);
    }
    press(&mut app, Key::Esc);
    assert_eq!(app.navigation_stack.len(), 1);
    assert!(matches!(app.navigation_stack[0].id, RouteId::TorrentList));
}

#[test]
fn column_picker_sets_the_sort_order() {
    let mut app = App::new();
    press(&mut app, Key::Char('c'));
    assert!(matches!(app.floating_widget, FloatingWidget::ModifyColumns));
    // Move down once: the highlighted column is Status.
    press(&mut app, Key::Char('j'));
    let d = press(&mut app, Key::Right);
    assert_eq!(d.command, None);
    assert!(matches!(app.store.sort_column, ColumnField::Status));
    assert!(app.store.sort_descending);
    let _ = press(&mut app, Key::Left);
    assert!(!app.store.sort_descending);
}

#[test]
fn files_tab_gates_focus_into_the_file_tree() {
    let mut app = app_with_jobs(vec![job(1, "a", 0)]);
    press(&mut app, Key::Right);
    // On the first tab, down does not move focus.
    press(&mut app, Key::Down);
    assert!(matches!(
        app.navigation_stack[1].focused_widget,
        FocusableWidget::Tabs
    ));
    // Move to the files tab, then down moves focus into the tree.
    press(&mut app, Key::Right);
    assert_eq!(app.selected_tab, 1);
    press(&mut app, Key::Down);
    assert!(matches!(
        app.navigation_stack[1].focused_widget,
        FocusableWidget::FileList
    ));
    // Escape returns focus to the tabs without leaving the screen.
    press(&mut app, Key::Esc);
    assert_eq!(app.navigation_stack.len(), 2);
    assert!(matches!(
        app.navigation_stack[1].focused_widget,
        FocusableWidget::Tabs
    ));
}

#[test]
fn function_key_opens_help_too() {
    let mut app = App::new();
    press(&mut app, Key::F(1));
    assert!(matches!(app.floating_widget, FloatingWidget::Help));
}

#[test]
fn add_overlay_navigates_its_own_candidate_list() {
    let mut app = App::new();
    press(&mut app, Key::Char('a'));
    app.set_torrent_files(vec!["x.torrent".to_string(), "y.torrent".to_string()]);
    press(&mut app, Key::Down);
    assert_eq!(app.selected_torrent_file, Some(1));
    press(&mut app, Key::Up);
    assert_eq!(app.selected_torrent_file, Some(0));
    // The job selection below is untouched.
    assert_eq!(app.selected_torrent, Some(0));
}

#[test]
fn shifted_movement_reorders_columns_in_the_picker() {
    let mut app = App::new();
    press(&mut app, Key::Char('c'));
    let d = handler(KeyInput { code: Key::Char('J'), shift: true }, &mut app);
    assert_eq!(d.command, None);
    // The first two columns swapped and the highlight followed.
    assert!(matches!(app.all_info_columns[0].column, ColumnField::Status));
    assert!(matches!(app.all_info_columns[1].column, ColumnField::Name));
    assert_eq!(app.selected_column, Some(1));
}

#[test]
fn vim_synonyms_drive_the_add_overlay_too() {
    let mut app = App::new();
    press(&mut app, Key::Char('a'));
    app.set_torrent_files(vec!["x.torrent".to_string(), "y.torrent".to_string()]);
    // j/k navigate the candidate list like the arrows.
    press(&mut app, Key::Char('j'));
    assert_eq!(app.selected_torrent_file, Some(1));
    press(&mut app, Key::Char('k'));
    assert_eq!(app.selected_torrent_file, Some(0));
    // l confirms the choice like right, h steps back like left.
    press(&mut app, Key::Char('l'));
    assert!(matches!(app.floating_widget, FloatingWidget::AddTorrentConfirm));
    press(&mut app, Key::Char('h'));
    assert!(matches!(app.floating_widget, FloatingWidget::AddTorrent));
}

#[test]
fn arrows_and_letters_never_request_exit() {
    let mut app = app_with_jobs(vec![job(1, "a", 0)]);
    for code in [Key::Up, Key::Down, Key::Left, Key::Right, Key::Esc, Key::Enter,
        Key::Char('x'), Key::F(5)] {
        press(&mut app, code);
        assert!(!app.should_quit);
    }
}

#[test]
fn arrows_open_no_overlay() {
    let mut app = app_with_jobs(vec![job(1, "a", 0)]);
    for code in [Key::Up, Key::Down, Key::Left, Key::Enter, Key::Char('x')] {
        press(&mut app, code);
        assert!(matches!(app.floating_widget, FloatingWidget::Closed));
    }
}

#[test]
fn backspace_on_an_empty_buffer_is_harmless() {
    let mut app = app_with_jobs(vec![job(7, "x", 0)]);
    press(&mut app, Key::Char('r'));
    press(&mut app, Key::Backspace);
    let d = press(&mut app, Key::Enter);
    assert_eq!(
        d.command,
        Some(Command::Rename { id: 7, current_name: "x".to_string(), new_name: String::new() })
    );
}

#[test]
fn escape_cancels_the_rename_without_a_command() {
    let mut app = app_with_jobs(vec![job(7, "x", 0)]);
    press(&mut app, Key::Char('r'));
    press(&mut app, Key::Char('z'));
    let d = press(&mut app, Key::Esc);
    assert_eq!(d.command, None);
    assert!(matches!(app.floating_widget, FloatingWidget::Closed));
    assert!(matches!(app.input_mode, InputMode::Normal));
}

#[test]
fn job_selection_wraps_and_guards_the_empty_list() {
    let mut app = App::new();
    press(&mut app, Key::Down);
    assert_eq!(app.selected_torrent, Some(0));
    let mut app = app_with_jobs(vec![job(1, "a", 0), job(2, "b", 0), job(3, "c", 0)]);
    let d = press(&mut app, Key::Down);
    assert!(d.rebuild_tree);
    assert_eq!(app.selected_torrent, Some(1));
    press(&mut app, Key::Down);
    press(&mut app, Key::Down);
    assert_eq!(app.selected_torrent, Some(0));
    press(&mut app, Key::Up);
    assert_eq!(app.selected_torrent, Some(2));
}
