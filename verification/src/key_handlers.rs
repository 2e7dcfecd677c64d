//! The input router: one key event in, one state mutation and at most one
//! daemon command out.
//!
//! Keys are interpreted in strict priority order: the text-editing mode
//! first, then an open overlay — which captures *all* input, so no key can
//! reach the screen below while a modal is open — and only then the normal
//! bindings of the focused widget.  The router never performs I/O itself:
//! commands and the two load requests come back to the caller as data.
//!
//! The three transition relations `editing_post`, `overlay_post` and
//! `normal_post` are the router's whole behaviour, one per input mode: each
//! fixes the command issued, the fields the key may change, and that every
//! other field stays.  `handler` ensures the relation of the mode it
//! dispatched to.

use vstd::prelude::*;

use crate::app::{App, ColumnAndShow, FloatingWidget, FocusableWidget, InputMode, Route, RouteId};

verus! {

/// A key, already decoded from the terminal's event stream.
#[derive(Clone, Copy, PartialEq, Eq, Structural, Debug)]
pub enum Key {
    Up,
    Down,
    Left,
    Right,
    Enter,
    Esc,
    Backspace,
    F(u8),
    Char(char),
}

/// A key press: the key and whether shift was held.
#[derive(Clone, Copy, PartialEq, Eq, Structural, Debug)]
pub struct KeyInput {
    pub code: Key,
    pub shift: bool,
}

/// The up-movement keys: the arrow and its vim synonyms.
pub open spec fn is_up_key(k: Key) -> bool {
    k is Up || k == Key::Char('k') || k == Key::Char('K')
}

/// The down-movement keys: the arrow and its vim synonyms.
pub open spec fn is_down_key(k: Key) -> bool {
    k is Down || k == Key::Char('j') || k == Key::Char('J')
}

/// The right-movement keys: the arrow and its vim synonym.
pub open spec fn is_right_key(k: Key) -> bool {
    k is Right || k == Key::Char('l')
}

/// The left-movement keys: the arrow and its vim synonym.
pub open spec fn is_left_key(k: Key) -> bool {
    k is Left || k == Key::Char('h')
}

/// A command for the daemon, to be carried out asynchronously by the
/// caller; its outcome shows up in a later snapshot.
#[derive(Clone, PartialEq, Eq, Debug)]
pub enum Command {
    TogglePause { id: i64 },
    Rename { id: i64, current_name: String, new_name: String },
    Add { path: String, paused: bool },
    Remove { id: i64, delete_files: bool },
    Verify { id: i64 },
}

/// What one dispatch asks of the caller: at most one daemon command, a
/// rebuild of the selected job's file tree, and a scan for candidate files.
#[derive(Clone, PartialEq, Eq, Debug)]
pub struct Dispatch {
    pub command: Option<Command>,
    pub rebuild_tree: bool,
    pub load_files: bool,
}

/// An action to apply to a job at the daemon.
#[derive(Clone, Copy, PartialEq, Eq, Structural, Debug)]
pub enum JobAction {
    Start,
    Stop,
}

/// What a pause toggle does, given the job's status as the daemon last
/// reported it: a stopped job is started, any other is stopped.
pub fn toggle_action(status: i64) -> (r: JobAction)
    ensures
        r == if status == 0 { JobAction::Start } else { JobAction::Stop },
{
    if status == 0 {
        JobAction::Start
    } else {
        JobAction::Stop
    }
}

/// Relies on `String::push`: it appends exactly the one character.
#[verifier::external_body]
fn push_char(s: &mut String, c: char)
    ensures
        final(s)@ == old(s)@.push(c),
{
    s.push(c);
}

/// Relies on `String::pop`: it removes and returns the last character, and
/// leaves an empty string empty.
#[verifier::external_body]
fn pop_char(s: &mut String) -> (r: Option<char>)
    ensures
        old(s)@.len() == 0 ==> final(s)@ == old(s)@ && r is None,
        old(s)@.len() > 0 ==> final(s)@ == old(s)@.drop_last() && r == Some(old(s)@.last()),
{
    s.pop()
}

/// An empty dispatch: nothing asked of the caller.
fn no_dispatch() -> (r: Dispatch)
    ensures
        r == (Dispatch { command: None, rebuild_tree: false, load_files: false }),
{
    Dispatch { command: None, rebuild_tree: false, load_files: false }
}

// ---------------------------------------------------------------------------
// The transition relations
// ---------------------------------------------------------------------------

/// The selected job of `pre`.
pub open spec fn sel_job(pre: App) -> crate::app::Torrent {
    pre.store.snapshot.torrents@[pre.selected_torrent->0 as int]
}

/// One key while the rename buffer is being edited: characters and
/// backspace edit the buffer and nothing else, enter issues exactly the
/// rename of the selected job to the typed text and closes the overlay,
/// escape closes it without a command, every other key does nothing.
pub open spec fn editing_post(key: KeyInput, pre: App, post: App, r: Dispatch) -> bool {
    // What editing can never touch.
    &&& post.store == pre.store
    &&& post.navigation_stack@ == pre.navigation_stack@
    &&& post.torrent_files@ == pre.torrent_files@
    &&& post.selected_torrent == pre.selected_torrent
    &&& post.selected_torrent_file == pre.selected_torrent_file
    &&& post.selected_column == pre.selected_column
    &&& post.selected_tab == pre.selected_tab
    &&& post.all_info_columns@ == pre.all_info_columns@
    &&& post.add_paused == pre.add_paused
    &&& post.delete_files == pre.delete_files
    &&& post.should_quit == pre.should_quit
    &&& post.tree == pre.tree
    &&& r.rebuild_tree == false
    &&& r.load_files == false
    // Only enter can issue a command, and only with a job selected.
    &&& r.command is Some ==> key.code is Enter
    &&& pre.store.snapshot.torrents@.len() == 0 ==> r.command is None
    // The overlay and the mode change only on enter and escape; the buffer
    // changes only on a character and on backspace.
    &&& !(key.code is Enter || key.code is Esc) ==> post.floating_widget == pre.floating_widget
        && post.input_mode == pre.input_mode
    &&& !((key.code matches Key::Char(c)) || key.code is Backspace) ==> post.input@ == pre.input@
    &&& key.code is Enter ==> {
        &&& post.floating_widget is Closed
        &&& post.input_mode is Normal
        &&& post.input@ == pre.input@
        &&& pre.store.snapshot.torrents@.len() == 0 ==> r.command is None
        &&& pre.store.snapshot.torrents@.len() > 0 ==> (r.command matches Some(c)
            && c == (Command::Rename {
                id: sel_job(pre).id,
                current_name: sel_job(pre).name,
                new_name: pre.input,
            }))
    }
    &&& (key.code matches Key::Char(c)) ==> post.input@ == pre.input@.push(key.code->Char_0)
        && r.command is None
    &&& key.code is Backspace ==> r.command is None && post.input@ == if pre.input@.len() > 0 {
        pre.input@.drop_last()
    } else {
        pre.input@
    }
    &&& key.code is Esc ==> post.floating_widget is Closed && post.input_mode is Normal
        && post.input@ == pre.input@ && r.command is None
}

/// One key while an overlay is open: only the overlay's own bindings are
/// honored — navigation inside its own list, confirm, toggle, back and
/// escape-to-close — and every other key is swallowed.  The screen below is
/// unreachable: the navigation stack, the job selection and the tabs never
/// change, and only the column picker's left/right bindings reach the sort
/// order.
pub open spec fn overlay_post(key: KeyInput, pre: App, post: App, r: Dispatch) -> bool {
    // What no overlay can touch.
    &&& post.store.snapshot == pre.store.snapshot
    &&& post.navigation_stack@ == pre.navigation_stack@
    &&& post.torrent_files@ == pre.torrent_files@
    &&& post.selected_torrent == pre.selected_torrent
    &&& post.selected_tab == pre.selected_tab
    &&& post.should_quit == pre.should_quit
    &&& post.input@ == pre.input@
    &&& post.input_mode is Normal
    &&& post.tree == pre.tree
    &&& r.rebuild_tree == false
    &&& r.load_files == false
    // Only a confirm can issue a command: an add or a removal.
    &&& r.command matches Some(c) ==> (c is Add || c is Remove) && key.code is Enter
    &&& pre.store.snapshot.torrents@.len() == 0 ==> (r.command matches Some(c) ==> c is Add)
    // Frames: each field changes only under its own overlay and key.
    &&& !(pre.floating_widget is ModifyColumns && (is_left_key(key.code) || is_right_key(
        key.code,
    ))) ==> post.store.sort_column == pre.store.sort_column && post.store.sort_descending
        == pre.store.sort_descending
    &&& !(key.code is Esc || key.code is Enter || is_left_key(key.code) || is_right_key(
        key.code,
    )) ==> post.floating_widget == pre.floating_widget
    &&& !(pre.floating_widget is AddTorrent && (is_up_key(key.code) || is_down_key(key.code)))
        ==> post.selected_torrent_file == pre.selected_torrent_file
    &&& !(pre.floating_widget is ModifyColumns && (is_up_key(key.code) || is_down_key(key.code)))
        ==> post.selected_column == pre.selected_column
    &&& !(pre.floating_widget is ModifyColumns && (((is_up_key(key.code) || is_down_key(key.code))
        && key.shift) || key.code is Enter)) ==> post.all_info_columns@ == pre.all_info_columns@
    &&& !(pre.floating_widget is AddTorrentConfirm && key.code == (Key::Char('p')))
        ==> post.add_paused == pre.add_paused
    &&& !(pre.floating_widget is RemoveTorrent && key.code == (Key::Char('t')))
        ==> post.delete_files == pre.delete_files
    // Escape always closes the overlay, sending nothing.
    &&& key.code is Esc ==> post.floating_widget is Closed && r.command is None
    // The candidate picker: its list navigates, right confirms the choice.
    &&& pre.floating_widget is AddTorrent ==> {
        &&& is_right_key(key.code) ==> post.floating_widget is AddTorrentConfirm && r.command
            is None
        &&& is_down_key(key.code) ==> r.command is None && (pre.torrent_files@.len() == 0
            ==> post.selected_torrent_file == pre.selected_torrent_file) && (
        pre.torrent_files@.len() > 0 ==> (post.selected_torrent_file matches Some(i) && i == (
        pre.selected_torrent_file->0 + 1) as int % pre.torrent_files@.len() as int))
        &&& is_up_key(key.code) ==> r.command is None && (pre.torrent_files@.len() == 0
            ==> post.selected_torrent_file == pre.selected_torrent_file) && (
        pre.torrent_files@.len() > 0 ==> (post.selected_torrent_file matches Some(i) && i == if
        pre.selected_torrent_file->0 > 0 {
            pre.selected_torrent_file->0 - 1
        } else {
            pre.torrent_files@.len() - 1
        }))
    }
    // The add confirmation: back, toggle the paused flag, confirm.
    &&& pre.floating_widget is AddTorrentConfirm ==> {
        &&& is_left_key(key.code) ==> post.floating_widget is AddTorrent && r.command is None
        &&& key.code == (Key::Char('p')) ==> post.add_paused == !pre.add_paused && r.command
            is None
        &&& key.code is Enter ==> {
            &&& post.floating_widget is Closed
            &&& pre.torrent_files@.len() == 0 ==> r.command is None
            &&& pre.torrent_files@.len() > 0 ==> (r.command matches Some(c)
                && c == (Command::Add {
                    path: pre.torrent_files@[pre.selected_torrent_file->0 as int],
                    paused: pre.add_paused,
                }))
        }
    }
    // The removal prompt: toggle the delete-files flag, confirm.
    &&& pre.floating_widget is RemoveTorrent ==> {
        &&& key.code == (Key::Char('t')) ==> post.delete_files == !pre.delete_files && r.command
            is None
        &&& key.code is Enter ==> {
            &&& post.floating_widget is Closed
            &&& pre.store.snapshot.torrents@.len() == 0 ==> r.command is None
            &&& pre.store.snapshot.torrents@.len() > 0 ==> (r.command matches Some(c)
                && c == (Command::Remove {
                    id: sel_job(pre).id,
                    delete_files: pre.delete_files,
                }))
        }
    }
    // The column picker: navigate and reorder its list, set the sort order
    // from the highlighted column, toggle its visibility.
    &&& pre.floating_widget is ModifyColumns ==> {
        let s = pre.selected_column->0 as int;
        &&& is_right_key(key.code) ==> post.store.sort_column
            == pre.all_info_columns@[s].column && post.store.sort_descending == true
        &&& is_left_key(key.code) ==> post.store.sort_column
            == pre.all_info_columns@[s].column && post.store.sort_descending == false
        &&& key.code is Enter ==> post.all_info_columns@ == ({
            let c = pre.all_info_columns@[s];
            pre.all_info_columns@.update(s, ColumnAndShow { column: c.column, show: !c.show })
        })
        &&& is_up_key(key.code) ==> (post.selected_column matches Some(i) && i == if s > 0 {
            s - 1
        } else {
            9int
        }) && if key.shift {
            let a = if s == 0 { 0int } else { s - 1 };
            let b = if s == 0 { 9int } else { s };
            post.all_info_columns@ == pre.all_info_columns@.update(
                a,
                pre.all_info_columns@[b],
            ).update(b, pre.all_info_columns@[a])
        } else {
            post.all_info_columns@ == pre.all_info_columns@
        }
        &&& is_down_key(key.code) ==> (post.selected_column matches Some(i) && i == (s + 1) % 10)
            && if key.shift {
            let b = (s + 1) % 10;
            post.all_info_columns@ == pre.all_info_columns@.update(
                s,
                pre.all_info_columns@[b],
            ).update(b, pre.all_info_columns@[s])
        } else {
            post.all_info_columns@ == pre.all_info_columns@
        }
    }
}

/// One key with no overlay open: directional keys act on the focused
/// widget, the dedicated keys open overlays or issue job commands — each
/// only from the job-list focus, job-scoped ones only while a job exists —
/// and the dedicated quit key alone requests exit.
pub open spec fn normal_post(key: KeyInput, pre: App, post: App, r: Dispatch) -> bool {
    let focus = pre.navigation_stack@.last().focused_widget;
    let n = pre.store.snapshot.torrents@.len();
    // What the normal bindings can never touch.
    &&& post.store.snapshot == pre.store.snapshot
    &&& post.store.sort_column == pre.store.sort_column
    &&& post.store.sort_descending == pre.store.sort_descending
    &&& post.torrent_files@ == pre.torrent_files@
    &&& post.selected_torrent_file == pre.selected_torrent_file
    &&& post.selected_column == pre.selected_column
    &&& post.all_info_columns@ == pre.all_info_columns@
    &&& post.add_paused == pre.add_paused
    &&& post.delete_files == pre.delete_files
    &&& post.input@ == pre.input@
    &&& post.tree.items@ == pre.tree.items@
    // The tree's open set and selection move only from the file-tree focus.
    &&& !(focus is FileList && (is_up_key(key.code) || is_down_key(key.code) || is_right_key(
        key.code,
    ))) ==> post.tree == pre.tree
    // Exit is requested by the dedicated key and by nothing else.
    &&& post.should_quit == (pre.should_quit || key.code == Key::Char('q'))
    // Exactly which overlay each dedicated key opens, and that no other key
    // opens one.
    &&& post.floating_widget == (if key.code == Key::Char('?') || key.code == Key::F(1u8) {
        FloatingWidget::Help
    } else if key.code == Key::Char('c') {
        FloatingWidget::ModifyColumns
    } else if key.code == Key::Char('d') && focus is TorrentList && n > 0 {
        FloatingWidget::RemoveTorrent
    } else if key.code == Key::Char('r') && focus is TorrentList && n > 0 {
        FloatingWidget::Input
    } else if key.code == Key::Char('a') && focus is TorrentList {
        FloatingWidget::AddTorrent
    } else {
        FloatingWidget::Closed
    })
    // The editing mode starts exactly with the rename overlay.
    &&& post.input_mode == (if key.code == Key::Char('r') && focus is TorrentList && n > 0 {
        InputMode::Editing
    } else {
        InputMode::Normal
    })
    // Exactly which command leaves, always for the selected job.
    &&& r.command == (if key.code == Key::Char('p') && focus is TorrentList && n > 0 {
        Some(Command::TogglePause { id: sel_job(pre).id })
    } else if key.code == Key::Char('v') && focus is TorrentList && n > 0 {
        Some(Command::Verify { id: sel_job(pre).id })
    } else {
        None::<Command>
    })
    // The candidate scan is requested exactly when the add picker opens;
    // the tree rebuild exactly when the job selection moved.
    &&& r.load_files == (key.code == Key::Char('a') && focus is TorrentList)
    &&& r.rebuild_tree == ((is_up_key(key.code) || is_down_key(key.code)) && focus is TorrentList
        && n > 0)
    // The job selection: down and up move it, wrapping, only from the
    // job-list focus, and an empty list is a guarded no-op.
    &&& !((is_up_key(key.code) || is_down_key(key.code)) && focus is TorrentList)
        ==> post.selected_torrent == pre.selected_torrent
    &&& is_down_key(key.code) && focus is TorrentList && n > 0 ==> (post.selected_torrent
        matches Some(i) && i == (pre.selected_torrent->0 + 1) as int % n as int)
    &&& is_up_key(key.code) && focus is TorrentList && n > 0 ==> (post.selected_torrent
        matches Some(i) && i == if pre.selected_torrent->0 > 0 {
        pre.selected_torrent->0 - 1
    } else {
        n - 1
    })
    &&& (is_up_key(key.code) || is_down_key(key.code)) && n == 0 ==> post.selected_torrent
        == pre.selected_torrent
    // The tabs: right and left cycle them, only from the tabs focus.
    &&& !((is_right_key(key.code) || is_left_key(key.code)) && focus is Tabs)
        ==> post.selected_tab == pre.selected_tab
    &&& is_right_key(key.code) && focus is Tabs ==> post.selected_tab == (pre.selected_tab + 1)
        as int % 3
    &&& is_left_key(key.code) && focus is Tabs ==> post.selected_tab == if pre.selected_tab > 0 {
        pre.selected_tab - 1
    } else {
        2int
    }
    // The navigation stack: entered by right on the job list, left by
    // escape on the tabs — never past the root — focus stepped into the
    // file tree only from the files tab and back out by escape; nothing
    // else reaches it.
    &&& is_right_key(key.code) && focus is TorrentList ==> post.navigation_stack@
        == pre.navigation_stack@.push(
        Route { id: RouteId::TorrentInfo, focused_widget: FocusableWidget::Tabs },
    )
    &&& is_down_key(key.code) && focus is Tabs ==> post.navigation_stack@ == if pre.selected_tab
        == 1 {
        pre.navigation_stack@.update(
            pre.navigation_stack@.len() - 1,
            Route {
                id: pre.navigation_stack@.last().id,
                focused_widget: FocusableWidget::FileList,
            },
        )
    } else {
        pre.navigation_stack@
    }
    &&& key.code is Esc && focus is Tabs ==> post.navigation_stack@ == if
        pre.navigation_stack@.len() > 1 {
        pre.navigation_stack@.drop_last()
    } else {
        pre.navigation_stack@
    }
    &&& key.code is Esc && focus is FileList ==> post.navigation_stack@
        == pre.navigation_stack@.update(
        pre.navigation_stack@.len() - 1,
        Route { id: pre.navigation_stack@.last().id, focused_widget: FocusableWidget::Tabs },
    )
    &&& !((is_right_key(key.code) && focus is TorrentList) || (is_down_key(key.code) && focus
        is Tabs) || (key.code is Esc && (focus is Tabs || focus is FileList)))
        ==> post.navigation_stack@ == pre.navigation_stack@
}

// ---------------------------------------------------------------------------
// The handlers
// ---------------------------------------------------------------------------

fn editing_handler(key: KeyInput, app: &mut App) -> (r: Dispatch)
    requires
        old(app).wf(),
        old(app).input_mode is Editing,
    ensures
        final(app).wf(),
        editing_post(key, *old(app), *final(app), r),
{
    match key.code {
        Key::Enter => {
            let cmd: Option<Command> = if app.store.snapshot.torrents.len() > 0 {
                let id = app.get_selected_torrent_id();
                let current_name = app.get_selected_torrent_name();
                let new_name = app.input.clone();
                Some(Command::Rename { id, current_name, new_name })
            } else {
                None
            };
            app.input_mode = InputMode::Normal;
            app.floating_widget = FloatingWidget::Closed;
            Dispatch { command: cmd, rebuild_tree: false, load_files: false }
        },
        Key::Char(c) => {
            push_char(&mut app.input, c);
            no_dispatch()
        },
        Key::Backspace => {
            pop_char(&mut app.input);
            no_dispatch()
        },
        Key::Esc => {
            app.floating_widget = FloatingWidget::Closed;
            app.input_mode = InputMode::Normal;
            no_dispatch()
        },
        _ => no_dispatch(),
    }
}

fn overlay_handler(key: KeyInput, app: &mut App) -> (r: Dispatch)
    requires
        old(app).wf(),
        old(app).input_mode is Normal,
        !(old(app).floating_widget is Closed),
    ensures
        final(app).wf(),
        overlay_post(key, *old(app), *final(app), r),
{
    match app.floating_widget {
        FloatingWidget::Help => {
            match key.code {
                Key::Esc => {
                    app.floating_widget = FloatingWidget::Closed;
                },
                _ => {},
            }
            no_dispatch()
        },
        FloatingWidget::Input => {
            match key.code {
                Key::Esc => {
                    app.floating_widget = FloatingWidget::Closed;
                },
                _ => {},
            }
            no_dispatch()
        },
        FloatingWidget::AddTorrent => {
            match key.code {
                Key::Up | Key::Char('k') | Key::Char('K') => app.previous_torrent_file(),
                Key::Down | Key::Char('j') | Key::Char('J') => app.next_torrent_file(),
                Key::Right | Key::Char('l') => {
                    app.floating_widget = FloatingWidget::AddTorrentConfirm;
                },
                Key::Esc => {
                    app.floating_widget = FloatingWidget::Closed;
                },
                _ => {},
            }
            no_dispatch()
        },
        FloatingWidget::AddTorrentConfirm => {
            match key.code {
                Key::Left | Key::Char('h') => {
                    app.floating_widget = FloatingWidget::AddTorrent;
                    no_dispatch()
                },
                Key::Char('p') => {
                    app.toggle_add_torrent_paused();
                    no_dispatch()
                },
                Key::Enter => {
                    let cmd: Option<Command> = if app.torrent_files.len() > 0 {
                        let i = match app.selected_torrent_file {
                            Some(i) => i,
                            None => 0,
                        };
                        let path = app.torrent_files[i].clone();
                        Some(Command::Add { path, paused: app.add_paused })
                    } else {
                        None
                    };
                    app.floating_widget = FloatingWidget::Closed;
                    Dispatch { command: cmd, rebuild_tree: false, load_files: false }
                },
                Key::Esc => {
                    app.floating_widget = FloatingWidget::Closed;
                    no_dispatch()
                },
                _ => no_dispatch(),
            }
        },
        FloatingWidget::RemoveTorrent => {
            match key.code {
                Key::Char('t') => {
                    app.delete_files = !app.delete_files;
                    no_dispatch()
                },
                Key::Enter => {
                    let cmd: Option<Command> = if app.store.snapshot.torrents.len() > 0 {
                        let id = app.get_selected_torrent_id();
                        Some(Command::Remove { id, delete_files: app.delete_files })
                    } else {
                        None
                    };
                    app.floating_widget = FloatingWidget::Closed;
                    Dispatch { command: cmd, rebuild_tree: false, load_files: false }
                },
                Key::Esc => {
                    app.floating_widget = FloatingWidget::Closed;
                    no_dispatch()
                },
                _ => no_dispatch(),
            }
        },
        FloatingWidget::ModifyColumns => {
            match key.code {
                Key::Up | Key::Char('k') | Key::Char('K') => {
                    if key.shift {
                        app.move_column_up();
                        app.previous_column();
                    } else {
                        app.previous_column();
                    }
                },
                Key::Down | Key::Char('j') | Key::Char('J') => {
                    if key.shift {
                        app.move_column_down();
                        app.next_column();
                    } else {
                        app.next_column();
                    }
                },
                Key::Right | Key::Char('l') => {
                    let i = match app.selected_column {
                        Some(i) => i,
                        None => 0,
                    };
                    let column = app.all_info_columns[i].column;
                    app.store.set_sort(column, true);
                },
                Key::Left | Key::Char('h') => {
                    let i = match app.selected_column {
                        Some(i) => i,
                        None => 0,
                    };
                    let column = app.all_info_columns[i].column;
                    app.store.set_sort(column, false);
                },
                Key::Enter => app.toggle_show_column(),
                Key::Esc => {
                    app.floating_widget = FloatingWidget::Closed;
                },
                _ => {},
            }
            no_dispatch()
        },
        FloatingWidget::Closed => no_dispatch(),
    }
}

fn normal_handler(key: KeyInput, app: &mut App) -> (r: Dispatch)
    requires
        old(app).wf(),
        old(app).input_mode is Normal,
        old(app).floating_widget is Closed,
    ensures
        final(app).wf(),
        normal_post(key, *old(app), *final(app), r),
{
    match key.code {
        Key::Up | Key::Char('k') | Key::Char('K') => {
            match app.last_route_focused_widget() {
                Some(FocusableWidget::TorrentList) => {
                    app.previous();
                    let rebuild = app.store.snapshot.torrents.len() > 0;
                    Dispatch { command: None, rebuild_tree: rebuild, load_files: false }
                },
                Some(FocusableWidget::FileList) => {
                    app.tree.previous_file();
                    no_dispatch()
                },
                _ => no_dispatch(),
            }
        },
        Key::Down | Key::Char('j') | Key::Char('J') => {
            match app.last_route_focused_widget() {
                Some(FocusableWidget::TorrentList) => {
                    app.next();
                    let rebuild = app.store.snapshot.torrents.len() > 0;
                    Dispatch { command: None, rebuild_tree: rebuild, load_files: false }
                },
                Some(FocusableWidget::Tabs) => {
                    if app.selected_tab == 1 {
                        let i = app.navigation_stack.len() - 1;
                        let rt = app.navigation_stack[i];
                        app.navigation_stack[i] = Route {
                            id: rt.id,
                            focused_widget: FocusableWidget::FileList,
                        };
                    }
                    no_dispatch()
                },
                Some(FocusableWidget::FileList) => {
                    app.tree.next_file();
                    no_dispatch()
                },
                _ => no_dispatch(),
            }
        },
        Key::Right | Key::Char('l') => {
            match app.last_route_focused_widget() {
                Some(FocusableWidget::TorrentList) => {
                    app.stack_push(
                        Route { id: RouteId::TorrentInfo, focused_widget: FocusableWidget::Tabs },
                    );
                },
                Some(FocusableWidget::Tabs) => app.next_tab(),
                Some(FocusableWidget::FileList) => app.tree.toggle_collapse(),
                _ => {},
            }
            no_dispatch()
        },
        Key::Left | Key::Char('h') => {
            match app.last_route_focused_widget() {
                Some(FocusableWidget::Tabs) => app.previous_tab(),
                _ => {},
            }
            no_dispatch()
        },
        Key::Char('?') | Key::F(1u8) => {
            app.floating_widget = FloatingWidget::Help;
            no_dispatch()
        },
        Key::Char('p') => {
            match app.last_route_focused_widget() {
                Some(FocusableWidget::TorrentList) => {
                    if app.store.snapshot.torrents.len() > 0 {
                        let id = app.get_selected_torrent_id();
                        Dispatch {
                            command: Some(Command::TogglePause { id }),
                            rebuild_tree: false,
                            load_files: false,
                        }
                    } else {
                        no_dispatch()
                    }
                },
                _ => no_dispatch(),
            }
        },
        Key::Char('r') => {
            match app.last_route_focused_widget() {
                Some(FocusableWidget::TorrentList) => {
                    if app.store.snapshot.torrents.len() > 0 {
                        app.floating_widget = FloatingWidget::Input;
                        app.input_mode = InputMode::Editing;
                    }
                },
                _ => {},
            }
            no_dispatch()
        },
        Key::Char('a') => {
            match app.last_route_focused_widget() {
                Some(FocusableWidget::TorrentList) => {
                    app.floating_widget = FloatingWidget::AddTorrent;
                    Dispatch { command: None, rebuild_tree: false, load_files: true }
                },
                _ => no_dispatch(),
            }
        },
        Key::Char('q') => {
            app.should_quit = true;
            no_dispatch()
        },
        Key::Char('d') => {
            match app.last_route_focused_widget() {
                Some(FocusableWidget::TorrentList) => {
                    if app.store.snapshot.torrents.len() > 0 {
                        app.floating_widget = FloatingWidget::RemoveTorrent;
                    }
                },
                _ => {},
            }
            no_dispatch()
        },
        Key::Char('c') => {
            app.floating_widget = FloatingWidget::ModifyColumns;
            no_dispatch()
        },
        Key::Char('v') => {
            match app.last_route_focused_widget() {
                Some(FocusableWidget::TorrentList) => {
                    if app.store.snapshot.torrents.len() > 0 {
                        let id = app.get_selected_torrent_id();
                        Dispatch {
                            command: Some(Command::Verify { id }),
                            rebuild_tree: false,
                            load_files: false,
                        }
                    } else {
                        no_dispatch()
                    }
                },
                _ => no_dispatch(),
            }
        },
        Key::Esc => {
            match app.last_route_focused_widget() {
                Some(FocusableWidget::Tabs) => app.stack_pop(),
                Some(FocusableWidget::FileList) => {
                    let i = app.navigation_stack.len() - 1;
                    let rt = app.navigation_stack[i];
                    app.navigation_stack[i] = Route {
                        id: rt.id,
                        focused_widget: FocusableWidget::Tabs,
                    };
                },
                _ => {},
            }
            no_dispatch()
        },
        _ => no_dispatch(),
    }
}

/// Route one key press.  The editing mode sees it first, then an open
/// overlay, then the focused widget's normal bindings; the three transition
/// relations pin the outcome in full, and a few consequences that hold
/// whatever the mode are restated below them.
pub fn handler(key: KeyInput, app: &mut App) -> (r: Dispatch)
    requires
        old(app).wf(),
    ensures
        final(app).wf(),
        // The full transition relation of the mode the key fell into.
        old(app).input_mode is Editing ==> editing_post(key, *old(app), *final(app), r),
        old(app).input_mode is Normal && !(old(app).floating_widget is Closed) ==> overlay_post(
            key,
            *old(app),
            *final(app),
            r,
        ),
        old(app).input_mode is Normal && old(app).floating_widget is Closed ==> normal_post(
            key,
            *old(app),
            *final(app),
            r,
        ),
        // The router never touches the published snapshot.
        final(app).store.snapshot == old(app).store.snapshot,
        // Overlay gating: while any overlay is open — the rename editor
        // included — no key dispatch mutates the navigation stack, and only
        // the column picker's own left/right bindings reach the sort order.
        !(old(app).floating_widget is Closed) ==> final(app).navigation_stack@ == old(
            app,
        ).navigation_stack@,
        !(old(app).floating_widget is ModifyColumns && old(app).input_mode is Normal && (
        is_left_key(key.code) || is_right_key(key.code))) ==> final(app).store.sort_column == old(
            app,
        ).store.sort_column && final(app).store.sort_descending == old(app).store.sort_descending,
        // With no job in the list, every job-scoped command is a guarded
        // no-op: at most an add command can be issued.
        old(app).store.snapshot.torrents@.len() == 0 ==> (r.command matches Some(c) ==> c is Add),
        // A command is only ever issued by a confirm or a dedicated job
        // key, never by navigation or typing.
        r.command matches Some(c) ==> (key.code is Enter || key.code == (Key::Char('p'))
            || key.code == (Key::Char('v'))),
        // Exit is requested by the dedicated quit key with no overlay open,
        // and by nothing else.
        final(app).should_quit == (old(app).should_quit || (old(app).input_mode is Normal && old(
            app,
        ).floating_widget is Closed && key.code == Key::Char('q'))),
        // The candidate list itself is never edited by a key.
        final(app).torrent_files@ == old(app).torrent_files@,
        // The file tree's nodes are never edited by a key; only a rebuild
        // that the dispatch requests replaces them.
        final(app).tree.items@ == old(app).tree.items@,
{
    match app.input_mode {
        InputMode::Editing => editing_handler(key, app),
        InputMode::Normal => {
            if !matches!(app.floating_widget, FloatingWidget::Closed) {
                overlay_handler(key, app)
            } else {
                normal_handler(key, app)
            }
        },
    }
}

} // verus!
