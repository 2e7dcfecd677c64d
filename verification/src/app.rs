//! The application's data model: screens, focus, overlays, columns and jobs.

use vstd::prelude::*;

use crate::conversion::{
    convert_rate, convert_secs, date, get_status_percentage, i64_to_string, ratio_string,
    status_string,
};
use crate::store::StateStore;
use crate::tree::{make_tree, nodes_view, reconcile, rebuild_rel, FsNode, StatefulTree};

verus! {

/// Identity of a screen on the navigation stack.
#[derive(Clone, Copy, PartialEq, Eq, Structural, Debug)]
pub enum RouteId {
    TorrentList,
    TorrentInfo,
}

/// Which widget inside the current screen owns keyboard focus.
#[derive(Clone, Copy, PartialEq, Eq, Structural, Debug)]
pub enum FocusableWidget {
    TorrentList,
    Tabs,
    FileList,
}

/// One entry of the navigation stack: a screen plus its focused widget.
#[derive(Clone, Copy, PartialEq, Eq, Structural, Debug)]
pub struct Route {
    pub id: RouteId,
    pub focused_widget: FocusableWidget,
}

/// The modal overlay floating above the current screen, if any.
#[derive(Clone, Copy, PartialEq, Eq, Structural, Debug)]
pub enum FloatingWidget {
    Help,
    Input,
    AddTorrent,
    AddTorrentConfirm,
    RemoveTorrent,
    ModifyColumns,
    Closed,
}

/// Whether key presses edit the text buffer or drive the normal bindings.
#[derive(Clone, Copy, PartialEq, Eq, Structural, Debug)]
pub enum InputMode {
    Normal,
    Editing,
}

/// A job field that can be shown as a column and used as the sort key.
#[derive(Clone, Copy, PartialEq, Eq, Structural, Debug)]
pub enum ColumnField {
    Name,
    Status,
    Id,
    Progress,
    Eta,
    DownloadRate,
    UploadRate,
    UploadRatio,
    DoneDate,
    AddedDate,
}

impl ColumnField {
    /// The column's header text.
    pub open spec fn label(self) -> Seq<char> {
        match self {
            ColumnField::Name => "Name"@,
            ColumnField::Status => "Status"@,
            ColumnField::Id => "Id"@,
            ColumnField::Progress => "Progress"@,
            ColumnField::Eta => "Eta"@,
            ColumnField::DownloadRate => "Down Speed"@,
            ColumnField::UploadRate => "Up Speed"@,
            ColumnField::UploadRatio => "Ratio"@,
            ColumnField::DoneDate => "Date Done"@,
            ColumnField::AddedDate => "Date Added"@,
        }
    }

    pub fn as_str(&self) -> (r: String)
        ensures
            r@ == self.label(),
    {
        match self {
            ColumnField::Name => String::from_str("Name"),
            ColumnField::Status => String::from_str("Status"),
            ColumnField::Id => String::from_str("Id"),
            ColumnField::Progress => String::from_str("Progress"),
            ColumnField::Eta => String::from_str("Eta"),
            ColumnField::DownloadRate => String::from_str("Down Speed"),
            ColumnField::UploadRate => String::from_str("Up Speed"),
            ColumnField::UploadRatio => String::from_str("Ratio"),
            ColumnField::DoneDate => String::from_str("Date Done"),
            ColumnField::AddedDate => String::from_str("Date Added"),
        }
    }
}

/// A column together with its visibility flag.
#[derive(Clone, Copy, PartialEq, Eq, Structural, Debug)]
pub struct ColumnAndShow {
    pub column: ColumnField,
    pub show: bool,
}

/// One file of a job's manifest.  `path` is the file's path relative to the
/// job's download directory, split into components.
#[derive(Clone, Debug)]
pub struct TorrentFile {
    pub path: Vec<String>,
    pub size: i64,
    pub priority: i64,
    pub done: bool,
}

/// One job, as published in a snapshot.  Fractional daemon fields arrive
/// already scaled to integers: `percent_done` and `recheck_progress` in
/// thousandths, `upload_ratio` in hundredths.
#[derive(Clone, Debug)]
pub struct Torrent {
    pub id: i64,
    pub name: String,
    pub status: i64,
    pub percent_done: i64,
    pub recheck_progress: i64,
    pub eta: i64,
    pub rate_download: i64,
    pub rate_upload: i64,
    pub upload_ratio: i64,
    pub done_date: i64,
    pub added_date: i64,
    pub total_size: i64,
    pub download_dir: String,
    pub files: Vec<TorrentFile>,
}

/// Session-wide aggregate transfer statistics.
#[derive(Clone, Copy, PartialEq, Eq, Structural, Debug)]
pub struct SessionStats {
    pub download_speed: i64,
    pub upload_speed: i64,
    pub downloaded_bytes: i64,
    pub uploaded_bytes: i64,
}

// ---------------------------------------------------------------------------
// Column layout
// ---------------------------------------------------------------------------

/// The columns hold `f`.
pub open spec fn col_has(s: Seq<ColumnAndShow>, f: ColumnField) -> bool {
    exists|i: int| 0 <= i < s.len() && s[i].column == f
}

/// The column layout invariant: every field appears exactly once.
pub open spec fn columns_wf(s: Seq<ColumnAndShow>) -> bool {
    &&& s.len() == 10
    &&& forall|i: int, j: int| 0 <= i < j < s.len() ==> (#[trigger] s[i]).column != (#[trigger] s[j]).column
    &&& col_has(s, ColumnField::Name)
    &&& col_has(s, ColumnField::Status)
    &&& col_has(s, ColumnField::Id)
    &&& col_has(s, ColumnField::Progress)
    &&& col_has(s, ColumnField::Eta)
    &&& col_has(s, ColumnField::DownloadRate)
    &&& col_has(s, ColumnField::UploadRate)
    &&& col_has(s, ColumnField::UploadRatio)
    &&& col_has(s, ColumnField::DoneDate)
    &&& col_has(s, ColumnField::AddedDate)
}

/// Swapping two columns is a permutation: it neither loses a field, nor
/// duplicates one, nor changes any visibility flag's pairing.
proof fn lemma_swap_columns_wf(s: Seq<ColumnAndShow>, a: int, b: int)
    requires
        columns_wf(s),
        0 <= a < s.len(),
        0 <= b < s.len(),
    ensures
        columns_wf(s.update(a, s[b]).update(b, s[a])),
{
    let t = s.update(a, s[b]).update(b, s[a]);
    assert forall|f: ColumnField| col_has(s, f) implies col_has(t, f) by {
        let w = choose|i: int| 0 <= i < s.len() && s[i].column == f;
        if a == b {
            assert(t[w] == s[w]);
        } else if w == a {
            assert(t[b] == s[a]);
        } else if w == b {
            assert(t[a] == s[b]);
        } else {
            assert(t[w] == s[w]);
        }
    }
    assert forall|i: int, j: int| 0 <= i < j < t.len() implies (#[trigger] t[i]).column
        != (#[trigger] t[j]).column by {
        let oi = if i == a { b } else if i == b { a } else { i };
        let oj = if j == a { b } else if j == b { a } else { j };
        assert(t[i] == s[oi]);
        assert(t[j] == s[oj]);
    }
}

// ---------------------------------------------------------------------------
// The application state
// ---------------------------------------------------------------------------

/// The whole state the input loop owns: the shared store, the navigation
/// stack, the overlay, the column layout, selections and the file tree.
pub struct App {
    pub store: StateStore,
    pub navigation_stack: Vec<Route>,
    pub selected_torrent: Option<usize>,
    pub selected_tab: usize,
    pub floating_widget: FloatingWidget,
    pub should_quit: bool,
    pub input_mode: InputMode,
    pub input: String,
    pub torrent_files: Vec<String>,
    pub selected_torrent_file: Option<usize>,
    pub add_paused: bool,
    pub delete_files: bool,
    pub all_info_columns: Vec<ColumnAndShow>,
    pub selected_column: Option<usize>,
    pub tree: StatefulTree,
}

/// An index selection into a list: in range, or resting at zero while the
/// list is empty.
pub open spec fn sel_wf(sel: Option<usize>, len: nat) -> bool {
    sel matches Some(i) && (i < len || (len == 0 && i == 0))
}

impl App {
    /// The state's invariant: a root route always exists, selections are in
    /// range, the text-editing mode only runs under the rename overlay, and
    /// the column layout holds every field exactly once.
    pub open spec fn wf(self) -> bool {
        &&& self.navigation_stack@.len() >= 1
        &&& self.selected_tab < 3
        &&& sel_wf(self.selected_torrent, self.store.snapshot.torrents@.len())
        &&& sel_wf(self.selected_torrent_file, self.torrent_files@.len())
        &&& self.selected_column matches Some(i) && i < 10
        &&& columns_wf(self.all_info_columns@)
        &&& self.input_mode is Editing ==> self.floating_widget is Input
        &&& self.tree.wf()
    }

    /// The initial state: an empty store, the job-list screen with the list
    /// focused, no overlay, and the default column layout.
    pub fn new() -> (r: App)
        ensures
            r.wf(),
            r.store.snapshot.torrents@.len() == 0,
            r.store.snapshot.stats is None,
            r.store.sort_column == ColumnField::Name,
            r.store.sort_descending == true,
            r.navigation_stack@.len() == 1,
            r.navigation_stack@[0] == (Route {
                id: RouteId::TorrentList,
                focused_widget: FocusableWidget::TorrentList,
            }),
            r.floating_widget is Closed,
            r.input_mode is Normal,
            r.should_quit == false,
            r.input@.len() == 0,
            r.torrent_files@.len() == 0,
            r.add_paused == false,
            r.delete_files == false,
            r.selected_tab == 0,
            r.selected_torrent == Some(0usize),
            r.tree.items@.len() == 0,
            r.tree.opened@.len() == 0,
    {
        let mut stack: Vec<Route> = Vec::new();
        stack.push(Route { id: RouteId::TorrentList, focused_widget: FocusableWidget::TorrentList });
        let mut cols: Vec<ColumnAndShow> = Vec::new();
        cols.push(ColumnAndShow { column: ColumnField::Name, show: true });
        cols.push(ColumnAndShow { column: ColumnField::Status, show: true });
        cols.push(ColumnAndShow { column: ColumnField::Progress, show: true });
        cols.push(ColumnAndShow { column: ColumnField::DownloadRate, show: true });
        cols.push(ColumnAndShow { column: ColumnField::UploadRate, show: true });
        cols.push(ColumnAndShow { column: ColumnField::UploadRatio, show: true });
        cols.push(ColumnAndShow { column: ColumnField::Eta, show: false });
        cols.push(ColumnAndShow { column: ColumnField::DoneDate, show: false });
        cols.push(ColumnAndShow { column: ColumnField::AddedDate, show: false });
        cols.push(ColumnAndShow { column: ColumnField::Id, show: false });
        proof {
            assert(cols@[0].column == ColumnField::Name);
            assert(cols@[1].column == ColumnField::Status);
            assert(cols@[2].column == ColumnField::Progress);
            assert(cols@[3].column == ColumnField::DownloadRate);
            assert(cols@[4].column == ColumnField::UploadRate);
            assert(cols@[5].column == ColumnField::UploadRatio);
            assert(cols@[6].column == ColumnField::Eta);
            assert(cols@[7].column == ColumnField::DoneDate);
            assert(cols@[8].column == ColumnField::AddedDate);
            assert(cols@[9].column == ColumnField::Id);
        }
        App {
            store: StateStore::new(),
            navigation_stack: stack,
            selected_torrent: Some(0),
            selected_tab: 0,
            floating_widget: FloatingWidget::Closed,
            should_quit: false,
            input_mode: InputMode::Normal,
            input: String::new(),
            torrent_files: Vec::new(),
            selected_torrent_file: Some(0),
            add_paused: false,
            delete_files: false,
            all_info_columns: cols,
            selected_column: Some(0),
            tree: StatefulTree::new(),
        }
    }

    /// The screen currently shown: the top of the navigation stack.
    pub fn last_route_id(&self) -> (r: Option<RouteId>)
        ensures
            r == if self.navigation_stack@.len() > 0 {
                Some(self.navigation_stack@.last().id)
            } else {
                None::<RouteId>
            },
    {
        if self.navigation_stack.len() > 0 {
            Some(self.navigation_stack[self.navigation_stack.len() - 1].id)
        } else {
            None
        }
    }

    /// The widget that owns focus on the current screen.
    pub fn last_route_focused_widget(&self) -> (r: Option<FocusableWidget>)
        ensures
            r == if self.navigation_stack@.len() > 0 {
                Some(self.navigation_stack@.last().focused_widget)
            } else {
                None::<FocusableWidget>
            },
    {
        if self.navigation_stack.len() > 0 {
            Some(self.navigation_stack[self.navigation_stack.len() - 1].focused_widget)
        } else {
            None
        }
    }

    /// Enter a deeper screen.
    pub fn stack_push(&mut self, route: Route)
        ensures
            *final(self) == (App { navigation_stack: final(self).navigation_stack, ..*old(self) }),
            final(self).navigation_stack@ == old(self).navigation_stack@.push(route),
    {
        self.navigation_stack.push(route);
    }

    /// Leave the current screen — unless it is the root, which always
    /// stays: popping a one-route stack changes nothing.
    pub fn stack_pop(&mut self)
        ensures
            *final(self) == (App { navigation_stack: final(self).navigation_stack, ..*old(self) }),
            old(self).navigation_stack@.len() > 1 ==> final(self).navigation_stack@
                == old(self).navigation_stack@.drop_last(),
            old(self).navigation_stack@.len() <= 1 ==> final(self).navigation_stack@
                == old(self).navigation_stack@,
    {
        if self.navigation_stack.len() > 1 {
            self.navigation_stack.pop();
            proof {
                assert(self.navigation_stack@ =~= old(self).navigation_stack@.drop_last());
            }
        }
    }

    /// Publish a fetch outcome and keep the job selection in range: a
    /// selection beyond the new list falls back to the first row.
    pub fn refresh(&mut self, fetched: Result<crate::store::Snapshot, String>)
        requires
            old(self).wf(),
        ensures
            final(self).wf(),
            crate::store::refresh_rel(old(self).store, fetched, final(self).store),
            *final(self) == (App {
                store: final(self).store,
                selected_torrent: final(self).selected_torrent,
                ..*old(self)
            }),
            final(self).selected_torrent == if sel_wf(
                old(self).selected_torrent,
                final(self).store.snapshot.torrents@.len(),
            ) {
                old(self).selected_torrent
            } else {
                Some(0usize)
            },
    {
        self.store.refresh(fetched);
        let n = self.store.snapshot.torrents.len();
        match self.selected_torrent {
            Some(i) if i < n || (n == 0 && i == 0) => {},
            _ => {
                self.selected_torrent = Some(0);
            },
        }
    }

    /// Move the job selection one row down, wrapping at the end; with no
    /// jobs it is a guarded no-op.
    pub fn next(&mut self)
        requires
            old(self).wf(),
        ensures
            final(self).wf(),
            *final(self) == (App {
                selected_torrent: final(self).selected_torrent,
                ..*old(self)
            }),
            old(self).store.snapshot.torrents@.len() == 0 ==> final(self).selected_torrent
                == old(self).selected_torrent,
            old(self).store.snapshot.torrents@.len() > 0 ==> (final(self).selected_torrent
                matches Some(i) && i == (old(self).selected_torrent->0 + 1) as int
                % old(self).store.snapshot.torrents@.len() as int),
    {
        let n = self.store.snapshot.torrents.len();
        if n == 0 {
            return;
        }
        let cur = match self.selected_torrent {
            Some(i) => i,
            None => 0,
        };
        self.selected_torrent = Some((cur + 1) % n);
    }

    /// Move the job selection one row up, wrapping at the start; with no
    /// jobs it is a guarded no-op.
    pub fn previous(&mut self)
        requires
            old(self).wf(),
        ensures
            final(self).wf(),
            *final(self) == (App {
                selected_torrent: final(self).selected_torrent,
                ..*old(self)
            }),
            old(self).store.snapshot.torrents@.len() == 0 ==> final(self).selected_torrent
                == old(self).selected_torrent,
            old(self).store.snapshot.torrents@.len() > 0 ==> (final(self).selected_torrent
                matches Some(i) && i == if old(self).selected_torrent->0 > 0 {
                    old(self).selected_torrent->0 - 1
                } else {
                    old(self).store.snapshot.torrents@.len() - 1
                }),
    {
        let n = self.store.snapshot.torrents.len();
        if n == 0 {
            return;
        }
        let cur = match self.selected_torrent {
            Some(i) => i,
            None => 0,
        };
        if cur > 0 {
            self.selected_torrent = Some(cur - 1);
        } else {
            self.selected_torrent = Some(n - 1);
        }
    }

    /// Move the column-picker selection one row down, wrapping.
    pub fn next_column(&mut self)
        requires
            old(self).wf(),
        ensures
            final(self).wf(),
            *final(self) == (App { selected_column: final(self).selected_column, ..*old(self) }),
            final(self).selected_column matches Some(i) && i == (old(self).selected_column->0 + 1)
                as int % 10,
    {
        let cur = match self.selected_column {
            Some(i) => i,
            None => 0,
        };
        self.selected_column = Some((cur + 1) % 10);
    }

    /// Move the column-picker selection one row up, wrapping.
    pub fn previous_column(&mut self)
        requires
            old(self).wf(),
        ensures
            final(self).wf(),
            *final(self) == (App { selected_column: final(self).selected_column, ..*old(self) }),
            final(self).selected_column matches Some(i) && i == if old(self).selected_column->0 > 0 {
                old(self).selected_column->0 - 1
            } else {
                9
            },
    {
        let cur = match self.selected_column {
            Some(i) => i,
            None => 0,
        };
        if cur > 0 {
            self.selected_column = Some(cur - 1);
        } else {
            self.selected_column = Some(9);
        }
    }

    /// Swap the highlighted column with the one after it, wrapping.
    pub fn move_column_down(&mut self)
        requires
            old(self).wf(),
        ensures
            final(self).wf(),
            *final(self) == (App {
                all_info_columns: final(self).all_info_columns,
                ..*old(self)
            }),
            ({
                let a = old(self).selected_column->0 as int;
                let b = (a + 1) % 10;
                final(self).all_info_columns@ == old(self).all_info_columns@.update(
                    a,
                    old(self).all_info_columns@[b],
                ).update(b, old(self).all_info_columns@[a])
            }),
    {
        let a = match self.selected_column {
            Some(i) => i,
            None => 0,
        };
        let b = (a + 1) % 10;
        let ca = self.all_info_columns[a];
        let cb = self.all_info_columns[b];
        self.all_info_columns[a] = cb;
        self.all_info_columns[b] = ca;
        proof {
            lemma_swap_columns_wf(old(self).all_info_columns@, a as int, b as int);
        }
    }

    /// Swap the highlighted column with the one before it, wrapping.
    pub fn move_column_up(&mut self)
        requires
            old(self).wf(),
        ensures
            final(self).wf(),
            *final(self) == (App {
                all_info_columns: final(self).all_info_columns,
                ..*old(self)
            }),
            ({
                let s = old(self).selected_column->0 as int;
                let a = if s == 0 { 0int } else { s - 1 };
                let b = if s == 0 { 9int } else { s };
                final(self).all_info_columns@ == old(self).all_info_columns@.update(
                    a,
                    old(self).all_info_columns@[b],
                ).update(b, old(self).all_info_columns@[a])
            }),
    {
        let s = match self.selected_column {
            Some(i) => i,
            None => 0,
        };
        let a = if s == 0 { 0 } else { s - 1 };
        let b = if s == 0 { 9 } else { s };
        let ca = self.all_info_columns[a];
        let cb = self.all_info_columns[b];
        self.all_info_columns[a] = cb;
        self.all_info_columns[b] = ca;
        proof {
            lemma_swap_columns_wf(old(self).all_info_columns@, a as int, b as int);
        }
    }

    /// Toggle whether the highlighted column is rendered.
    pub fn toggle_show_column(&mut self)
        requires
            old(self).wf(),
        ensures
            final(self).wf(),
            *final(self) == (App {
                all_info_columns: final(self).all_info_columns,
                ..*old(self)
            }),
            ({
                let i = old(self).selected_column->0 as int;
                let c = old(self).all_info_columns@[i];
                final(self).all_info_columns@ == old(self).all_info_columns@.update(
                    i,
                    ColumnAndShow { column: c.column, show: !c.show },
                )
            }),
    {
        let i = match self.selected_column {
            Some(i) => i,
            None => 0,
        };
        let c = self.all_info_columns[i];
        self.all_info_columns[i] = ColumnAndShow { column: c.column, show: !c.show };
        proof {
            let olds = old(self).all_info_columns@;
            let news = self.all_info_columns@;
            assert forall|f: ColumnField| col_has(olds, f) implies col_has(news, f) by {
                let w = choose|k: int| 0 <= k < olds.len() && olds[k].column == f;
                assert(news[w].column == olds[w].column);
            }
        }
    }

    /// Move the candidate-file selection one row down, wrapping; with no
    /// candidates it is a guarded no-op.
    pub fn next_torrent_file(&mut self)
        requires
            old(self).wf(),
        ensures
            final(self).wf(),
            *final(self) == (App {
                selected_torrent_file: final(self).selected_torrent_file,
                ..*old(self)
            }),
            old(self).torrent_files@.len() == 0 ==> final(self).selected_torrent_file
                == old(self).selected_torrent_file,
            old(self).torrent_files@.len() > 0 ==> (final(self).selected_torrent_file
                matches Some(i) && i == (old(self).selected_torrent_file->0 + 1) as int
                % old(self).torrent_files@.len() as int),
    {
        let n = self.torrent_files.len();
        if n == 0 {
            return;
        }
        let cur = match self.selected_torrent_file {
            Some(i) => i,
            None => 0,
        };
        self.selected_torrent_file = Some((cur + 1) % n);
    }

    /// Move the candidate-file selection one row up, wrapping; with no
    /// candidates it is a guarded no-op.
    pub fn previous_torrent_file(&mut self)
        requires
            old(self).wf(),
        ensures
            final(self).wf(),
            *final(self) == (App {
                selected_torrent_file: final(self).selected_torrent_file,
                ..*old(self)
            }),
            old(self).torrent_files@.len() == 0 ==> final(self).selected_torrent_file
                == old(self).selected_torrent_file,
            old(self).torrent_files@.len() > 0 ==> (final(self).selected_torrent_file
                matches Some(i) && i == if old(self).selected_torrent_file->0 > 0 {
                    old(self).selected_torrent_file->0 - 1
                } else {
                    old(self).torrent_files@.len() - 1
                }),
    {
        let n = self.torrent_files.len();
        if n == 0 {
            return;
        }
        let cur = match self.selected_torrent_file {
            Some(i) => i,
            None => 0,
        };
        if cur > 0 {
            self.selected_torrent_file = Some(cur - 1);
        } else {
            self.selected_torrent_file = Some(n - 1);
        }
    }

    /// Move to the next detail tab, wrapping over the three tabs.
    pub fn next_tab(&mut self)
        requires
            old(self).wf(),
        ensures
            final(self).wf(),
            *final(self) == (App { selected_tab: final(self).selected_tab, ..*old(self) }),
            final(self).selected_tab == (old(self).selected_tab + 1) as int % 3,
    {
        self.selected_tab = (self.selected_tab + 1) % 3;
    }

    /// Move to the previous detail tab, wrapping.
    pub fn previous_tab(&mut self)
        requires
            old(self).wf(),
        ensures
            final(self).wf(),
            *final(self) == (App { selected_tab: final(self).selected_tab, ..*old(self) }),
            final(self).selected_tab == if old(self).selected_tab > 0 {
                old(self).selected_tab - 1
            } else {
                2int
            },
    {
        if self.selected_tab > 0 {
            self.selected_tab = self.selected_tab - 1;
        } else {
            self.selected_tab = 2;
        }
    }

    /// Flip whether a newly added job starts paused.
    pub fn toggle_add_torrent_paused(&mut self)
        ensures
            *final(self) == (App { add_paused: !old(self).add_paused, ..*old(self) }),
    {
        self.add_paused = !self.add_paused;
    }

    /// Replace the add-job candidate list, restarting its selection.
    pub fn set_torrent_files(&mut self, files: Vec<String>)
        requires
            old(self).wf(),
        ensures
            final(self).wf(),
            *final(self) == (App {
                torrent_files: final(self).torrent_files,
                selected_torrent_file: Some(0usize),
                ..*old(self)
            }),
            final(self).torrent_files@ == files@,
    {
        self.torrent_files = files;
        self.selected_torrent_file = Some(0);
    }

    /// The selected job.
    pub fn get_selected_torrent(&self) -> (r: &Torrent)
        requires
            self.wf(),
            self.store.snapshot.torrents@.len() > 0,
        ensures
            *r == self.store.snapshot.torrents@[self.selected_torrent->0 as int],
    {
        let i = match self.selected_torrent {
            Some(i) => i,
            None => 0,
        };
        &self.store.snapshot.torrents[i]
    }

    /// The selected job's daemon id.
    pub fn get_selected_torrent_id(&self) -> (r: i64)
        requires
            self.wf(),
            self.store.snapshot.torrents@.len() > 0,
        ensures
            r == self.store.snapshot.torrents@[self.selected_torrent->0 as int].id,
    {
        self.get_selected_torrent().id
    }

    /// The selected job's name.
    pub fn get_selected_torrent_name(&self) -> (r: String)
        requires
            self.wf(),
            self.store.snapshot.torrents@.len() > 0,
        ensures
            r == self.store.snapshot.torrents@[self.selected_torrent->0 as int].name,
    {
        self.get_selected_torrent().name.clone()
    }

    /// Rebuild the file tree of the selected job from a fresh directory
    /// listing, reconciling it against the job's manifest; the open set
    /// survives, the tree selection starts afresh.
    pub fn tree_with_path(&mut self, entries: &Vec<FsNode>)
        requires
            old(self).wf(),
            old(self).store.snapshot.torrents@.len() > 0,
        ensures
            final(self).wf(),
            *final(self) == (App { tree: final(self).tree, ..*old(self) }),
            rebuild_rel(old(self).tree, final(self).tree.items@, final(self).tree),
            nodes_view(final(self).tree.items@) == reconcile(
                entries@,
                old(self).store.snapshot.torrents@[old(self).selected_torrent->0 as int].files@,
                Seq::<String>::empty(),
            ),
    {
        let i = match self.selected_torrent {
            Some(i) => i,
            None => 0,
        };
        let prefix: Vec<String> = Vec::new();
        let items = make_tree(entries, &self.store.snapshot.torrents[i].files, &prefix);
        self.tree.rebuild(items);
    }

    /// The job table as text: the visible columns' headers, and one row of
    /// cells per job in snapshot order, each cell the column's display text
    /// for that job.
    pub fn get_torrent_rows(&self) -> (r: (Vec<String>, Vec<Vec<String>>))
        requires
            self.wf(),
        ensures
            ({
                let vis = self.all_info_columns@.filter(|c: ColumnAndShow| c.show);
                let jobs = self.store.snapshot.torrents@;
                &&& r.0@.len() == vis.len()
                &&& forall|j: int| 0 <= j < vis.len() ==> (#[trigger] r.0@[j])@
                    == vis[j].column.label()
                &&& r.1@.len() == jobs.len()
                &&& forall|i: int| 0 <= i < jobs.len() ==> (#[trigger] r.1@[i])@.len()
                    == vis.len()
                &&& forall|i: int, j: int| 0 <= i < jobs.len() && 0 <= j < vis.len()
                    ==> (((#[trigger] r.1@[i])@[j])@ == cell_text(jobs[i], #[trigger] vis[j].column))
            }),
    {
        let ghost pred = |c: ColumnAndShow| c.show;
        let ghost cols = self.all_info_columns@;
        let ghost vis = cols.filter(pred);
        let ghost jobs = self.store.snapshot.torrents@;
        proof {
            reveal(Seq::filter);
            assert(cols.subrange(0, 0).filter(pred) =~= Seq::<ColumnAndShow>::empty());
        }
        let mut rows: Vec<Vec<String>> = Vec::new();
        let mut i: usize = 0;
        while i < self.store.snapshot.torrents.len()
            invariant
                self.wf(),
                i <= jobs.len(),
                cols == self.all_info_columns@,
                vis == cols.filter(pred),
                jobs == self.store.snapshot.torrents@,
                pred == (|c: ColumnAndShow| c.show),
                rows@.len() == i,
                forall|m: int| 0 <= m < i ==> (#[trigger] rows@[m])@.len() == vis.len(),
                forall|m: int, j: int| 0 <= m < i && 0 <= j < vis.len()
                    ==> (((#[trigger] rows@[m])@[j])@ == cell_text(jobs[m], #[trigger] vis[j].column)),
            decreases jobs.len() - i,
        {
            let torrent = &self.store.snapshot.torrents[i];
            let mut row: Vec<String> = Vec::new();
            let mut k: usize = 0;
            proof {
                assert(cols.subrange(0, 0).filter(pred) =~= Seq::<ColumnAndShow>::empty());
            }
            while k < self.all_info_columns.len()
                invariant
                    self.wf(),
                    k <= cols.len(),
                    i < jobs.len(),
                    cols == self.all_info_columns@,
                    jobs == self.store.snapshot.torrents@,
                    pred == (|c: ColumnAndShow| c.show),
                    *torrent == jobs[i as int],
                    ({
                        let visk = cols.subrange(0, k as int).filter(pred);
                        &&& row@.len() == visk.len()
                        &&& forall|j: int| 0 <= j < visk.len() ==> ((#[trigger] row@[j])@)
                            == cell_text(jobs[i as int], visk[j].column)
                    }),
                decreases cols.len() - k,
            {
                let ghost visk = cols.subrange(0, k as int).filter(pred);
                proof {
                    assert(cols.subrange(0, k + 1).drop_last() =~= cols.subrange(0, k as int));
                    assert(cols.subrange(0, k + 1).last() == cols[k as int]);
                    crate::sort::lemma_filter_push(
                        cols.subrange(0, k as int),
                        cols[k as int],
                        pred,
                    );
                    assert(cols.subrange(0, k as int).push(cols[k as int])
                        =~= cols.subrange(0, k + 1));
                }
                let field = self.all_info_columns[k];
                if field.show {
                    let cell: String = match field.column {
                        ColumnField::Name => torrent.name.clone(),
                        ColumnField::Id => i64_to_string(torrent.id),
                        ColumnField::Eta => convert_secs(torrent.eta),
                        ColumnField::Status => {
                            let s = status_string(&torrent.status);
                            String::from_str(s)
                        },
                        ColumnField::Progress => get_status_percentage(torrent),
                        ColumnField::DownloadRate => convert_rate(torrent.rate_download),
                        ColumnField::UploadRate => convert_rate(torrent.rate_upload),
                        ColumnField::UploadRatio => ratio_string(torrent.upload_ratio),
                        ColumnField::DoneDate => date(torrent.done_date),
                        ColumnField::AddedDate => date(torrent.added_date),
                    };
                    row.push(cell);
                    proof {
                        let visk1 = cols.subrange(0, k + 1).filter(pred);
                        assert(visk1 == visk.push(cols[k as int]));
                        assert(row@.len() == visk1.len());
                        assert(forall|j: int| 0 <= j < visk.len()
                            ==> ((#[trigger] row@[j])@) == cell_text(jobs[i as int], visk[j].column));
                        assert((row@[visk.len() as int])@
                            == cell_text(jobs[i as int], visk1[visk.len() as int].column));
                    }
                } else {
                    proof {
                        assert(cols.subrange(0, k + 1).filter(pred) == visk);
                    }
                }
                k = k + 1;
            }
            proof {
                assert(cols.subrange(0, cols.len() as int) =~= cols);
            }
            rows.push(row);
            i = i + 1;
        }
        let mut headers: Vec<String> = Vec::new();
        let mut k: usize = 0;
        proof {
            assert(cols.subrange(0, 0).filter(pred) =~= Seq::<ColumnAndShow>::empty());
        }
        while k < self.all_info_columns.len()
            invariant
                self.wf(),
                k <= cols.len(),
                cols == self.all_info_columns@,
                pred == (|c: ColumnAndShow| c.show),
                ({
                    let visk = cols.subrange(0, k as int).filter(pred);
                    &&& headers@.len() == visk.len()
                    &&& forall|j: int| 0 <= j < visk.len() ==> ((#[trigger] headers@[j])@)
                        == visk[j].column.label()
                }),
            decreases cols.len() - k,
        {
            let ghost visk = cols.subrange(0, k as int).filter(pred);
            proof {
                assert(cols.subrange(0, k + 1).drop_last() =~= cols.subrange(0, k as int));
                assert(cols.subrange(0, k + 1).last() == cols[k as int]);
                crate::sort::lemma_filter_push(cols.subrange(0, k as int), cols[k as int], pred);
                assert(cols.subrange(0, k as int).push(cols[k as int])
                    =~= cols.subrange(0, k + 1));
            }
            let field = self.all_info_columns[k];
            if field.show {
                headers.push(field.column.as_str());
                proof {
                    let visk1 = cols.subrange(0, k + 1).filter(pred);
                    assert(visk1 == visk.push(cols[k as int]));
                    assert((headers@[visk.len() as int])@
                        == visk1[visk.len() as int].column.label());
                }
            } else {
                proof {
                    assert(cols.subrange(0, k + 1).filter(pred) == visk);
                }
            }
            k = k + 1;
        }
        proof {
            assert(cols.subrange(0, cols.len() as int) =~= cols);
        }
        (headers, rows)
    }
}

/// The display text of one cell of the job table.
pub open spec fn cell_text(t: Torrent, f: ColumnField) -> Seq<char> {
    match f {
        ColumnField::Name => t.name@,
        ColumnField::Id => crate::conversion::int_str(t.id as int),
        ColumnField::Eta => crate::conversion::secs_text(t.eta as int),
        ColumnField::Status => crate::conversion::status_text(t.status as int),
        ColumnField::Progress => crate::conversion::status_percent_text(t),
        ColumnField::DownloadRate => crate::conversion::rate_text(t.rate_download as int),
        ColumnField::UploadRate => crate::conversion::rate_text(t.rate_upload as int),
        ColumnField::UploadRatio => crate::conversion::ratio_text(t.upload_ratio as int),
        ColumnField::DoneDate => crate::conversion::date_text(t.done_date as int),
        ColumnField::AddedDate => crate::conversion::date_text(t.added_date as int),
    }
}

} // verus!
