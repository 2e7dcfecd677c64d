use spoiler::app::{App, ColumnField, Torrent, TorrentFile};
use spoiler::store::Snapshot;

fn job(id: i64, name: &str) -> Torrent {
    Torrent {
        id,
        name: name.to_string(),
        status: 4,
        percent_done: 453,
        recheck_progress: 0,
        eta: 61,
        rate_download: 1500,
        rate_upload: 999,
        upload_ratio: 123,
        done_date: 0,
        added_date: 86400,
        total_size: 2_000_000,
        download_dir: "/downloads".to_string(),
        files: Vec::<TorrentFile>::new(),
    }
}

#[test]
fn column_labels() {
    assert_eq!(ColumnField::Name.as_str(), "Name");
    assert_eq!(ColumnField::Status.as_str(), "Status");
    assert_eq!(ColumnField::Id.as_str(), "Id");
    assert_eq!(ColumnField::Progress.as_str(), "Progress");
    assert_eq!(ColumnField::Eta.as_str(), "Eta");
    assert_eq!(ColumnField::DownloadRate.as_str(), "Down Speed");
    assert_eq!(ColumnField::UploadRate.as_str(), "Up Speed");
    assert_eq!(ColumnField::UploadRatio.as_str(), "Ratio");
    assert_eq!(ColumnField::DoneDate.as_str(), "Date Done");
    assert_eq!(ColumnField::AddedDate.as_str(), "Date Added");
}

#[test]
fn rows_show_the_visible_columns_in_order() {
    let mut app = App::new();
    app.refresh(Ok(Snapshot { torrents: vec![job(5, "alpha")], stats: None }));
    let (headers, rows) = app.get_torrent_rows();
    assert_eq!(
        headers,
        vec!["Name", "Status", "Progress", "Down Speed", "Up Speed", "Ratio"]
    );
    assert_eq!(rows.len(), 1);
    assert_eq!(
        rows[0],
        vec!["alpha", "Downloading", "45.3 %", "1.50 KB/s", "999 B/s", "1.23"]
    );
}

#[test]
fn an_empty_job_list_renders_no_rows() {
    let app = App::new();
    let (headers, rows) = app.get_torrent_rows();
    assert_eq!(headers.len(), 6);
    assert_eq!(rows.len(), 0);
}

#[test]
fn toggling_a_column_changes_the_rendered_set() {
    let mut app = App::new();
    app.refresh(Ok(Snapshot { torrents: vec![job(5, "alpha")], stats: None }));
    // The highlighted column starts at Name; hide it.
    app.toggle_show_column();
    let (headers, rows) = app.get_torrent_rows();
    assert_eq!(headers, vec!["Status", "Progress", "Down Speed", "Up Speed", "Ratio"]);
    assert_eq!(rows[0].len(), 5);
}

#[test]
fn column_reordering_swaps_neighbours() {
    let mut app = App::new();
    // Move the first column down: Name and Status swap.
    app.move_column_down();
    assert!(matches!(app.all_info_columns[0].column, ColumnField::Status));
    assert!(matches!(app.all_info_columns[1].column, ColumnField::Name));
    // The highlighted index is still 0, so moving up wraps to the end.
    app.move_column_up();
    assert!(matches!(app.all_info_columns[9].column, ColumnField::Status));
    assert!(matches!(app.all_info_columns[0].column, ColumnField::Id));
}

#[test]
fn refresh_clamps_a_stale_selection() {
    let mut app = App::new();
    app.refresh(Ok(Snapshot {
        torrents: vec![job(1, "a"), job(2, "b"), job(3, "c")],
        stats: None,
    }));
    app.next();
    app.next();
    assert_eq!(app.selected_torrent, Some(2));
    // The daemon now reports fewer jobs: the selection falls back to the
    // first row instead of pointing past the end.
    app.refresh(Ok(Snapshot { torrents: vec![job(1, "a")], stats: None }));
    assert_eq!(app.selected_torrent, Some(0));
}

#[test]
fn tab_cycling_wraps_over_three_tabs() {
    let mut app = App::new();
    assert_eq!(app.selected_tab, 0);
    app.next_tab();
    app.next_tab();
    assert_eq!(app.selected_tab, 2);
    app.next_tab();
    assert_eq!(app.selected_tab, 0);
    app.previous_tab();
    assert_eq!(app.selected_tab, 2);
}

#[test]
fn candidate_file_selection_wraps() {
    let mut app = App::new();
    app.set_torrent_files(vec!["x.torrent".to_string(), "y.torrent".to_string()]);
    assert_eq!(app.selected_torrent_file, Some(0));
    app.next_torrent_file();
    assert_eq!(app.selected_torrent_file, Some(1));
    app.next_torrent_file();
    assert_eq!(app.selected_torrent_file, Some(0));
    app.previous_torrent_file();
    assert_eq!(app.selected_torrent_file, Some(1));
}
