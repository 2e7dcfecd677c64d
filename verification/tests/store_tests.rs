use spoiler::app::{ColumnField, SessionStats, Torrent, TorrentFile};
use spoiler::sort::sort_torrents;
use spoiler::store::{Snapshot, StateStore};

fn job(id: i64, name: &str, status: i64) -> Torrent {
    Torrent {
        id,
        name: name.to_string(),
        status,
        percent_done: 0,
        recheck_progress: 0,
        eta: -1,
        rate_download: 0,
        rate_upload: 0,
        upload_ratio: 0,
        done_date: 0,
        added_date: 0,
        total_size: 0,
        download_dir: "/downloads".to_string(),
        files: Vec::<TorrentFile>::new(),
    }
}

fn stats() -> SessionStats {
    SessionStats { download_speed: 10, upload_speed: 20, downloaded_bytes: 30, uploaded_bytes: 40 }
}

#[test]
fn a_new_store_is_empty_and_sorted_by_name() {
    let store = StateStore::new();
    assert_eq!(store.read().torrents.len(), 0);
    assert!(store.read().stats.is_none());
    assert!(matches!(store.sort_column, ColumnField::Name));
    assert!(store.sort_descending);
}

#[test]
fn refresh_publishes_the_fetched_snapshot_sorted() {
    let mut store = StateStore::new();
    let fetched = Snapshot {
        torrents: vec![job(2, "beta", 4), job(1, "alpha", 0), job(3, "gamma", 6)],
        stats: Some(stats()),
    };
    store.refresh(Ok(fetched));
    let names: Vec<&str> =
        store.read().torrents.iter().map(|t| t.name.as_str()).collect();
    assert_eq!(names, vec!["alpha", "beta", "gamma"]);
    assert_eq!(store.read().stats, Some(stats()));
}

#[test]
fn a_failed_fetch_keeps_the_last_known_good_snapshot() {
    let mut store = StateStore::new();
    store.refresh(Ok(Snapshot { torrents: vec![job(1, "alpha", 0)], stats: Some(stats()) }));
    store.refresh(Err("daemon unreachable".to_string()));
    assert_eq!(store.read().torrents.len(), 1);
    assert_eq!(store.read().torrents[0].name, "alpha");
    assert_eq!(store.read().stats, Some(stats()));
}

#[test]
fn set_sort_takes_effect_only_on_the_next_refresh() {
    let mut store = StateStore::new();
    store.refresh(Ok(Snapshot {
        torrents: vec![job(2, "beta", 4), job(1, "alpha", 0)],
        stats: None,
    }));
    store.set_sort(ColumnField::Id, false);
    // The published snapshot keeps its old, name-sorted order.
    assert_eq!(store.read().torrents[0].name, "alpha");
    assert_eq!(store.read().torrents[1].name, "beta");
    // The next refresh applies the new order: by id, reversed.
    store.refresh(Ok(Snapshot {
        torrents: vec![job(2, "beta", 4), job(1, "alpha", 0)],
        stats: None,
    }));
    assert_eq!(store.read().torrents[0].id, 2);
    assert_eq!(store.read().torrents[1].id, 1);
}

#[test]
fn sort_is_stable_for_equal_keys() {
    // Three jobs share a status; sorting by status keeps their input order.
    let jobs = vec![job(3, "c", 4), job(1, "a", 4), job(2, "b", 0), job(4, "d", 4)];
    let sorted = sort_torrents(jobs, ColumnField::Status, true);
    let ids: Vec<i64> = sorted.iter().map(|t| t.id).collect();
    assert_eq!(ids, vec![2, 3, 1, 4]);
}

#[test]
fn direction_reverses_the_whole_order() {
    let jobs = vec![job(3, "c", 4), job(1, "a", 4), job(2, "b", 0)];
    let ascending = sort_torrents(jobs.clone(), ColumnField::Status, true);
    let reversed = sort_torrents(jobs, ColumnField::Status, false);
    let a: Vec<i64> = ascending.iter().map(|t| t.id).collect();
    let mut r: Vec<i64> = reversed.iter().map(|t| t.id).collect();
    r.reverse();
    assert_eq!(a, r);
}
