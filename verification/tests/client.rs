use anawt::client::SaveProgress;
use anawt::{InfoHash, TorrentClientInner};

type Client = TorrentClientInner<u32, &'static str, &'static str, u8>;

fn v1(b: u8) -> InfoHash {
    InfoHash::V1([b; 20])
}

fn v2(b: u8) -> InfoHash {
    InfoHash::V2([b; 32])
}

#[test]
fn new_client_knows_no_torrent() {
    let c = Client::new();
    assert!(c.get(&v1(1)).is_none());
    assert!(c.currently_saving().is_none());
    assert_eq!(c.pending_save_count(), 0);
    assert!(c.torrent_handles().is_empty());
}

#[test]
fn added_torrent_is_found_with_its_status() {
    let mut c = Client::new();
    c.add_torrent(v1(1), "first");
    c.add_torrent(v2(2), "second");
    let e = c.get(&v1(1)).unwrap();
    assert_eq!(e.status, "first");
    assert!(e.handle.is_none());
    assert_eq!(c.get(&v2(2)).unwrap().status, "second");
    assert!(c.get(&v2(1)).is_none());
    assert!(c.get(&v1(2)).is_none());
}

#[test]
fn adding_a_known_torrent_replaces_its_entry() {
    let mut c = Client::new();
    c.add_torrent(v1(1), "old");
    assert!(c.handle_add_torrent(v1(1), 5).is_none());
    assert_eq!(c.handle_count(), 1);
    c.add_torrent(v1(1), "new");
    let e = c.get(&v1(1)).unwrap();
    assert_eq!(e.status, "new");
    assert!(e.handle.is_none());
    assert_eq!(c.handle_count(), 0);
    assert!(c.torrent_handles().is_empty());
}

#[test]
fn versions_of_equal_bytes_differ() {
    assert_ne!(InfoHash::V1([0; 20]), InfoHash::V2([0; 32]));
    assert_eq!(v2(3), v2(3));
    let mut a = [7u8; 20];
    a[19] = 8;
    assert_ne!(InfoHash::V1(a), v1(7));
}

#[test]
fn added_handle_is_attached_to_its_torrent_only() {
    let mut c = Client::new();
    c.add_torrent(v1(1), "a");
    c.add_torrent(v1(2), "b");
    c.add_torrent(v1(3), "c");
    assert!(c.handle_add_torrent(v1(3), 30).is_none());
    assert!(c.handle_add_torrent(v1(1), 10).is_none());
    // A handle for an unknown torrent is dropped.
    assert!(c.handle_add_torrent(v1(9), 90).is_none());
    assert_eq!(c.get(&v1(1)).unwrap().handle, Some(10));
    assert_eq!(c.get(&v1(1)).unwrap().status, "a");
    assert_eq!(c.get(&v1(2)).unwrap().handle, None);
    assert_eq!(c.get(&v1(3)).unwrap().handle, Some(30));
    assert!(c.get(&v1(9)).is_none());
    let handles: Vec<u32> = c.torrent_handles().into_iter().copied().collect();
    assert_eq!(handles, vec![10, 30]);
}

fn client_with_handles(n: u8) -> Client {
    let mut c = Client::new();
    for b in 0..n {
        c.add_torrent(v1(b), "t");
        assert!(c.handle_add_torrent(v1(b), b as u32).is_none());
    }
    c
}

#[test]
fn save_finishes_at_the_last_torrent() {
    let mut c = client_with_handles(3);
    let start = c.request_save("dir");
    assert!(start.started);
    assert!(start.finished.is_empty());
    assert_eq!(c.currently_saving(), Some(&"dir"));
    assert_eq!(c.pending_save_count(), 3);
    assert!(matches!(c.handle_save_resume_data().progress, SaveProgress::Awaiting));
    assert_eq!(c.pending_save_count(), 2);
    assert!(matches!(c.handle_save_resume_data().progress, SaveProgress::Awaiting));
    match c.handle_save_resume_data().progress {
        SaveProgress::Finished { request, succeeded } => {
            assert_eq!(request, "dir");
            assert!(succeeded);
        }
        _ => panic!("the third alert finishes the request"),
    }
    assert!(c.currently_saving().is_none());
    assert_eq!(c.pending_save_count(), 0);
    assert!(matches!(c.handle_save_resume_data().progress, SaveProgress::NoSaveInProgress));
    assert_eq!(c.pending_save_count(), 0);
}

#[test]
fn second_save_request_waits_for_the_first() {
    let mut c = client_with_handles(2);
    let first = c.request_save("first");
    assert!(first.started);
    assert!(matches!(c.handle_save_resume_data().progress, SaveProgress::Awaiting));
    let second = c.request_save("second");
    assert!(!second.started);
    assert!(second.finished.is_empty());
    assert_eq!(c.currently_saving(), Some(&"first"));
    assert_eq!(c.pending_save_count(), 1);
    let outcome = c.handle_save_resume_data();
    match outcome.progress {
        SaveProgress::Finished { request, succeeded } => {
            assert_eq!(request, "first");
            assert!(succeeded);
        }
        _ => panic!("the first request is answered first"),
    }
    // The same alert starts the second request.
    assert!(outcome.next.started);
    assert!(outcome.next.finished.is_empty());
    assert_eq!(c.currently_saving(), Some(&"second"));
    assert_eq!(c.pending_save_count(), 2);
    assert!(matches!(c.handle_save_resume_data().progress, SaveProgress::Awaiting));
    let last = c.handle_save_resume_data();
    match last.progress {
        SaveProgress::Finished { request, succeeded } => {
            assert_eq!(request, "second");
            assert!(succeeded);
        }
        _ => panic!("the second request is answered after its alerts"),
    }
    assert!(!last.next.started);
    assert!(last.next.finished.is_empty());
    assert!(c.currently_saving().is_none());
}

#[test]
fn three_requests_are_answered_in_arrival_order() {
    let mut c = client_with_handles(1);
    assert!(c.request_save("a").started);
    assert!(!c.request_save("b").started);
    assert!(!c.request_save("c").started);
    let mut answered = Vec::new();
    for _ in 0..3 {
        let outcome = c.handle_save_resume_data();
        if let SaveProgress::Finished { request, .. } = outcome.progress {
            answered.push(request);
        }
        answered.extend(outcome.next.finished);
    }
    assert_eq!(answered, vec!["a", "b", "c"]);
    assert!(c.currently_saving().is_none());
}

#[test]
fn try_pop_without_request_changes_nothing() {
    let mut c = client_with_handles(1);
    let start = c.try_pop_save_request();
    assert!(!start.started);
    assert!(start.finished.is_empty());
    assert!(c.currently_saving().is_none());
    assert_eq!(c.pending_save_count(), 0);
}

#[test]
fn save_with_no_torrent_is_answered_at_once() {
    let mut c = Client::new();
    let start = c.request_save("dir");
    assert!(!start.started);
    assert_eq!(start.finished, vec!["dir"]);
    assert!(c.currently_saving().is_none());
    assert_eq!(c.pending_save_count(), 0);
}

#[test]
fn torrents_without_handle_are_not_awaited() {
    let mut c = Client::new();
    c.add_torrent(v1(1), "with handle");
    c.add_torrent(v1(2), "no handle yet");
    assert!(c.handle_add_torrent(v1(1), 10).is_none());
    let start = c.request_save("dir");
    assert!(start.started);
    assert_eq!(c.pending_save_count(), 1);
    let handles: Vec<u32> = c.torrent_handles().into_iter().copied().collect();
    assert_eq!(handles, vec![10]);
    match c.handle_save_resume_data().progress {
        SaveProgress::Finished { request, succeeded } => {
            assert_eq!(request, "dir");
            assert!(succeeded);
        }
        _ => panic!("only the torrent with a handle is awaited"),
    }
}

#[test]
fn queued_requests_with_nothing_to_await_are_answered_together() {
    let mut c = client_with_handles(1);
    assert!(c.request_save("first").started);
    assert!(!c.request_save("second").started);
    assert!(!c.request_save("third").started);
    // The only handle goes away: its torrent is registered anew.
    c.add_torrent(v1(0), "t");
    let outcome = c.handle_save_resume_data();
    assert!(matches!(
        outcome.progress,
        SaveProgress::Finished { request: "first", succeeded: true }
    ));
    assert!(!outcome.next.started);
    assert_eq!(outcome.next.finished, vec!["second", "third"]);
    assert!(c.currently_saving().is_none());
}

#[test]
fn failed_save_answers_the_request_unsuccessfully() {
    let mut c = client_with_handles(2);
    assert!(c.request_save("dir").started);
    assert!(matches!(c.handle_save_resume_data_failed().progress, SaveProgress::Awaiting));
    assert_eq!(c.pending_save_count(), 1);
    assert_eq!(c.currently_saving(), Some(&"dir"));
    match c.handle_save_resume_data().progress {
        SaveProgress::Finished { request, succeeded } => {
            assert_eq!(request, "dir");
            assert!(!succeeded);
        }
        _ => panic!("the last alert finishes the request"),
    }
    // A failure with nothing in progress changes nothing.
    assert!(matches!(c.handle_save_resume_data_failed().progress, SaveProgress::NoSaveInProgress));
    assert_eq!(c.pending_save_count(), 0);
}

#[test]
fn next_request_after_a_failure_starts_clean() {
    let mut c = client_with_handles(1);
    assert!(c.request_save("first").started);
    assert!(!c.request_save("second").started);
    let outcome = c.handle_save_resume_data_failed();
    assert!(matches!(
        outcome.progress,
        SaveProgress::Finished { request: "first", succeeded: false }
    ));
    assert!(outcome.next.started);
    assert_eq!(c.currently_saving(), Some(&"second"));
    assert!(matches!(
        c.handle_save_resume_data().progress,
        SaveProgress::Finished { request: "second", succeeded: true }
    ));
}

#[test]
fn entries_compare_by_info_hash() {
    let a = anawt::TorrentEntry { info_hash: v1(1), handle: Some(1u32), status: "x" };
    let b = anawt::TorrentEntry { info_hash: v1(1), handle: None, status: "y" };
    let c = anawt::TorrentEntry { info_hash: v1(2), handle: Some(1u32), status: "x" };
    assert!(a == b);
    assert!(a != c);
}
