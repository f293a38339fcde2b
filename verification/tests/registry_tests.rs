use media_registry::media::{MediaFile, MediaMetadata, MediaStatus};
use media_registry::registry::{MediaManager, ProxyResolution};

fn test_manager() -> MediaManager {
    MediaManager::new(String::from("/tmp/proxies"))
}

#[test]
fn import_returns_fresh_distinct_ids() {
    let mut m = test_manager();
    let id1 = m.import_media(String::from("/media/a.mp4")).unwrap();
    let id2 = m.import_media(String::from("/media/b.mp4")).unwrap();
    assert_eq!(id1.len(), 36);
    assert_eq!(id2.len(), 36);
    assert_ne!(id1, id2);
}

#[test]
fn imported_record_is_visible_and_importing() {
    let mut m = test_manager();
    let id = m.import_media(String::from("/media/a.mp4")).unwrap();
    let rec = m.get_media(&id).expect("record should be visible");
    assert_eq!(rec.id, id);
    assert_eq!(rec.original_path, "/media/a.mp4");
    assert!(matches!(rec.status, MediaStatus::Importing));
    assert!(rec.proxy_path.is_none());
}

#[test]
fn list_holds_exactly_imported_minus_removed() {
    let mut m = test_manager();
    let id1 = m.import_media(String::from("/media/a.mp4")).unwrap();
    let id2 = m.import_media(String::from("/media/b.mp4")).unwrap();
    let id3 = m.import_media(String::from("/media/c.mp4")).unwrap();
    m.remove_media(&id2);
    let listed = m.list_media();
    let mut ids: Vec<String> = listed.iter().map(|r| r.id.clone()).collect();
    ids.sort();
    let mut expected = vec![id1, id3];
    expected.sort();
    assert_eq!(ids, expected);
    assert!(m.get_media(&id2).is_none());
}

#[test]
fn remove_is_idempotent() {
    let mut m = test_manager();
    let id = m.import_media(String::from("/media/a.mp4")).unwrap();
    let first = m.remove_media(&id);
    assert!(first.is_none());
    let second = m.remove_media(&id);
    assert!(second.is_none());
    assert!(m.get_media(&id).is_none());
}

#[test]
fn remove_of_absent_id_succeeds() {
    let mut m = test_manager();
    let r = m.remove_media("no-such-id");
    assert!(r.is_none());
}

#[test]
fn remove_hands_back_proxy_path_and_get_sees_nothing() {
    let mut m = test_manager();
    let id = m.import_media(String::from("/media/a.mp4")).unwrap();
    let mut rec = m.get_media(&id).unwrap();
    rec.mark_generating_proxy();
    rec.mark_ready(String::from("/tmp/proxies/a_proxy.mp4"));
    m.commit_media(rec);
    let path = m.remove_media(&id);
    assert_eq!(path.as_deref(), Some("/tmp/proxies/a_proxy.mp4"));
    assert!(m.get_media(&id).is_none());
    assert!(m.list_media().is_empty());
}

#[test]
fn commit_after_remove_does_not_resurrect() {
    let mut m = test_manager();
    let id = m.import_media(String::from("/media/a.mp4")).unwrap();
    let mut rec = m.get_media(&id).unwrap();
    m.remove_media(&id);
    rec.mark_generating_proxy();
    rec.mark_ready(String::from("/tmp/proxies/a_proxy.mp4"));
    m.commit_media(rec);
    assert!(m.get_media(&id).is_none());
    assert!(m.list_media().is_empty());
}

#[test]
fn commit_replaces_whole_record() {
    let mut m = test_manager();
    let id = m.import_media(String::from("/media/a.mp4")).unwrap();
    let mut rec = m.get_media(&id).unwrap();
    rec.load_metadata(MediaMetadata {
        duration_ms: Some(10000),
        width: Some(1920),
        height: Some(1080),
        fps: None,
        codec: Some(String::from("h264")),
    });
    rec.mark_generating_proxy();
    m.commit_media(rec);
    let seen = m.get_media(&id).unwrap();
    assert!(matches!(seen.status, MediaStatus::GeneratingProxy));
    assert_eq!(seen.metadata.width, Some(1920));
    assert_eq!(seen.metadata.height, Some(1080));
    assert_eq!(seen.metadata.duration_ms, Some(10000));
}

#[test]
fn ready_record_has_proxy_path_error_record_has_none() {
    let mut rec = MediaFile::new(String::from("/media/a.mp4"));
    rec.mark_generating_proxy();
    rec.mark_ready(String::from("/tmp/proxies/p.mp4"));
    assert!(matches!(rec.status, MediaStatus::Ready));
    assert!(rec.proxy_path.is_some());

    let mut failed = MediaFile::new(String::from("/media/b.mp4"));
    failed.mark_error(String::from("probe failed"));
    match &failed.status {
        MediaStatus::Error(reason) => assert!(!reason.is_empty()),
        other => panic!("unexpected status {:?}", other),
    }
    assert!(failed.proxy_path.is_none());
}

#[test]
fn register_rejects_a_seen_identifier() {
    let mut m = test_manager();
    let rec = MediaFile::new(String::from("/media/a.mp4"));
    let dup = rec.clone();
    assert!(m.register_import(rec).is_ok());
    let err = m.register_import(dup).unwrap_err();
    assert_eq!(err, "generated identifier was already in use");
}

#[test]
fn commit_never_leaves_a_terminal_state() {
    let mut m = test_manager();
    let id = m.import_media(String::from("/media/a.mp4")).unwrap();
    let mut rec = m.get_media(&id).unwrap();
    let stale = rec.clone();
    rec.mark_generating_proxy();
    rec.mark_ready(String::from("/tmp/proxies/a_proxy.mp4"));
    m.commit_media(rec);
    m.commit_media(stale);
    let seen = m.get_media(&id).unwrap();
    assert!(matches!(seen.status, MediaStatus::Ready));
    assert_eq!(seen.proxy_path.as_deref(), Some("/tmp/proxies/a_proxy.mp4"));
}

#[test]
fn update_proxy_settings_rejects_bogus_resolution() {
    let mut m = test_manager();
    let id = m.import_media(String::from("/media/a.mp4")).unwrap();
    let r = m.update_proxy_settings("bogus", String::from("h265"), 30);
    assert_eq!(r.unwrap_err(), "Invalid resolution");
    let s = m.settings();
    assert!(matches!(s.resolution, ProxyResolution::Half));
    assert_eq!(s.codec, "h264");
    assert_eq!(s.quality, 23);
    assert!(m.get_media(&id).is_some());
}

#[test]
fn update_proxy_settings_accepts_half_and_quarter() {
    let mut m = test_manager();
    m.update_proxy_settings("quarter", String::from("h265"), 30).unwrap();
    let s = m.settings();
    assert!(matches!(s.resolution, ProxyResolution::Quarter));
    assert_eq!(s.codec, "h265");
    assert_eq!(s.quality, 30);
    m.update_proxy_settings("half", String::from("h264"), 23).unwrap();
    assert!(matches!(m.settings().resolution, ProxyResolution::Half));
}
