use log_viewer::grabber::{DeleteResult, FileSpecifier, LogGrabber};
use log_viewer::text::{chars_of, string_of};
use log_viewer::viewer::{LogViewer, OnDownloadAction, Tab};

fn file(name: &str, size: u64) -> FileSpecifier {
    FileSpecifier { name: name.to_string(), size }
}

#[test]
fn cache_read_after_write() {
    let mut g = LogGrabber::new();
    let a = "a.log".to_string();
    assert!(g.cached_log(&a).is_none());
    g.cache_log(a.clone(), "first".to_string());
    assert_eq!(g.cached_log(&a), Some("first".to_string()));
    g.cache_log(a.clone(), "second".to_string());
    assert_eq!(g.cached_log(&a), Some("second".to_string()));
    g.cache_log("b.log".to_string(), "other".to_string());
    assert_eq!(g.cached_log(&a), Some("second".to_string()));
    assert_eq!(g.cached_log(&"b.log".to_string()), Some("other".to_string()));
}

#[test]
fn cache_list_and_clear() {
    let mut g = LogGrabber::new();
    assert!(g.cached_list().is_none());
    g.cache_list(vec![file("x.log", 10), file("y.log", 20)], "ignored".to_string());
    let l = g.cached_list().unwrap();
    assert_eq!(l.len(), 2);
    assert_eq!((l[1].name.as_str(), l[1].size), ("y.log", 20));
    g.cache_log("x.log".to_string(), "text".to_string());
    g.clear_caches();
    assert!(g.cached_list().is_none());
    assert!(g.cached_log(&"x.log".to_string()).is_none());
}

#[test]
fn delete_reply() {
    assert!(DeleteResult::Success { success: true }.succeeded());
    assert!(DeleteResult::Success { success: false }.succeeded());
    assert!(!DeleteResult::Error { error: "gone".to_string() }.succeeded());
}

#[test]
fn viewer_starts_empty() {
    let v = LogViewer::new();
    assert!(v.loaded_log().is_none());
    assert!(v.log_list().is_none());
    assert_eq!(v.tab(), Tab::LogLoader);
    assert!(v.is_selected(Tab::LogLoader));
    assert!(!v.is_selected(Tab::GraphViewer));
}

#[test]
fn viewer_logic_download_wins() {
    let mut v = LogViewer::new();
    v.logic(
        Some("[0] a | String : from file".to_string()),
        Some("[0] b | String : from robot\n[1] c | String : more".to_string()),
        None,
        None,
    );
    let log = v.loaded_log().unwrap();
    assert_eq!(log.entries().len(), 2);
    assert_eq!(log.entries()[0].get_name(), "b");
}

#[test]
fn viewer_logic_upload_alone() {
    let mut v = LogViewer::new();
    v.logic(Some("[0] a | String : x".to_string()), None, None, None);
    assert_eq!(v.loaded_log().unwrap().entries()[0].get_name(), "a");
    v.logic(None, None, None, None);
    assert_eq!(v.loaded_log().unwrap().entries().len(), 1);
}

#[test]
fn viewer_logic_list_and_delete() {
    let mut v = LogViewer::new();
    v.logic(None, None, Some(vec![file("a.log", 1)]), None);
    assert_eq!(v.log_list().unwrap().len(), 1);
    v.logic(None, None, None, Some(false));
    assert!(v.log_list().is_some());
    v.logic(None, None, Some(vec![file("b.log", 2)]), Some(true));
    assert!(v.log_list().is_none());
}

#[test]
fn viewer_tabs() {
    let mut v = LogViewer::new();
    v.select_tab(Tab::FieldViewer);
    assert_eq!(v.tab(), Tab::FieldViewer);
    assert!(v.is_selected(Tab::FieldViewer));
}

#[test]
fn download_actions_compare() {
    assert_eq!(OnDownloadAction::Load, OnDownloadAction::Load);
    assert_ne!(OnDownloadAction::Load, OnDownloadAction::Save);
}

#[test]
fn string_of_pushes_every_char() {
    let v = chars_of("héllo, wörld");
    assert_eq!(string_of(&v, 0, v.len()), "héllo, wörld");
    assert_eq!(string_of(&v, 1, 4), "éll");
}
