use moq_pure::tls::config::Config;
use moq_pure::web::logs::{path_starts_with, LogKind, LogRequest, Refusal};
use moq_pure::web::site::{serve_fingerprint, Method, Route, Web, WebConfig};
use std::path::PathBuf;

fn config(qlog: Option<&str>, mlog: Option<&str>) -> WebConfig<u16, (), u8> {
    WebConfig {
        bind: 4443,
        tls: Config {
            client: (),
            server: Some(9),
            fingerprints: vec!["ab12".to_string(), "cd34".to_string()],
        },
        qlog_dir: qlog.map(PathBuf::from),
        mlog_dir: mlog.map(PathBuf::from),
    }
}

fn path(text: &str) -> Vec<Vec<u8>> {
    text.split('/').map(|part| part.as_bytes().to_vec()).collect()
}

fn refusal<T>(answer: Result<T, Refusal>) -> (u16, String) {
    match answer {
        Ok(_) => panic!("the request is refused"),
        Err(refusal) => (refusal.status, refusal.body),
    }
}

#[test]
fn the_helper_serves_the_first_fingerprint() {
    let web = Web::new(config(None, None));
    assert_eq!(serve_fingerprint(&web.state), "ab12");
    assert_eq!(web.bind, 4443);
    assert_eq!(web.tls, 9);
    assert_eq!(web.alpn_protocols, vec![b"h2".to_vec(), b"http/1.1".to_vec()]);
    assert!(web.cors.any_origin);
    assert_eq!(web.cors.methods, [Method::Get]);
}

#[test]
fn logs_are_served_where_they_are_kept() {
    assert_eq!(Web::new(config(None, None)).routes, [Route::Fingerprint]);
    let web = Web::new(config(Some("q"), None));
    assert_eq!(web.routes, [Route::Fingerprint, Route::Qlog]);
    assert_eq!(web.state.qlog_dir, Some(PathBuf::from("q")));
    assert_eq!(web.state.mlog_dir, None);
    assert_eq!(Web::new(config(None, Some("m"))).routes, [Route::Fingerprint, Route::Mlog]);
    let web = Web::new(config(Some("q"), Some("m")));
    assert_eq!(web.routes, [Route::Fingerprint, Route::Qlog, Route::Mlog]);
    assert_eq!(web.state.mlog_dir, Some(PathBuf::from("m")));
}

#[test]
fn routes_have_paths() {
    assert_eq!(Route::Fingerprint.path(), "/fingerprint");
    assert_eq!(Route::Qlog.path(), "/qlog/:cid");
    assert_eq!(Route::Mlog.path(), "/mlog/:cid");
}

#[test]
fn log_files_are_named_by_the_connection() {
    assert_eq!(LogKind::Qlog.filename("a1b2"), "a1b2_server.qlog");
    assert_eq!(LogKind::Qlog.filename("a1b2_server.qlog"), "a1b2_server.qlog");
    assert_eq!(LogKind::Qlog.filename("_server.qlog"), "_server.qlog");
    assert_eq!(LogKind::Qlog.filename("a1b2_server.mlog"), "a1b2_server.mlog_server.qlog");
    assert_eq!(LogKind::Mlog.filename("a1b2_server.mlog"), "a1b2_server.mlog");
    assert_eq!(LogKind::Mlog.filename(""), "_server.mlog");
    let twice = "a_server.qlog_server.qlog";
    assert_eq!(LogKind::Qlog.filename(twice), twice);
}

#[test]
fn a_log_file_is_served() {
    let request = LogRequest::start(LogKind::Qlog, true, "a1b2").ok().unwrap();
    assert_eq!(request.filename, "a1b2_server.qlog");
    let dir = request.with_dir(Ok(path("/var/log"))).ok().unwrap();
    let file = dir.with_file(Some(path("/var/log/a1b2_server.qlog"))).ok().unwrap();
    assert_eq!(file.file, path("/var/log/a1b2_server.qlog"));
    assert_eq!(file.with_content(Ok(vec![1, 2, 3])).ok().unwrap(), [1, 2, 3]);
}

#[test]
fn requests_for_logs_are_refused() {
    let off = refusal(LogRequest::start(LogKind::Qlog, false, "a"));
    assert_eq!(off, (404, "Qlog serving not enabled".to_string()));
    let off = refusal(LogRequest::start(LogKind::Mlog, false, "a"));
    assert_eq!(off, (404, "Mlog serving not enabled".to_string()));

    let start = |kind: LogKind| LogRequest::start(kind, true, "a").ok().unwrap();
    let gone = "gone".to_string();
    let invalid = refusal(start(LogKind::Qlog).with_dir(Err(gone.clone())));
    assert_eq!(invalid, (500, "Invalid qlog directory: gone".to_string()));
    let invalid = refusal(start(LogKind::Mlog).with_dir(Err(gone.clone())));
    assert_eq!(invalid, (500, "Invalid mlog directory: gone".to_string()));

    let dir = |kind: LogKind| start(kind).with_dir(Ok(path("/var/log"))).ok().unwrap();
    let missing = refusal(dir(LogKind::Qlog).with_file(None));
    assert_eq!(missing, (404, "Qlog file not found: a_server.qlog".to_string()));
    let missing = refusal(dir(LogKind::Mlog).with_file(None));
    assert_eq!(missing, (404, "Mlog file not found: a_server.mlog".to_string()));
    let outside = refusal(dir(LogKind::Qlog).with_file(Some(path("/etc/passwd"))));
    assert_eq!(outside, (403, "Invalid path".to_string()));
    let beside = refusal(dir(LogKind::Qlog).with_file(Some(path("/var/log2/a_server.qlog"))));
    assert_eq!(beside, (403, "Invalid path".to_string()));

    let file = |kind: LogKind| dir(kind).with_file(Some(path("/var/log/a"))).ok().unwrap();
    let unread = refusal(file(LogKind::Qlog).with_content(Err(gone.clone())));
    assert_eq!(unread, (404, "Failed to read qlog file: gone".to_string()));
    let unread = refusal(file(LogKind::Mlog).with_content(Err(gone)));
    assert_eq!(unread, (404, "Failed to read mlog file: gone".to_string()));
}

#[test]
fn paths_start_component_by_component() {
    assert!(path_starts_with(&path("/a/b/c"), &path("/a/b")));
    assert!(path_starts_with(&path("/a/b"), &path("/a/b")));
    assert!(path_starts_with(&path("/a"), &Vec::new()));
    assert!(!path_starts_with(&path("/a"), &path("/a/b")));
    assert!(!path_starts_with(&path("/a/bc"), &path("/a/b")));
}
