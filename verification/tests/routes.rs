use static_site::index_path;
use static_site::index_response;
use static_site::not_found;
use static_site::resolve_static;
use static_site::static_response;

fn segs(parts: &[&str]) -> Vec<String> {
    parts.iter().map(|p| p.to_string()).collect()
}

#[test]
fn index_present() {
    let r = index_response(Some(b"<h1>hi</h1>".to_vec()));
    assert_eq!(r.status, 200);
    assert_eq!(r.body, b"<h1>hi</h1>".to_vec());
    assert_eq!(r.content_type, Some("text/html; charset=utf-8".to_string()));
}

#[test]
fn index_absent() {
    let r = index_response(None);
    assert_eq!(r.status, 404);
    assert!(r.body.is_empty());
    assert_eq!(r.content_type, None);
}

#[test]
fn index_path_is_fixed() {
    assert_eq!(index_path(), "static/index.html".to_string());
}

#[test]
fn resolve_joins_beneath_base() {
    let r = resolve_static(&segs(&["css", "a.css"]));
    assert_eq!(r, Some("static/css/a.css".to_string()));
}

#[test]
fn resolve_single_segment() {
    let r = resolve_static(&segs(&["missing.txt"]));
    assert_eq!(r, Some("static/missing.txt".to_string()));
}

#[test]
fn resolve_no_segments() {
    let r = resolve_static(&segs(&[]));
    assert_eq!(r, Some("static".to_string()));
}

#[test]
fn resolve_rejects_leading_parent() {
    let r = resolve_static(&segs(&["..", "main.rs"]));
    assert_eq!(r, None);
}

#[test]
fn resolve_rejects_inner_parent() {
    let r = resolve_static(&segs(&["a", "..", "b.txt"]));
    assert_eq!(r, None);
}

#[test]
fn resolve_rejects_separator_in_segment() {
    let r = resolve_static(&segs(&["a/../..", "b.txt"]));
    assert_eq!(r, None);
}

#[test]
fn resolve_keeps_dotted_names() {
    let r = resolve_static(&segs(&["...", ".gitignore"]));
    assert_eq!(r, Some("static/.../.gitignore".to_string()));
}

#[test]
fn served_file_keeps_bytes() {
    let r = static_response("static/css/a.css", Some(b"body{}".to_vec()));
    assert_eq!(r.status, 200);
    assert_eq!(r.body, b"body{}".to_vec());
    assert_eq!(r.content_type, Some("text/css; charset=utf-8".to_string()));
}

#[test]
fn served_javascript_media_type() {
    let r = static_response("static/app.js", Some(b"alert(1)".to_vec()));
    assert_eq!(r.status, 200);
    assert_eq!(r.content_type, Some("text/javascript".to_string()));
}

#[test]
fn served_extension_case_insensitive() {
    let r = static_response("static/A.HTML", Some(b"x".to_vec()));
    assert_eq!(r.content_type, Some("text/html; charset=utf-8".to_string()));
}

#[test]
fn served_unknown_extension_has_no_media_type() {
    let r = static_response("static/a.xyzzy", Some(b"x".to_vec()));
    assert_eq!(r.status, 200);
    assert_eq!(r.content_type, None);
}

#[test]
fn served_name_without_extension_has_no_media_type() {
    let r = static_response("static/README", Some(b"x".to_vec()));
    assert_eq!(r.status, 200);
    assert_eq!(r.content_type, None);
}

#[test]
fn missing_file_is_not_found() {
    let r = static_response("static/missing.txt", None);
    assert_eq!(r.status, 404);
    assert!(r.body.is_empty());
    assert_eq!(r.content_type, None);
}

#[test]
fn directory_read_is_not_found_not_a_listing() {
    let r = static_response("static/css", None);
    assert_eq!(r.status, 404);
    assert!(r.body.is_empty());
    assert_eq!(r.content_type, None);
}

#[test]
fn not_found_is_bare() {
    let r = not_found();
    assert_eq!(r.status, 404);
    assert!(r.body.is_empty());
    assert_eq!(r.content_type, None);
}

#[test]
fn repeated_requests_get_identical_responses() {
    let one = index_response(Some(b"<h1>hi</h1>".to_vec()));
    let two = index_response(Some(b"<h1>hi</h1>".to_vec()));
    assert_eq!(one, two);

    let p1 = resolve_static(&segs(&["css", "a.css"]));
    let p2 = resolve_static(&segs(&["css", "a.css"]));
    assert_eq!(p1, p2);

    let r1 = static_response("static/css/a.css", Some(b"body{}".to_vec()));
    let r2 = static_response("static/css/a.css", Some(b"body{}".to_vec()));
    assert_eq!(r1, r2);
}
