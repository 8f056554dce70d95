//! Tests for response serialization: status lines, headers, bodies,
//! lengths, and the escaping of untrusted text in rendered pages.

use holo::config::Config;
use holo::page::Page;
use holo::response::Response;
use holo::status::Status;

fn packet_of(page: Page, coi: bool) -> Vec<u8> {
    let config = Config::try_new(b"/srv".to_vec(), 8080, coi, true, true).unwrap();
    Response::from_page(page).into_packet(&config)
}

fn find_sub(haystack: &[u8], needle: &[u8]) -> Option<usize> {
    if needle.is_empty() || haystack.len() < needle.len() {
        return None;
    }
    (0..=haystack.len() - needle.len()).find(|&i| &haystack[i..i + needle.len()] == needle)
}

fn contains_sub(haystack: &[u8], needle: &[u8]) -> bool {
    find_sub(haystack, needle).is_some()
}

#[test]
fn status_codes_and_reasons() {
    assert_eq!(Status::Okay.code(), 200);
    assert_eq!(Status::Okay.reason(), "OK");
    assert_eq!(Status::MovedPermanently.code(), 301);
    assert_eq!(Status::MovedPermanently.reason(), "Moved Permanently");
    assert_eq!(Status::Forbidden.code(), 403);
    assert_eq!(Status::Forbidden.reason(), "Forbidden");
    assert_eq!(Status::NotFound.code(), 404);
    assert_eq!(Status::NotFound.reason(), "Not Found");
    assert_eq!(Status::InternalServerError.code(), 500);
    assert_eq!(Status::InternalServerError.reason(), "Internal Server Error");
}

#[test]
fn file_packet_exact_bytes() {
    let page = Page::File(Some(b"text/html".to_vec()), b"<h1>hi</h1>".to_vec());
    let packet = packet_of(page, false);
    let expected = b"HTTP/1.1 200 OK\r\n\
        Connection: close\r\n\
        Content-Type: text/html\r\n\
        Content-Length: 11\r\n\
        \r\n\
        <h1>hi</h1>";
    assert_eq!(packet, expected.to_vec());
}

#[test]
fn file_packet_without_media_type() {
    let page = Page::File(None, vec![1u8, 2, 3]);
    let packet = packet_of(page, false);
    assert!(!contains_sub(&packet, b"Content-Type"));
    assert!(contains_sub(&packet, b"Content-Length: 3\r\n"));
    assert_eq!(&packet[packet.len() - 3..], &[1u8, 2, 3]);
}

#[test]
fn empty_file_packet_has_zero_length() {
    let page = Page::File(None, Vec::new());
    let packet = packet_of(page, false);
    assert!(contains_sub(&packet, b"Content-Length: 0\r\n\r\n"));
}

#[test]
fn isolation_headers_when_enabled() {
    let page = Page::File(None, Vec::new());
    let packet = packet_of(page, true);
    let embedder = find_sub(&packet, b"Cross-Origin-Embedder-Policy: require-corp\r\n");
    let opener = find_sub(&packet, b"Cross-Origin-Opener-Policy: same-origin\r\n");
    assert!(embedder.is_some() && opener.is_some());
    assert!(embedder.unwrap() < opener.unwrap());
}

#[test]
fn isolation_headers_absent_when_disabled() {
    let page = Page::File(None, Vec::new());
    let packet = packet_of(page, false);
    assert!(!contains_sub(&packet, b"Cross-Origin"));
}

#[test]
fn redirect_packet() {
    let page = Page::Redirect(b"/docs/".to_vec());
    let packet = packet_of(page, false);
    assert!(packet.starts_with(b"HTTP/1.1 301 Moved Permanently\r\n"));
    assert!(contains_sub(&packet, b"Location: /docs/\r\n"));
    assert!(contains_sub(&packet, b"Content-Type: text/html; charset=utf-8\r\n"));
    assert!(contains_sub(&packet, b"/docs/</a>"));
}

#[test]
fn not_found_packet() {
    let packet = packet_of(Page::Error(Status::NotFound), false);
    assert!(packet.starts_with(b"HTTP/1.1 404 Not Found\r\n"));
    assert!(contains_sub(&packet, b"<title>404 - Not Found</title>"));
    assert!(contains_sub(&packet, b"<p>An error occurred.</p>"));
}

#[test]
fn forbidden_packet() {
    let packet = packet_of(Page::Error(Status::Forbidden), false);
    assert!(packet.starts_with(b"HTTP/1.1 403 Forbidden\r\n"));
    assert!(contains_sub(&packet, b"403 - Forbidden"));
}

#[test]
fn internal_error_packet() {
    let packet = packet_of(Page::Error(Status::InternalServerError), false);
    assert!(packet.starts_with(b"HTTP/1.1 500 Internal Server Error\r\n"));
    assert!(contains_sub(&packet, b"500 - Internal Server Error"));
}

#[test]
fn content_length_counts_rendered_body() {
    let packet = packet_of(Page::Error(Status::NotFound), false);
    let blank = find_sub(&packet, b"\r\n\r\n").unwrap();
    let body_len = packet.len() - (blank + 4);
    let header = format!("Content-Length: {}\r\n", body_len);
    assert!(contains_sub(&packet, header.as_bytes()));
}

#[test]
fn index_packet_lists_entries_in_order() {
    let page = Page::Index(
        b"/docs/".to_vec(),
        vec![b"..".to_vec(), b"alpha/".to_vec(), b"a.txt".to_vec()],
    );
    let packet = packet_of(page, false);
    assert!(packet.starts_with(b"HTTP/1.1 200 OK\r\n"));
    assert!(contains_sub(&packet, b"<title>Index of /docs/</title>"));
    let parent = find_sub(&packet, b"<li><a href=\"..\">..</a></li>").unwrap();
    let alpha = find_sub(&packet, b"<li><a href=\"alpha/\">alpha/</a></li>").unwrap();
    let file = find_sub(&packet, b"<li><a href=\"a.txt\">a.txt</a></li>").unwrap();
    assert!(parent < alpha && alpha < file);
}

#[test]
fn empty_index_shows_dot_entry() {
    let page = Page::Index(b"/docs/".to_vec(), Vec::new());
    let packet = packet_of(page, false);
    assert!(contains_sub(&packet, b"<li><a href=\".\">.</a></li>"));
}

#[test]
fn index_escapes_uri_markup() {
    // A crafted request path must not reach the page as raw markup.
    let page = Page::Index(b"/<script>alert('x')</script>/".to_vec(), Vec::new());
    let packet = packet_of(page, false);
    assert!(!contains_sub(&packet, b"<script>"));
    assert!(contains_sub(&packet, b"&lt;script&gt;alert(&#39;x&#39;)&lt;/script&gt;"));
}

#[test]
fn index_escapes_entry_names() {
    let page = Page::Index(b"/docs/".to_vec(), vec![b"a\"b&c".to_vec()]);
    let packet = packet_of(page, false);
    // The link target is percent-encoded and then escaped; the link
    // text is escaped directly.
    assert!(contains_sub(&packet, b"<li><a href=\"a%22b%26c\">a&quot;b&amp;c</a></li>"));
    assert!(!contains_sub(&packet, b"a\"b&c"));
}

#[test]
fn redirect_escapes_target_markup() {
    let page = Page::Redirect(b"/<x>/".to_vec());
    let packet = packet_of(page, false);
    let blank = find_sub(&packet, b"\r\n\r\n").unwrap();
    assert!(!contains_sub(&packet[blank..], b"<x>"));
    assert!(contains_sub(&packet, b"&lt;x&gt;"));
}

#[test]
fn index_page_status_is_ok() {
    let page = Page::Index(b"/".to_vec(), Vec::new());
    assert_eq!(page.status(), Status::Okay);
    assert_eq!(page.media_type(), Some(b"text/html; charset=utf-8".to_vec()));
}

#[test]
fn file_page_status_and_media_type() {
    let page = Page::File(Some(b"image/png".to_vec()), Vec::new());
    assert_eq!(page.status(), Status::Okay);
    assert_eq!(page.media_type(), Some(b"image/png".to_vec()));
    let page = Page::Error(Status::NotFound);
    assert_eq!(page.status(), Status::NotFound);
    let page = Page::Redirect(b"/a/".to_vec());
    assert_eq!(page.status(), Status::MovedPermanently);
}
