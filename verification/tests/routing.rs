//! Tests for the router: containment, the trailing-slash redirect, the
//! index-page flow, directory listings, and the local-only check.

use holo::config::{Config, ConfigError};
use holo::page::Page;
use holo::request::Request;
use holo::router::{
    find_page, list_dir, resolve_path, route_step, DirEntry, EntryKind, FsQuery, FsReply, Route,
    Step,
};
use holo::status::Status;

fn test_config(index: bool) -> Config {
    Config::try_new(b"/srv".to_vec(), 8080, false, index, true).unwrap()
}

fn entry(name: &str, kind: EntryKind) -> DirEntry {
    DirEntry { name: name.as_bytes().to_vec(), kind }
}

#[test]
fn config_accepts_canonical_roots() {
    assert!(Config::try_new(b"/".to_vec(), 8080, false, true, true).is_ok());
    assert!(Config::try_new(b"/srv/files".to_vec(), 8080, false, true, true).is_ok());
}

#[test]
fn config_rejects_non_canonical_roots() {
    for root in [
        &b""[..],
        b"srv",
        b"/srv/",
        b"/a//b",
        b"/a/./b",
        b"/a/../b",
        b"/a/..",
        b"/.",
    ] {
        let r = Config::try_new(root.to_vec(), 8080, false, true, true);
        assert!(matches!(r, Err(ConfigError::RootNotCanonical)), "accepted {:?}", root);
    }
}

#[test]
fn resolve_keeps_descendants() {
    let r = resolve_path(&b"/srv".to_vec(), Some(b"/srv/docs/x.html".to_vec()));
    assert_eq!(r, Some(b"/srv/docs/x.html".to_vec()));
}

#[test]
fn resolve_keeps_root_itself() {
    let r = resolve_path(&b"/srv".to_vec(), Some(b"/srv".to_vec()));
    assert_eq!(r, Some(b"/srv".to_vec()));
}

#[test]
fn resolve_rejects_escapes() {
    assert_eq!(resolve_path(&b"/srv".to_vec(), Some(b"/etc/passwd".to_vec())), None);
    assert_eq!(resolve_path(&b"/srv".to_vec(), Some(b"/".to_vec())), None);
    assert_eq!(resolve_path(&b"/srv".to_vec(), Some(b"/srvx".to_vec())), None);
    assert_eq!(resolve_path(&b"/srv".to_vec(), None), None);
}

#[test]
fn resolve_under_filesystem_root() {
    let r = resolve_path(&b"/".to_vec(), Some(b"/etc".to_vec()));
    assert_eq!(r, Some(b"/etc".to_vec()));
}

#[test]
fn serve_file_under_root() {
    // Root holds index.html; `GET / HTTP/1.1` from loopback yields the
    // file with a media type inferred from `.html`.
    let config = test_config(true);
    let req = Request::parse(&b"GET / HTTP/1.1\r\n".to_vec(), true).unwrap();
    let step = find_page(&req, &config);
    let (route, query) = match step {
        Step::Ask(route, query) => (route, query),
        Step::Done(_) => panic!("expected a query"),
    };
    assert!(matches!(route, Route::Resolve));
    match query {
        FsQuery::Canonicalize(p) => assert_eq!(p, b"/srv".to_vec()),
        _ => panic!("expected canonicalization"),
    }
    let step = route_step(&req, &config, route, FsReply::Canonical(Some(b"/srv".to_vec())));
    let (route, query) = match step {
        Step::Ask(route, query) => (route, query),
        Step::Done(_) => panic!("expected a query"),
    };
    match &query {
        FsQuery::IsDir(p) => assert_eq!(p, &b"/srv".to_vec()),
        _ => panic!("expected a directory probe"),
    }
    let step = route_step(&req, &config, route, FsReply::DirProbe(true));
    let (route, query) = match step {
        Step::Ask(route, query) => (route, query),
        Step::Done(_) => panic!("expected a query"),
    };
    match &query {
        FsQuery::IsFile(p) => assert_eq!(p, &b"/srv/index.html".to_vec()),
        _ => panic!("expected a file probe"),
    }
    let step = route_step(&req, &config, route, FsReply::FileProbe(true));
    let (route, query) = match step {
        Step::Ask(route, query) => (route, query),
        Step::Done(_) => panic!("expected a query"),
    };
    match &query {
        FsQuery::ReadFile(p) => assert_eq!(p, &b"/srv/index.html".to_vec()),
        _ => panic!("expected a file read"),
    }
    let step = route_step(
        &req,
        &config,
        route,
        FsReply::FileBytes(Some(b"<h1>hi</h1>".to_vec())),
    );
    match step {
        Step::Done(Page::File(media_type, body)) => {
            assert_eq!(media_type, Some(b"text/html".to_vec()));
            assert_eq!(body, b"<h1>hi</h1>".to_vec());
        },
        _ => panic!("expected a file page"),
    }
}

#[test]
fn media_type_follows_extension() {
    let config = test_config(true);
    let req = Request::parse(&b"GET /p.png HTTP/1.1\r\n".to_vec(), true).unwrap();
    let step = route_step(
        &req,
        &config,
        Route::Fetch(b"/srv/p.png".to_vec()),
        FsReply::FileBytes(Some(vec![1u8, 2, 3])),
    );
    match step {
        Step::Done(Page::File(media_type, body)) => {
            assert_eq!(media_type, Some(b"image/png".to_vec()));
            assert_eq!(body, vec![1u8, 2, 3]);
        },
        _ => panic!("expected a file page"),
    }
}

#[test]
fn media_type_unknown_extension() {
    let config = test_config(true);
    let req = Request::parse(&b"GET /p.zzyx HTTP/1.1\r\n".to_vec(), true).unwrap();
    let step = route_step(
        &req,
        &config,
        Route::Fetch(b"/srv/p.zzyx".to_vec()),
        FsReply::FileBytes(Some(vec![9u8])),
    );
    match step {
        Step::Done(Page::File(media_type, _)) => assert_eq!(media_type, None),
        _ => panic!("expected a file page"),
    }
}

#[test]
fn directory_without_slash_redirects() {
    // `GET /docs HTTP/1.1` where docs is a directory yields a redirect
    // to `/docs/`, never directory content.
    let config = test_config(true);
    let req = Request::parse(&b"GET /docs HTTP/1.1\r\n".to_vec(), true).unwrap();
    let step = route_step(
        &req,
        &config,
        Route::Probe(b"/srv/docs".to_vec()),
        FsReply::DirProbe(true),
    );
    match step {
        Step::Done(Page::Redirect(target)) => assert_eq!(target, b"/docs/".to_vec()),
        _ => panic!("expected a redirect"),
    }
}

#[test]
fn redirect_target_is_percent_encoded() {
    let config = test_config(true);
    let req = Request::parse(&b"GET /my%20docs HTTP/1.1\r\n".to_vec(), true).unwrap();
    assert_eq!(req.uri(), &b"my docs".to_vec());
    let step = route_step(
        &req,
        &config,
        Route::Probe(b"/srv/my docs".to_vec()),
        FsReply::DirProbe(true),
    );
    match step {
        Step::Done(Page::Redirect(target)) => assert_eq!(target, b"/my%20docs/".to_vec()),
        _ => panic!("expected a redirect"),
    }
}

#[test]
fn file_with_trailing_slash_is_not_found() {
    let config = test_config(true);
    let req = Request::parse(&b"GET /a.txt/ HTTP/1.1\r\n".to_vec(), true).unwrap();
    let step = route_step(
        &req,
        &config,
        Route::Probe(b"/srv/a.txt".to_vec()),
        FsReply::DirProbe(false),
    );
    assert!(matches!(step, Step::Done(Page::Error(Status::NotFound))));
}

#[test]
fn listing_flow_sorts_directories_before_files() {
    // `GET /docs/ HTTP/1.1` with listings enabled and no index.html
    // yields an index page whose entries are sorted, directories first.
    let config = test_config(true);
    let req = Request::parse(&b"GET /docs/ HTTP/1.1\r\n".to_vec(), true).unwrap();
    let step = route_step(
        &req,
        &config,
        Route::ProbeIndex(b"/srv/docs".to_vec()),
        FsReply::FileProbe(false),
    );
    let (route, query) = match step {
        Step::Ask(route, query) => (route, query),
        Step::Done(_) => panic!("expected a query"),
    };
    match &query {
        FsQuery::ListDir(p) => assert_eq!(p, &b"/srv/docs".to_vec()),
        _ => panic!("expected an enumeration"),
    }
    let entries = vec![
        entry("b.txt", EntryKind::File),
        entry("zeta", EntryKind::Directory),
        entry("a.txt", EntryKind::File),
        entry("alpha", EntryKind::Directory),
        entry("socket", EntryKind::Other),
    ];
    let step = route_step(&req, &config, route, FsReply::DirEntries(Some(entries)));
    match step {
        Step::Done(Page::Index(uri, names)) => {
            assert_eq!(uri, b"/docs/".to_vec());
            assert_eq!(
                names,
                vec![
                    b"..".to_vec(),
                    b"alpha/".to_vec(),
                    b"zeta/".to_vec(),
                    b"a.txt".to_vec(),
                    b"b.txt".to_vec(),
                ],
            );
        },
        _ => panic!("expected an index page"),
    }
}

#[test]
fn listing_of_root_has_no_parent_entry() {
    let config = test_config(true);
    let req = Request::parse(&b"GET / HTTP/1.1\r\n".to_vec(), true).unwrap();
    let entries = vec![entry("x", EntryKind::Directory)];
    let step = route_step(
        &req,
        &config,
        Route::Enumerate(b"/srv".to_vec()),
        FsReply::DirEntries(Some(entries)),
    );
    match step {
        Step::Done(Page::Index(uri, names)) => {
            assert_eq!(uri, b"/".to_vec());
            assert_eq!(names, vec![b"x/".to_vec()]);
        },
        _ => panic!("expected an index page"),
    }
}

#[test]
fn listing_disabled_is_not_found() {
    let config = test_config(false);
    let req = Request::parse(&b"GET /docs/ HTTP/1.1\r\n".to_vec(), true).unwrap();
    let step = route_step(
        &req,
        &config,
        Route::ProbeIndex(b"/srv/docs".to_vec()),
        FsReply::FileProbe(false),
    );
    assert!(matches!(step, Step::Done(Page::Error(Status::NotFound))));
}

#[test]
fn traversal_attempt_is_not_found() {
    // `GET /../../etc/passwd HTTP/1.1`: whatever the canonicalization
    // answers, a path outside the root resolves to nothing.
    let config = test_config(true);
    let req = Request::parse(&b"GET /../../etc/passwd HTTP/1.1\r\n".to_vec(), true).unwrap();
    let step = route_step(
        &req,
        &config,
        Route::Resolve,
        FsReply::Canonical(Some(b"/etc/passwd".to_vec())),
    );
    assert!(matches!(step, Step::Done(Page::Error(Status::NotFound))));
}

#[test]
fn missing_path_is_not_found() {
    let config = test_config(true);
    let req = Request::parse(&b"GET /gone HTTP/1.1\r\n".to_vec(), true).unwrap();
    let step = route_step(&req, &config, Route::Resolve, FsReply::Canonical(None));
    assert!(matches!(step, Step::Done(Page::Error(Status::NotFound))));
}

#[test]
fn non_local_peer_is_forbidden() {
    let config = test_config(true);
    let req = Request::parse(&b"GET / HTTP/1.1\r\n".to_vec(), false).unwrap();
    let step = find_page(&req, &config);
    assert!(matches!(step, Step::Done(Page::Error(Status::Forbidden))));
}

#[test]
fn non_local_peer_allowed_when_open() {
    let config = Config::try_new(b"/srv".to_vec(), 8080, false, true, false).unwrap();
    let req = Request::parse(&b"GET / HTTP/1.1\r\n".to_vec(), false).unwrap();
    assert!(matches!(find_page(&req, &config), Step::Ask(_, _)));
}

#[test]
fn read_failure_is_internal_error() {
    let config = test_config(true);
    let req = Request::parse(&b"GET /x HTTP/1.1\r\n".to_vec(), true).unwrap();
    let step = route_step(
        &req,
        &config,
        Route::Fetch(b"/srv/x".to_vec()),
        FsReply::FileBytes(None),
    );
    assert!(matches!(step, Step::Done(Page::Error(Status::InternalServerError))));
}

#[test]
fn enumeration_failure_is_internal_error() {
    let config = test_config(true);
    let req = Request::parse(&b"GET /docs/ HTTP/1.1\r\n".to_vec(), true).unwrap();
    let step = route_step(
        &req,
        &config,
        Route::Enumerate(b"/srv/docs".to_vec()),
        FsReply::DirEntries(None),
    );
    assert!(matches!(step, Step::Done(Page::Error(Status::InternalServerError))));
}

#[test]
fn mismatched_reply_is_internal_error() {
    let config = test_config(true);
    let req = Request::parse(&b"GET / HTTP/1.1\r\n".to_vec(), true).unwrap();
    let step = route_step(&req, &config, Route::Resolve, FsReply::DirProbe(true));
    assert!(matches!(step, Step::Done(Page::Error(Status::InternalServerError))));
}

#[test]
fn list_dir_empty_directory() {
    let names = list_dir(&Vec::new(), true);
    assert_eq!(names, vec![b"..".to_vec()]);
    let names = list_dir(&Vec::new(), false);
    assert!(names.is_empty());
}

#[test]
fn list_dir_skips_other_kinds() {
    let entries = vec![
        entry("fifo", EntryKind::Other),
        entry("f", EntryKind::File),
        entry("d", EntryKind::Directory),
    ];
    let names = list_dir(&entries, false);
    assert_eq!(names, vec![b"d/".to_vec(), b"f".to_vec()]);
}

#[test]
fn list_dir_sorts_byte_wise() {
    let entries = vec![
        entry("B", EntryKind::File),
        entry("a", EntryKind::File),
        entry("A", EntryKind::File),
    ];
    let names = list_dir(&entries, false);
    // Ordinal order puts upper-case names first.
    assert_eq!(names, vec![b"A".to_vec(), b"B".to_vec(), b"a".to_vec()]);
}
