//! The router: decides, from a request, the configuration and the
//! filesystem's answers, which page to serve. The filesystem itself is
//! an external collaborator, so the decision is a step function: each
//! step either finishes with a page or asks the host for one filesystem
//! fact (canonicalization, a directory or file probe, a file read, or a
//! directory enumeration) and says which state to resume from. Every
//! path the router asks about after resolution has passed the
//! root-containment check.

use vstd::prelude::*;
use vstd::relations::sorted_by;

use crate::codec::{encoded, percent_encode};
use crate::config::{Config, ConfigView};
use crate::page::{Page, PageView};
use crate::request::{Request, RequestView};
use crate::status::Status;
use crate::util::{append_bytes, lex_leq, sort_names, SLASH};

verus! {

/// What kind of object a directory entry is.
#[derive(Clone, Copy, PartialEq, Eq, Structural, Debug)]
pub enum EntryKind {
    /// A directory.
    Directory,
    /// A regular file.
    File,
    /// Any other kind of filesystem object; skipped in listings.
    Other,
}

/// The abstract value of a directory entry.
pub ghost struct DirEntryView {
    /// The entry's name, a name only and never a path.
    pub name: Seq<u8>,
    /// What kind of object the entry is.
    pub kind: EntryKind,
}

/// One entry of a directory, as the host enumerates it.
pub struct DirEntry {
    /// The entry's name, a name only and never a path.
    pub name: Vec<u8>,
    /// What kind of object the entry is.
    pub kind: EntryKind,
}

impl View for DirEntry {
    type V = DirEntryView;

    open spec fn view(&self) -> DirEntryView {
        DirEntryView { name: self.name@, kind: self.kind }
    }
}

/// The abstract values of a sequence of directory entries.
pub open spec fn entry_views(es: Seq<DirEntry>) -> Seq<DirEntryView> {
    Seq::new(es.len(), |i: int| es[i]@)
}

/// The names of the directory entries, each with a `/` appended, in
/// enumeration order.
pub open spec fn dir_names(es: Seq<DirEntryView>) -> Seq<Seq<u8>>
    decreases es.len(),
{
    if es.len() == 0 {
        Seq::empty()
    } else {
        (if es[0].kind == EntryKind::Directory {
            seq![es[0].name + seq![SLASH]]
        } else {
            Seq::empty()
        }) + dir_names(es.drop_first())
    }
}

/// The names of the plain-file entries, in enumeration order.
pub open spec fn file_names(es: Seq<DirEntryView>) -> Seq<Seq<u8>>
    decreases es.len(),
{
    if es.len() == 0 {
        Seq::empty()
    } else {
        (if es[0].kind == EntryKind::File {
            seq![es[0].name]
        } else {
            Seq::empty()
        }) + file_names(es.drop_first())
    }
}

/// The synthetic parent entry `..` that a listing of a non-root
/// directory starts with.
pub open spec fn parent_entry() -> Seq<u8> {
    seq![0x2eu8, 0x2eu8]
}

/// The listing of a directory: the optional parent entry, then the
/// subdirectory names sorted byte-wise, then the file names sorted
/// byte-wise. Entries of other kinds do not appear.
pub open spec fn listing(es: Seq<DirEntryView>, include_parent: bool) -> Seq<Seq<u8>> {
    (if include_parent {
        seq![parent_entry()]
    } else {
        Seq::empty()
    }) + dir_names(es).sort_by(lex_leq()) + file_names(es).sort_by(lex_leq())
}

/// The listing keeps all subdirectories (sorted) before all files
/// (sorted): both segments are sorted in the byte-wise order and hold
/// exactly the directory and file names of the entries.
pub proof fn lemma_listing_order(es: Seq<DirEntryView>, include_parent: bool)
    ensures
        sorted_by(dir_names(es).sort_by(lex_leq()), lex_leq()),
        sorted_by(file_names(es).sort_by(lex_leq()), lex_leq()),
        dir_names(es).sort_by(lex_leq()).to_multiset() == dir_names(es).to_multiset(),
        file_names(es).sort_by(lex_leq()).to_multiset() == file_names(es).to_multiset(),
        listing(es, include_parent) == (if include_parent {
            seq![parent_entry()]
        } else {
            Seq::empty()
        }) + dir_names(es).sort_by(lex_leq()) + file_names(es).sort_by(lex_leq()),
{
    crate::util::lemma_lex_total_ordering();
    dir_names(es).lemma_sort_by_ensures(lex_leq());
    file_names(es).lemma_sort_by_ensures(lex_leq());
}

/// Builds the listing of a directory from its entries: subdirectories
/// first with a `/` suffix, then files, each bucket sorted byte-wise,
/// other entry kinds skipped, and `..` prepended when asked.
pub fn list_dir(entries: &Vec<DirEntry>, include_parent: bool) -> (r: Vec<Vec<u8>>)
    ensures
        r.deep_view() == listing(entry_views(entries@), include_parent),
{
    let ghost ev: Seq<DirEntryView> = entry_views(entries@);
    let mut dirs: Vec<Vec<u8>> = Vec::new();
    let mut files: Vec<Vec<u8>> = Vec::new();
    let mut i: usize = 0;
    proof {
        assert(ev.skip(0) =~= ev);
        assert(dirs.deep_view() =~= Seq::<Seq<u8>>::empty());
        assert(files.deep_view() =~= Seq::<Seq<u8>>::empty());
        assert(dirs.deep_view() + dir_names(ev) =~= dir_names(ev));
        assert(files.deep_view() + file_names(ev) =~= file_names(ev));
    }
    while i < entries.len()
        invariant
            i <= entries.len(),
            ev == entry_views(entries@),
            dir_names(ev) == dirs.deep_view() + dir_names(ev.skip(i as int)),
            file_names(ev) == files.deep_view() + file_names(ev.skip(i as int)),
        decreases entries.len() - i,
    {
        let ghost t: Seq<DirEntryView> = ev.skip(i as int);
        let ghost d0: Seq<Seq<u8>> = dirs.deep_view();
        let ghost f0: Seq<Seq<u8>> = files.deep_view();
        proof {
            assert(t[0] == ev[i as int]);
            assert(ev[i as int] == entries@[i as int]@);
            assert(t.drop_first() =~= ev.skip(i as int + 1));
            assert(dir_names(t) == (if t[0].kind == EntryKind::Directory {
                seq![t[0].name + seq![SLASH]]
            } else {
                Seq::<Seq<u8>>::empty()
            }) + dir_names(t.drop_first()));
            assert(file_names(t) == (if t[0].kind == EntryKind::File {
                seq![t[0].name]
            } else {
                Seq::<Seq<u8>>::empty()
            }) + file_names(t.drop_first()));
        }
        match entries[i].kind {
            EntryKind::Directory => {
                let mut name = entries[i].name.clone();
                name.push(SLASH);
                proof {
                    assert(name@ =~= t[0].name + seq![SLASH]);
                }
                dirs.push(name);
                proof {
                    assert forall|k: int| 0 <= k < dirs.deep_view().len() implies dirs.deep_view()[k] == d0.push(t[0].name + seq![SLASH])[k] by {}
                    assert(dirs.deep_view() =~= d0.push(t[0].name + seq![SLASH]));
                    assert(d0.push(t[0].name + seq![SLASH]) =~= d0 + seq![t[0].name + seq![SLASH]]);
                    assert(dirs.deep_view() + dir_names(ev.skip(i as int + 1)) =~= d0 + dir_names(
                        t,
                    ));
                    assert(files.deep_view() + file_names(ev.skip(i as int + 1)) =~= f0
                        + file_names(t));
                }
            },
            EntryKind::File => {
                let name = entries[i].name.clone();
                proof {
                    assert(name@ =~= t[0].name);
                }
                files.push(name);
                proof {
                    assert forall|k: int| 0 <= k < files.deep_view().len() implies files.deep_view()[k] == f0.push(t[0].name)[k] by {}
                    assert(files.deep_view() =~= f0.push(t[0].name));
                    assert(f0.push(t[0].name) =~= f0 + seq![t[0].name]);
                    assert(files.deep_view() + file_names(ev.skip(i as int + 1)) =~= f0
                        + file_names(t));
                    assert(dirs.deep_view() + dir_names(ev.skip(i as int + 1)) =~= d0 + dir_names(
                        t,
                    ));
                }
            },
            EntryKind::Other => {
                proof {
                    assert(dirs.deep_view() + dir_names(ev.skip(i as int + 1)) =~= d0 + dir_names(
                        t,
                    ));
                    assert(files.deep_view() + file_names(ev.skip(i as int + 1)) =~= f0
                        + file_names(t));
                }
            },
        }
        i = i + 1;
    }
    proof {
        assert(ev.skip(ev.len() as int) =~= Seq::<DirEntryView>::empty());
        assert(dir_names(Seq::<DirEntryView>::empty()) =~= Seq::<Seq<u8>>::empty());
        assert(file_names(Seq::<DirEntryView>::empty()) =~= Seq::<Seq<u8>>::empty());
        assert(dirs.deep_view() + Seq::<Seq<u8>>::empty() =~= dirs.deep_view());
        assert(files.deep_view() + Seq::<Seq<u8>>::empty() =~= files.deep_view());
    }
    let sorted_dirs = sort_names(dirs);
    let sorted_files = sort_names(files);
    let mut r: Vec<Vec<u8>> = Vec::new();
    if include_parent {
        let mut parent: Vec<u8> = Vec::new();
        parent.push(0x2e);
        parent.push(0x2e);
        proof {
            assert(parent@ =~= parent_entry());
        }
        r.push(parent);
    }
    let ghost r0: Seq<Seq<u8>> = r.deep_view();
    let ghost sd: Seq<Seq<u8>> = sorted_dirs.deep_view();
    let ghost sf: Seq<Seq<u8>> = sorted_files.deep_view();
    proof {
        assert forall|k: int| 0 <= k < r.deep_view().len() implies r.deep_view()[k] == r@[k]@ by {}
        if include_parent {
            assert(r0 =~= seq![parent_entry()]);
        } else {
            assert(r0 =~= Seq::<Seq<u8>>::empty());
        }
    }
    let mut tail_dirs = sorted_dirs;
    let ghost rs0: Seq<Vec<u8>> = r@;
    let ghost sds: Seq<Vec<u8>> = tail_dirs@;
    r.append(&mut tail_dirs);
    proof {
        assert forall|k: int| 0 <= k < r.deep_view().len() implies r.deep_view()[k] == (r0 + sd)[k] by {
            assert(r@[k] == (rs0 + sds)[k]);
            if k < rs0.len() {
                assert(r@[k] == rs0[k]);
            } else {
                assert(r@[k] == sds[k - rs0.len()]);
            }
        }
        assert(r.deep_view() =~= r0 + sd);
    }
    let ghost r1: Seq<Seq<u8>> = r.deep_view();
    let mut tail_files = sorted_files;
    let ghost rs1: Seq<Vec<u8>> = r@;
    let ghost sfs: Seq<Vec<u8>> = tail_files@;
    r.append(&mut tail_files);
    proof {
        assert forall|k: int| 0 <= k < r.deep_view().len() implies r.deep_view()[k] == (r1 + sf)[k] by {
            assert(r@[k] == (rs1 + sfs)[k]);
            if k < rs1.len() {
                assert(r@[k] == rs1[k]);
            } else {
                assert(r@[k] == sfs[k - rs1.len()]);
            }
        }
        assert(r.deep_view() =~= r1 + sf);
        assert((r0 + sd) + sf =~= r0 + sd + sf);
        assert(r.deep_view() =~= listing(ev, include_parent));
    }
    r
}

/// True when `p` is the root itself or a descendant of it: `p` extends
/// the root by whole path segments. Never true of a sibling or an
/// ancestor.
pub open spec fn contained(root: Seq<u8>, p: Seq<u8>) -> bool {
    p == root || (p.len() > root.len() && p.take(root.len() as int) == root && ((root.len() > 0
        && root.last() == SLASH) || p[root.len() as int] == SLASH))
}

/// Executable test matching `contained`.
fn is_contained(root: &Vec<u8>, p: &Vec<u8>) -> (r: bool)
    ensures
        r == contained(root@, p@),
{
    if p.len() < root.len() {
        return false;
    }
    let mut i: usize = 0;
    while i < root.len()
        invariant
            i <= root.len() <= p.len(),
            forall|k: int| 0 <= k < i ==> p@[k] == root@[k],
        decreases root.len() - i,
    {
        if p[i] != root[i] {
            proof {
                assert(p@ != root@);
                assert(p@.take(root@.len() as int) != root@) by {
                    if p@.take(root@.len() as int) == root@ {
                        assert(p@.take(root@.len() as int)[i as int] == p@[i as int]);
                    }
                }
            }
            return false;
        }
        i = i + 1;
    }
    if p.len() == root.len() {
        proof {
            assert(p@ =~= root@);
        }
        return true;
    }
    proof {
        assert(p@.take(root@.len() as int) =~= root@);
    }
    if root.len() > 0 && root[root.len() - 1] == SLASH {
        proof {
            assert(root@.last() == root@[root@.len() - 1]);
        }
        return true;
    }
    proof {
        if root@.len() > 0 {
            assert(root@.last() == root@[root@.len() - 1]);
        }
    }
    if p[root.len()] == SLASH {
        return true;
    }
    proof {
        assert(p@ != root@);
    }
    false
}

/// Checks a canonicalized path against the root: returns it only when
/// it is the root or a descendant of the root, so a resolved path never
/// escapes the root, whatever the canonicalization returned.
pub fn resolve_path(root: &Vec<u8>, canonical: Option<Vec<u8>>) -> (r: Option<Vec<u8>>)
    ensures
        match r {
            Some(p) => canonical matches Some(c) && p@ == c@ && contained(root@, p@),
            None => match canonical {
                Some(c) => !contained(root@, c@),
                None => true,
            },
        },
{
    match canonical {
        None => None,
        Some(p) => {
            if is_contained(root, &p) {
                Some(p)
            } else {
                None
            }
        },
    }
}

/// The path the router asks the host to canonicalize: the root, a
/// slash, and the request URI (or the root itself for the empty URI).
pub open spec fn join_spec(root: Seq<u8>, uri: Seq<u8>) -> Seq<u8> {
    if uri.len() == 0 {
        root
    } else {
        root + seq![SLASH] + uri
    }
}

/// Joins the root with a request URI.
pub fn join_path(root: &Vec<u8>, uri: &Vec<u8>) -> (r: Vec<u8>)
    ensures
        r@ == join_spec(root@, uri@),
{
    let mut r = root.clone();
    proof {
        assert(r@ =~= root@);
    }
    if uri.len() > 0 {
        r.push(SLASH);
        append_bytes(&mut r, uri);
        proof {
            assert(r@ =~= root@ + seq![SLASH] + uri@);
        }
    }
    r
}

/// The path suffix `/index.html`.
pub open spec fn index_suffix() -> Seq<u8> {
    seq![SLASH, 0x69u8, 0x6eu8, 0x64u8, 0x65u8, 0x78u8, 0x2eu8, 0x68u8, 0x74u8, 0x6du8, 0x6cu8]
}

/// Appends `/index.html` to a directory path.
fn join_index(p: &Vec<u8>) -> (r: Vec<u8>)
    ensures
        r@ == p@ + index_suffix(),
{
    let mut r = p.clone();
    proof {
        assert(r@ =~= p@);
    }
    r.push(SLASH);
    r.push(0x69);
    r.push(0x6e);
    r.push(0x64);
    r.push(0x65);
    r.push(0x78);
    r.push(0x2e);
    r.push(0x68);
    r.push(0x74);
    r.push(0x6d);
    r.push(0x6c);
    proof {
        assert(r@ =~= p@ + index_suffix());
    }
    r
}

/// The target of the trailing-slash redirect for a URI: the
/// percent-encoded URI between slashes.
pub open spec fn redirect_target(uri: Seq<u8>) -> Seq<u8> {
    if uri.len() == 0 {
        seq![SLASH]
    } else {
        seq![SLASH] + encoded(uri) + seq![SLASH]
    }
}

/// Builds the trailing-slash redirect target for a URI.
fn redirect_target_bytes(uri: &Vec<u8>) -> (r: Vec<u8>)
    ensures
        r@ == redirect_target(uri@),
{
    let mut r: Vec<u8> = Vec::new();
    r.push(SLASH);
    if uri.len() > 0 {
        let enc = percent_encode(uri);
        append_bytes(&mut r, &enc);
        r.push(SLASH);
        proof {
            assert(r@ =~= seq![SLASH] + encoded(uri@) + seq![SLASH]);
        }
    } else {
        proof {
            assert(r@ =~= seq![SLASH]);
        }
    }
    r
}

/// The URI a directory listing displays: the request URI between
/// slashes.
pub open spec fn display_uri(uri: Seq<u8>) -> Seq<u8> {
    if uri.len() == 0 {
        seq![SLASH]
    } else {
        seq![SLASH] + uri + seq![SLASH]
    }
}

/// Builds the display URI for a directory listing.
fn display_uri_bytes(uri: &Vec<u8>) -> (r: Vec<u8>)
    ensures
        r@ == display_uri(uri@),
{
    let mut r: Vec<u8> = Vec::new();
    r.push(SLASH);
    if uri.len() > 0 {
        append_bytes(&mut r, uri);
        r.push(SLASH);
        proof {
            assert(r@ =~= seq![SLASH] + uri@ + seq![SLASH]);
        }
    } else {
        proof {
            assert(r@ =~= seq![SLASH]);
        }
    }
    r
}

/// The media type that `new_mime_guess` infers from a path's extension.
/// The table is compiled into that crate, so the result is a function
/// of the path bytes alone.
pub uninterp spec fn media_type_of(path: Seq<u8>) -> Option<Seq<u8>>;

/// Relies on `new_mime_guess::from_path` and `MimeGuess::first_raw`:
/// the first media type guessed for a path, by a case-insensitive
/// lookup of its extension in a fixed table; `None` when the path has
/// no extension or no known mapping.
#[verifier::external_body]
fn guess_media_type(path: &Vec<u8>) -> (r: Option<Vec<u8>>)
    ensures
        match r {
            Some(m) => media_type_of(path@) == Some(m@),
            None => media_type_of(path@) is None,
        },
{
    let text = String::from_utf8_lossy(path.as_slice());
    new_mime_guess::from_path(text.as_ref()).first_raw().map(|m| m.as_bytes().to_vec())
}

/// The abstract value of a filesystem query.
pub ghost enum FsQueryView {
    /// Canonicalize this path against the real filesystem.
    Canonicalize(Seq<u8>),
    /// Is this path a directory?
    IsDir(Seq<u8>),
    /// Is this path a regular file?
    IsFile(Seq<u8>),
    /// Read this file's bytes.
    ReadFile(Seq<u8>),
    /// Enumerate this directory's entries.
    ListDir(Seq<u8>),
}

/// A filesystem fact the router asks the host for.
pub enum FsQuery {
    /// Canonicalize this path against the real filesystem.
    Canonicalize(Vec<u8>),
    /// Is this path a directory?
    IsDir(Vec<u8>),
    /// Is this path a regular file?
    IsFile(Vec<u8>),
    /// Read this file's bytes.
    ReadFile(Vec<u8>),
    /// Enumerate this directory's entries.
    ListDir(Vec<u8>),
}

impl View for FsQuery {
    type V = FsQueryView;

    open spec fn view(&self) -> FsQueryView {
        match self {
            FsQuery::Canonicalize(p) => FsQueryView::Canonicalize(p@),
            FsQuery::IsDir(p) => FsQueryView::IsDir(p@),
            FsQuery::IsFile(p) => FsQueryView::IsFile(p@),
            FsQuery::ReadFile(p) => FsQueryView::ReadFile(p@),
            FsQuery::ListDir(p) => FsQueryView::ListDir(p@),
        }
    }
}

/// The abstract value of the host's answer to a filesystem query.
pub ghost enum FsReplyView {
    /// The canonical form of the queried path, or `None` when
    /// canonicalization failed.
    Canonical(Option<Seq<u8>>),
    /// Whether the queried path is a directory.
    DirProbe(bool),
    /// Whether the queried path is a regular file.
    FileProbe(bool),
    /// The file's bytes, or `None` on a read failure.
    FileBytes(Option<Seq<u8>>),
    /// The directory's entries, or `None` on an enumeration failure.
    DirEntries(Option<Seq<DirEntryView>>),
}

/// The host's answer to a filesystem query.
pub enum FsReply {
    /// The canonical form of the queried path, or `None` when
    /// canonicalization failed.
    Canonical(Option<Vec<u8>>),
    /// Whether the queried path is a directory.
    DirProbe(bool),
    /// Whether the queried path is a regular file.
    FileProbe(bool),
    /// The file's bytes, or `None` on a read failure.
    FileBytes(Option<Vec<u8>>),
    /// The directory's entries, or `None` on an enumeration failure.
    DirEntries(Option<Vec<DirEntry>>),
}

impl View for FsReply {
    type V = FsReplyView;

    open spec fn view(&self) -> FsReplyView {
        match self {
            FsReply::Canonical(p) => FsReplyView::Canonical(
                match p {
                    Some(v) => Some(v@),
                    None => None,
                },
            ),
            FsReply::DirProbe(d) => FsReplyView::DirProbe(*d),
            FsReply::FileProbe(f) => FsReplyView::FileProbe(*f),
            FsReply::FileBytes(b) => FsReplyView::FileBytes(
                match b {
                    Some(v) => Some(v@),
                    None => None,
                },
            ),
            FsReply::DirEntries(es) => FsReplyView::DirEntries(
                match es {
                    Some(v) => Some(entry_views(v@)),
                    None => None,
                },
            ),
        }
    }
}

/// The abstract value of a router state.
pub ghost enum RouteView {
    /// Awaiting the canonicalization of the joined path.
    Resolve,
    /// Awaiting the directory probe of a resolved path.
    Probe(Seq<u8>),
    /// Awaiting the file probe of a directory's `index.html`.
    ProbeIndex(Seq<u8>),
    /// Awaiting the bytes of a file.
    Fetch(Seq<u8>),
    /// Awaiting the entries of a directory.
    Enumerate(Seq<u8>),
}

/// The state the router resumes from after the host answers a query.
pub enum Route {
    /// Awaiting the canonicalization of the joined path.
    Resolve,
    /// Awaiting the directory probe of a resolved path.
    Probe(Vec<u8>),
    /// Awaiting the file probe of a directory's `index.html`.
    ProbeIndex(Vec<u8>),
    /// Awaiting the bytes of a file.
    Fetch(Vec<u8>),
    /// Awaiting the entries of a directory.
    Enumerate(Vec<u8>),
}

impl View for Route {
    type V = RouteView;

    open spec fn view(&self) -> RouteView {
        match self {
            Route::Resolve => RouteView::Resolve,
            Route::Probe(p) => RouteView::Probe(p@),
            Route::ProbeIndex(p) => RouteView::ProbeIndex(p@),
            Route::Fetch(p) => RouteView::Fetch(p@),
            Route::Enumerate(p) => RouteView::Enumerate(p@),
        }
    }
}

/// The abstract value of a router step.
pub ghost enum StepView {
    /// Resume from this state once the host answers this query.
    Ask(RouteView, FsQueryView),
    /// The page to serve.
    Done(PageView),
}

/// The result of a router step: either the page to serve, or one
/// filesystem query and the state to resume from.
pub enum Step {
    /// Resume from this state once the host answers this query.
    Ask(Route, FsQuery),
    /// The page to serve.
    Done(Page),
}

impl View for Step {
    type V = StepView;

    open spec fn view(&self) -> StepView {
        match self {
            Step::Ask(route, q) => StepView::Ask(route@, q@),
            Step::Done(page) => StepView::Done(page@),
        }
    }
}

/// The router's first step for a request: reject non-local peers when
/// configured to, otherwise ask for the canonicalization of the root
/// joined with the URI.
pub open spec fn find_page_spec(req: RequestView, c: ConfigView) -> StepView {
    if c.local_only && !req.local {
        StepView::Done(PageView::Error(Status::Forbidden))
    } else {
        StepView::Ask(RouteView::Resolve, FsQueryView::Canonicalize(join_spec(c.root, req.uri)))
    }
}

/// One router step: from the state left behind and the host's answer,
/// the page to serve or the next query.
pub open spec fn route_step_spec(
    req: RequestView,
    c: ConfigView,
    route: RouteView,
    reply: FsReplyView,
) -> StepView {
    match (route, reply) {
        (RouteView::Resolve, FsReplyView::Canonical(canonical)) => match canonical {
            Some(p) => if contained(c.root, p) {
                StepView::Ask(RouteView::Probe(p), FsQueryView::IsDir(p))
            } else {
                StepView::Done(PageView::Error(Status::NotFound))
            },
            None => StepView::Done(PageView::Error(Status::NotFound)),
        },
        (RouteView::Probe(p), FsReplyView::DirProbe(is_dir)) => if is_dir {
            if !req.trailing_slash {
                StepView::Done(PageView::Redirect(redirect_target(req.uri)))
            } else {
                StepView::Ask(
                    RouteView::ProbeIndex(p),
                    FsQueryView::IsFile(p + index_suffix()),
                )
            }
        } else {
            if req.trailing_slash {
                StepView::Done(PageView::Error(Status::NotFound))
            } else {
                StepView::Ask(RouteView::Fetch(p), FsQueryView::ReadFile(p))
            }
        },
        (RouteView::ProbeIndex(p), FsReplyView::FileProbe(has_index)) => if has_index {
            StepView::Ask(
                RouteView::Fetch(p + index_suffix()),
                FsQueryView::ReadFile(p + index_suffix()),
            )
        } else if c.index {
            StepView::Ask(RouteView::Enumerate(p), FsQueryView::ListDir(p))
        } else {
            StepView::Done(PageView::Error(Status::NotFound))
        },
        (RouteView::Fetch(p), FsReplyView::FileBytes(contents)) => match contents {
            Some(body) => StepView::Done(PageView::File(media_type_of(p), body)),
            None => StepView::Done(PageView::Error(Status::InternalServerError)),
        },
        (RouteView::Enumerate(_), FsReplyView::DirEntries(entries)) => match entries {
            Some(es) => StepView::Done(
                PageView::Index(display_uri(req.uri), listing(es, req.uri.len() > 0)),
            ),
            None => StepView::Done(PageView::Error(Status::InternalServerError)),
        },
        _ => StepView::Done(PageView::Error(Status::InternalServerError)),
    }
}

/// Begins finding the page for a request.
pub fn find_page(request: &Request, config: &Config) -> (r: Step)
    ensures
        r@ == find_page_spec(request@, config@),
{
    if config.local_only() && !request.is_local() {
        return Step::Done(Page::Error(Status::Forbidden));
    }
    let joined = join_path(config.root(), request.uri());
    Step::Ask(Route::Resolve, FsQuery::Canonicalize(joined))
}

/// Performs one router step after the host answers a query. A reply
/// that does not fit the state yields an internal error page.
pub fn route_step(request: &Request, config: &Config, route: Route, reply: FsReply) -> (r: Step)
    ensures
        r@ == route_step_spec(request@, config@, route@, reply@),
{
    match (route, reply) {
        (Route::Resolve, FsReply::Canonical(canonical)) => {
            match resolve_path(config.root(), canonical) {
                Some(p) => {
                    let q = p.clone();
                    proof {
                        assert(q@ =~= p@);
                    }
                    Step::Ask(Route::Probe(p), FsQuery::IsDir(q))
                },
                None => Step::Done(Page::Error(Status::NotFound)),
            }
        },
        (Route::Probe(p), FsReply::DirProbe(is_dir)) => {
            if is_dir {
                if !request.trailing_slash() {
                    Step::Done(Page::Redirect(redirect_target_bytes(request.uri())))
                } else {
                    let index_path = join_index(&p);
                    Step::Ask(Route::ProbeIndex(p), FsQuery::IsFile(index_path))
                }
            } else {
                if request.trailing_slash() {
                    Step::Done(Page::Error(Status::NotFound))
                } else {
                    let q = p.clone();
                    proof {
                        assert(q@ =~= p@);
                    }
                    Step::Ask(Route::Fetch(p), FsQuery::ReadFile(q))
                }
            }
        },
        (Route::ProbeIndex(p), FsReply::FileProbe(has_index)) => {
            if has_index {
                let index_path = join_index(&p);
                let q = index_path.clone();
                proof {
                    assert(q@ =~= index_path@);
                }
                Step::Ask(Route::Fetch(index_path), FsQuery::ReadFile(q))
            } else if config.index() {
                let q = p.clone();
                proof {
                    assert(q@ =~= p@);
                }
                Step::Ask(Route::Enumerate(p), FsQuery::ListDir(q))
            } else {
                Step::Done(Page::Error(Status::NotFound))
            }
        },
        (Route::Fetch(p), FsReply::FileBytes(contents)) => {
            match contents {
                Some(body) => {
                    let media_type = guess_media_type(&p);
                    Step::Done(Page::File(media_type, body))
                },
                None => Step::Done(Page::Error(Status::InternalServerError)),
            }
        },
        (Route::Enumerate(_), FsReply::DirEntries(entries)) => {
            match entries {
                Some(es) => {
                    let names = list_dir(&es, request.uri().len() > 0);
                    let display = display_uri_bytes(request.uri());
                    Step::Done(Page::Index(display, names))
                },
                None => Step::Done(Page::Error(Status::InternalServerError)),
            }
        },
        (_, _) => Step::Done(Page::Error(Status::InternalServerError)),
    }
}

/// Containment: resolution hands the router either nothing — a missing
/// or escaping path becomes a not-found page — or a path that is the
/// root or a descendant of the root, whatever the canonicalization
/// answered.
pub proof fn lemma_resolve_containment(
    req: RequestView,
    c: ConfigView,
    canonical: Option<Seq<u8>>,
)
    ensures
        match route_step_spec(req, c, RouteView::Resolve, FsReplyView::Canonical(canonical)) {
            StepView::Ask(route, q) => {
                &&& route matches RouteView::Probe(p) && contained(c.root, p) && canonical
                    == Some(p)
            },
            StepView::Done(page) => page == PageView::Error(Status::NotFound),
        },
{
}

/// Trailing-slash consistency: when the resolved path is a directory
/// but the target did not end in a slash, the router always answers
/// with the redirect to the slashed URI, never a file or index body.
pub proof fn lemma_trailing_slash_redirect(req: RequestView, c: ConfigView, p: Seq<u8>)
    requires
        !req.trailing_slash,
    ensures
        route_step_spec(req, c, RouteView::Probe(p), FsReplyView::DirProbe(true))
            == StepView::Done(PageView::Redirect(redirect_target(req.uri))),
{
}

} // verus!
