//! The page selected for a request — a file, a directory index, a
//! redirect, or an error — and the HTML bodies rendered for the
//! non-file pages. Every untrusted string substituted into a body (the
//! request URI, entry names, the redirect target) is HTML-escaped.

use vstd::prelude::*;

use crate::codec::{escaped, encoded, html_escape, percent_encode};
use crate::status::Status;
use crate::util::{append_bytes, append_str, dec_bytes, dec_spec, lit};

verus! {

/// The abstract value of a page.
pub ghost enum PageView {
    /// A file with an optional media type and its contents.
    File(Option<Seq<u8>>, Seq<u8>),
    /// A listing of the directory at a display URI, with its entry
    /// names in listing order.
    Index(Seq<u8>, Seq<Seq<u8>>),
    /// A redirect to a percent-encoded target.
    Redirect(Seq<u8>),
    /// An error with a response status.
    Error(Status),
}

/// The name a listing shows for an empty directory: `.`.
pub open spec fn dot_name() -> Seq<u8> {
    seq![0x2eu8]
}

/// The listing line for one directory entry: a link whose target is the
/// percent-encoded name and whose text is the name, both HTML-escaped.
pub open spec fn entry_html(name: Seq<u8>) -> Seq<u8> {
    lit("<li><a href=\"") + escaped(encoded(name)) + lit("\">") + escaped(name) + lit(
        "</a></li>\n",
    )
}

/// The listing lines for a sequence of entry names, in order.
pub open spec fn entries_html(names: Seq<Seq<u8>>) -> Seq<u8>
    decreases names.len(),
{
    if names.len() == 0 {
        Seq::empty()
    } else {
        entry_html(names[0]) + entries_html(names.drop_first())
    }
}

/// The fixed HTML document frame around a title and a content fragment.
pub open spec fn doc_html(title: Seq<u8>, content: Seq<u8>) -> Seq<u8> {
    lit("<!DOCTYPE html>\n<html>\n<head>\n<title>") + title + lit(
        "</title>\n</head>\n<body>\n<h1>",
    ) + title + lit("</h1>\n") + content + lit("\n</body>\n</html>\n")
}

/// The body of a directory index page: the escaped display URI in the
/// title, and one listing line per entry (or a single `.` line for an
/// empty directory).
pub open spec fn index_html(uri: Seq<u8>, names: Seq<Seq<u8>>) -> Seq<u8> {
    doc_html(
        lit("Index of ") + escaped(uri),
        lit("<ul>\n") + (if names.len() == 0 {
            entry_html(dot_name())
        } else {
            entries_html(names)
        }) + lit("</ul>"),
    )
}

/// The body of a redirect page: a link to the escaped target.
pub open spec fn redirect_html(target: Seq<u8>) -> Seq<u8> {
    doc_html(
        lit("Redirecting"),
        lit("<p>You are being redirected to <a href=\"") + escaped(target) + lit("\">") + escaped(
            target,
        ) + lit("</a>.</p>"),
    )
}

/// The body of an error page: the status code and reason in the title.
pub open spec fn error_html(status: Status) -> Seq<u8> {
    doc_html(
        dec_spec(status.code_spec() as nat) + lit(" - ") + status.reason_bytes(),
        lit("<p>An error occurred.</p>"),
    )
}

impl PageView {
    /// The response status the page implies.
    pub open spec fn status(self) -> Status {
        match self {
            PageView::File(_, _) => Status::Okay,
            PageView::Index(_, _) => Status::Okay,
            PageView::Redirect(_) => Status::MovedPermanently,
            PageView::Error(status) => status,
        }
    }

    /// The media type of the page's body, if one is known: a file's
    /// inferred type, HTML for the rendered pages.
    pub open spec fn media_type(self) -> Option<Seq<u8>> {
        match self {
            PageView::File(media_type, _) => media_type,
            _ => Some(lit("text/html; charset=utf-8")),
        }
    }

    /// The page's message body.
    pub open spec fn body(self) -> Seq<u8> {
        match self {
            PageView::File(_, contents) => contents,
            PageView::Index(uri, names) => index_html(uri, names),
            PageView::Redirect(target) => redirect_html(target),
            PageView::Error(status) => error_html(status),
        }
    }
}

/// A page that can be sent as an HTTP response.
pub enum Page {
    /// A file with an optional media type and its contents.
    File(Option<Vec<u8>>, Vec<u8>),
    /// A listing of the directory at a display URI, with its entry
    /// names in listing order.
    Index(Vec<u8>, Vec<Vec<u8>>),
    /// A redirect to a percent-encoded target.
    Redirect(Vec<u8>),
    /// An error with a response status.
    Error(Status),
}

impl View for Page {
    type V = PageView;

    open spec fn view(&self) -> PageView {
        match self {
            Page::File(media_type, contents) => PageView::File(
                match media_type {
                    Some(m) => Some(m@),
                    None => None,
                },
                contents@,
            ),
            Page::Index(uri, names) => PageView::Index(uri@, names.deep_view()),
            Page::Redirect(target) => PageView::Redirect(target@),
            Page::Error(status) => PageView::Error(*status),
        }
    }
}

impl Page {
    /// Returns the response status the page implies.
    pub fn status(&self) -> (r: Status)
        ensures
            r == self@.status(),
    {
        match self {
            Page::File(_, _) => Status::Okay,
            Page::Index(_, _) => Status::Okay,
            Page::Redirect(_) => Status::MovedPermanently,
            Page::Error(status) => *status,
        }
    }

    /// Returns the media type of the page's body, if one is known.
    pub fn media_type(&self) -> (r: Option<Vec<u8>>)
        ensures
            match r {
                Some(m) => self@.media_type() == Some(m@),
                None => self@.media_type() is None,
            },
    {
        match self {
            Page::File(media_type, _) => match media_type {
                Some(m) => Some(m.clone()),
                None => None,
            },
            _ => {
                let mut m: Vec<u8> = Vec::new();
                append_str(&mut m, "text/html; charset=utf-8");
                proof {
                    assert(m@ =~= lit("text/html; charset=utf-8"));
                }
                Some(m)
            },
        }
    }

    /// Consumes the page and renders its message body.
    pub fn into_body(self) -> (r: Vec<u8>)
        ensures
            r@ == self@.body(),
    {
        match self {
            Page::File(_, contents) => contents,
            Page::Index(uri, names) => index_body(&uri, &names),
            Page::Redirect(target) => redirect_body(&target),
            Page::Error(status) => error_body(status),
        }
    }
}

/// Renders an HTML document from a title and a content fragment.
pub fn render_html(title: &Vec<u8>, content: &Vec<u8>) -> (r: Vec<u8>)
    ensures
        r@ == doc_html(title@, content@),
{
    let mut r: Vec<u8> = Vec::new();
    append_str(&mut r, "<!DOCTYPE html>\n<html>\n<head>\n<title>");
    append_bytes(&mut r, title);
    append_str(&mut r, "</title>\n</head>\n<body>\n<h1>");
    append_bytes(&mut r, title);
    append_str(&mut r, "</h1>\n");
    append_bytes(&mut r, content);
    append_str(&mut r, "\n</body>\n</html>\n");
    proof {
        assert(r@ =~= doc_html(title@, content@));
    }
    r
}

/// Renders the listing line for one directory entry.
pub fn index_entry(name: &Vec<u8>) -> (r: Vec<u8>)
    ensures
        r@ == entry_html(name@),
{
    let mut r: Vec<u8> = Vec::new();
    append_str(&mut r, "<li><a href=\"");
    let enc = percent_encode(name);
    let href = html_escape(&enc);
    append_bytes(&mut r, &href);
    append_str(&mut r, "\">");
    let text = html_escape(name);
    append_bytes(&mut r, &text);
    append_str(&mut r, "</a></li>\n");
    proof {
        assert(r@ =~= entry_html(name@));
    }
    r
}

/// Renders the body of a directory index page.
pub fn index_body(uri: &Vec<u8>, names: &Vec<Vec<u8>>) -> (r: Vec<u8>)
    ensures
        r@ == index_html(uri@, names.deep_view()),
{
    let ghost nv: Seq<Seq<u8>> = names.deep_view();
    let mut entries: Vec<u8> = Vec::new();
    if names.len() == 0 {
        let mut dot: Vec<u8> = Vec::new();
        dot.push(0x2e);
        let e = index_entry(&dot);
        append_bytes(&mut entries, &e);
        proof {
            assert(dot@ =~= dot_name());
            assert(entries@ =~= entry_html(dot_name()));
        }
    } else {
        let mut i: usize = 0;
        proof {
            assert(nv.skip(0) =~= nv);
            assert(entries@ + entries_html(nv) =~= entries_html(nv));
        }
        while i < names.len()
            invariant
                i <= names.len(),
                nv == names.deep_view(),
                entries_html(nv) == entries@ + entries_html(nv.skip(i as int)),
            decreases names.len() - i,
        {
            let ghost t: Seq<Seq<u8>> = nv.skip(i as int);
            let ghost e0: Seq<u8> = entries@;
            proof {
                assert(t[0] == nv[i as int]);
                assert(nv[i as int] == names@[i as int]@);
                assert(t.drop_first() =~= nv.skip(i as int + 1));
                assert(entries_html(t) == entry_html(t[0]) + entries_html(t.drop_first()));
            }
            let e = index_entry(&names[i]);
            append_bytes(&mut entries, &e);
            proof {
                assert(entries@ + entries_html(nv.skip(i as int + 1)) =~= e0 + entries_html(t));
            }
            i = i + 1;
        }
        proof {
            assert(nv.skip(nv.len() as int) =~= Seq::<Seq<u8>>::empty());
            assert(entries@ + entries_html(Seq::<Seq<u8>>::empty()) =~= entries@);
        }
    }
    let mut title: Vec<u8> = Vec::new();
    append_str(&mut title, "Index of ");
    let esc_uri = html_escape(uri);
    append_bytes(&mut title, &esc_uri);
    let mut content: Vec<u8> = Vec::new();
    append_str(&mut content, "<ul>\n");
    append_bytes(&mut content, &entries);
    append_str(&mut content, "</ul>");
    let r = render_html(&title, &content);
    proof {
        assert(title@ =~= lit("Index of ") + escaped(uri@));
        assert(content@ =~= lit("<ul>\n") + (if nv.len() == 0 {
            entry_html(dot_name())
        } else {
            entries_html(nv)
        }) + lit("</ul>"));
    }
    r
}

/// Renders the body of a redirect page.
pub fn redirect_body(target: &Vec<u8>) -> (r: Vec<u8>)
    ensures
        r@ == redirect_html(target@),
{
    let mut title: Vec<u8> = Vec::new();
    append_str(&mut title, "Redirecting");
    let mut content: Vec<u8> = Vec::new();
    append_str(&mut content, "<p>You are being redirected to <a href=\"");
    let esc = html_escape(target);
    append_bytes(&mut content, &esc);
    append_str(&mut content, "\">");
    append_bytes(&mut content, &esc);
    append_str(&mut content, "</a>.</p>");
    let r = render_html(&title, &content);
    proof {
        assert(title@ =~= lit("Redirecting"));
        assert(content@ =~= lit("<p>You are being redirected to <a href=\"") + escaped(target@)
            + lit("\">") + escaped(target@) + lit("</a>.</p>"));
    }
    r
}

/// Renders the body of an error page.
pub fn error_body(status: Status) -> (r: Vec<u8>)
    ensures
        r@ == error_html(status),
{
    let mut title: Vec<u8> = Vec::new();
    let code = dec_bytes(status.code() as u64);
    append_bytes(&mut title, &code);
    append_str(&mut title, " - ");
    append_str(&mut title, status.reason());
    let mut content: Vec<u8> = Vec::new();
    append_str(&mut content, "<p>An error occurred.</p>");
    let r = render_html(&title, &content);
    proof {
        assert(title@ =~= dec_spec(status.code_spec() as nat) + lit(" - ")
            + status.reason_bytes());
        assert(content@ =~= lit("<p>An error occurred.</p>"));
    }
    r
}

} // verus!
