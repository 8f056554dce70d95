//! Serialization of a page into an HTTP/1.1 response packet: status
//! line, headers and body. The packet adds nothing that is not derived
//! from the page and the configuration flags.

use vstd::prelude::*;
use vstd::string::StringSliceAdditionalSpecFns;

use crate::config::{Config, ConfigView};
use crate::page::{Page, PageView};
use crate::status::Status;
use crate::util::{append_bytes, append_str, dec_bytes, dec_spec, lit};

verus! {

/// The status line for a response status.
pub open spec fn status_line(status: Status) -> Seq<u8> {
    lit("HTTP/1.1 ") + dec_spec(status.code_spec() as nat) + lit(" ") + status.reason_bytes()
        + lit("\r\n")
}

/// One response header field.
pub open spec fn field(key: &str, value: Seq<u8>) -> Seq<u8> {
    key.spec_bytes() + lit(": ") + value + lit("\r\n")
}

/// The cross-origin isolation header fields, when enabled.
pub open spec fn coi_headers(coi: bool) -> Seq<u8> {
    if coi {
        lit("Cross-Origin-Embedder-Policy: require-corp\r\n") + lit(
            "Cross-Origin-Opener-Policy: same-origin\r\n",
        )
    } else {
        Seq::empty()
    }
}

/// The `Location` header field, present exactly for redirects.
pub open spec fn location_header(p: PageView) -> Seq<u8> {
    match p {
        PageView::Redirect(target) => field("Location", target),
        _ => Seq::empty(),
    }
}

/// The `Content-Type` header field, present exactly when the page has a
/// media type.
pub open spec fn content_type_header(p: PageView) -> Seq<u8> {
    match p.media_type() {
        Some(media_type) => field("Content-Type", media_type),
        None => Seq::empty(),
    }
}

/// The whole response packet for a page under a configuration: status
/// line, `Connection: close`, the optional isolation and `Location` and
/// `Content-Type` fields, the body's exact `Content-Length`, a blank
/// line, and the body.
pub open spec fn packet_spec(p: PageView, c: ConfigView) -> Seq<u8> {
    status_line(p.status()) + field("Connection", lit("close")) + coi_headers(c.coi)
        + location_header(p) + content_type_header(p) + field(
        "Content-Length",
        dec_spec(p.body().len() as nat),
    ) + lit("\r\n") + p.body()
}

/// Appends a status line to a packet.
pub fn append_status_line(out: &mut Vec<u8>, status: Status)
    ensures
        final(out)@ == old(out)@ + status_line(status),
{
    append_str(out, "HTTP/1.1 ");
    let code = dec_bytes(status.code() as u64);
    append_bytes(out, &code);
    append_str(out, " ");
    append_str(out, status.reason());
    append_str(out, "\r\n");
    proof {
        assert(final(out)@ =~= old(out)@ + status_line(status));
    }
}

/// Appends a response header field to a packet.
pub fn append_field(out: &mut Vec<u8>, key: &str, value: &Vec<u8>)
    ensures
        final(out)@ == old(out)@ + field(key, value@),
{
    append_str(out, key);
    append_str(out, ": ");
    append_bytes(out, value);
    append_str(out, "\r\n");
    proof {
        assert(final(out)@ =~= old(out)@ + field(key, value@));
    }
}

/// Appends the blank line and the message body to a packet.
pub fn append_body(out: &mut Vec<u8>, body: Vec<u8>)
    ensures
        final(out)@ == old(out)@ + lit("\r\n") + body@,
{
    append_str(out, "\r\n");
    let mut b = body;
    out.append(&mut b);
}

/// An HTTP response, ready to be serialized.
pub struct Response {
    page: Page,
}

impl View for Response {
    type V = PageView;

    closed spec fn view(&self) -> PageView {
        self.page@
    }
}

impl Response {
    /// Creates a new response from a page.
    pub fn from_page(page: Page) -> (r: Response)
        ensures
            r@ == page@,
    {
        Response { page }
    }

    /// Consumes the response and serializes it into the bytes to send
    /// over the connection.
    pub fn into_packet(self, config: &Config) -> (r: Vec<u8>)
        ensures
            r@ == packet_spec(self@, config@),
    {
        let status = self.page.status();
        let mut packet: Vec<u8> = Vec::new();
        append_status_line(&mut packet, status);
        let mut close: Vec<u8> = Vec::new();
        append_str(&mut close, "close");
        proof {
            assert(close@ =~= lit("close"));
        }
        append_field(&mut packet, "Connection", &close);
        if config.coi() {
            append_str(&mut packet, "Cross-Origin-Embedder-Policy: require-corp\r\n");
            append_str(&mut packet, "Cross-Origin-Opener-Policy: same-origin\r\n");
        }
        if let Page::Redirect(target) = &self.page {
            append_field(&mut packet, "Location", target);
        }
        let media_type = self.page.media_type();
        if let Some(m) = &media_type {
            append_field(&mut packet, "Content-Type", m);
        }
        let body = self.page.into_body();
        let length = dec_bytes(body.len() as u64);
        append_field(&mut packet, "Content-Length", &length);
        append_body(&mut packet, body);
        proof {
            assert(packet@ =~= packet_spec(self@, config@));
        }
        packet
    }
}

} // verus!
