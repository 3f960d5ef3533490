//! The blocking HTTPS client's pure half: the response it hands back,
//! the parsing of what comes over the wire, and the decisions of the
//! read loop. Sockets and TLS belong to the caller.

pub mod parse;

use vstd::prelude::*;
use crate::error::{Error, io_error_text};
use crate::text::{chars_of, string_of};
use parse::{complete_spec, contains_seq, find_chars, find_first, find_subslice, head_end_bytes, response_complete};

verus! {

#[derive(Debug)]
pub struct Response {
    pub status: u16,
    pub body: String,
    /// `Link: <url>; rel="next"`: the next page's URL, if any.
    pub next: Option<String>,
}

/// Whether the kind of an I/O error is `UnexpectedEof`.
#[verifier::external_body]
fn io_error_is_eof(e: &std::io::Error) -> bool {
    match e.kind() {
        std::io::ErrorKind::UnexpectedEof => true,
        _ => false,
    }
}

/// A read error that is the peer hanging up: an unexpected end of file,
/// or an error whose text mentions TLS's missing `close_notify`.
pub open spec fn hangup_spec(eof: bool, text: Seq<char>) -> bool {
    eof || contains_seq(text, "close_notify"@)
}

pub fn hangup_from(eof: bool, text: &str) -> (b: bool)
    ensures
        b == hangup_spec(eof, text@),
{
    if eof {
        return true;
    }
    let t = chars_of(text);
    let p = chars_of("close_notify");
    proof {
        reveal_strlit("close_notify");
    }
    find_chars(t.as_slice(), p.as_slice()).is_some()
}

/// GitHub (and many CDNs) close the TCP connection without a TLS
/// `close_notify`, so a read can fail after the whole response came.
/// Says whether `e` is such a hang-up, by its kind and its text.
pub fn is_tls_hangup(e: &std::io::Error) -> bool {
    let eof = io_error_is_eof(e);
    let text = io_error_text(e);
    hangup_from(eof, text.as_str())
}

/// Whether the bytes read so far include the end of the head.
pub fn head_received(raw: &[u8]) -> (b: bool)
    ensures
        b == (find_first(raw@, head_end_bytes()) is Some),
{
    let end_pat: [u8; 4] = [13, 10, 13, 10];
    assert(end_pat@ =~= head_end_bytes());
    find_subslice(raw, end_pat.as_slice()).is_some()
}

/// What the read loop hands on once the connection is done: the bytes,
/// or a truncated-response error when the head never ended.
pub fn finish_read(raw: Vec<u8>) -> (r: Result<Vec<u8>, Error>)
    ensures
        find_first(raw@, head_end_bytes()) is Some ==> (r matches Ok(v) && v@ == raw@),
        find_first(raw@, head_end_bytes()) is None ==> (r matches Err(Error::Http(m)) && m@ == "truncated response"@),
{
    if head_received(raw.as_slice()) {
        Ok(raw)
    } else {
        Err(Error::Http(string_of("truncated response")))
    }
}

/// What one read of the connection gave.
pub enum ReadEvent {
    /// The bytes read; none when the peer closed the connection.
    Read(Vec<u8>),
    /// A read error that is the peer hanging up (see `is_tls_hangup`).
    Hangup,
    /// Any other read error.
    Failed,
}

/// What the read loop does next.
#[derive(Debug, PartialEq, Eq, Structural)]
pub enum ReadStep {
    /// Read again.
    More,
    /// Stop reading and hand the bytes to `finish_read`.
    Stop,
    /// Stop reading and report the read error.
    Fail,
}

/// One turn of the read loop over the bytes `raw` read so far: new bytes
/// are added, and reading stops once the response is whole or the peer
/// closed; a hang-up stops it when the head has come and fails it
/// otherwise; any other error fails it.
pub fn read_step(raw: &mut Vec<u8>, ev: ReadEvent) -> (s: ReadStep)
    ensures
        match ev {
            ReadEvent::Read(bytes) => {
                &&& final(raw)@ == old(raw)@ + bytes@
                &&& s == if bytes@.len() == 0 || complete_spec(final(raw)@) { ReadStep::Stop } else { ReadStep::More }
            },
            ReadEvent::Hangup => {
                &&& final(raw)@ == old(raw)@
                &&& s == if find_first(old(raw)@, head_end_bytes()) is Some { ReadStep::Stop } else { ReadStep::Fail }
            },
            ReadEvent::Failed => final(raw)@ == old(raw)@ && s == ReadStep::Fail,
        },
{
    match ev {
        ReadEvent::Read(bytes) => {
            if bytes.len() == 0 {
                return ReadStep::Stop;
            }
            let mut bytes = bytes;
            raw.append(&mut bytes);
            if response_complete(raw.as_slice()) {
                ReadStep::Stop
            } else {
                ReadStep::More
            }
        },
        ReadEvent::Hangup => {
            if head_received(raw.as_slice()) {
                ReadStep::Stop
            } else {
                ReadStep::Fail
            }
        },
        ReadEvent::Failed => ReadStep::Fail,
    }
}

} // verus!
