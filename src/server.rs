//! The single-page server: it owns one finished document and answers every
//! request with it. The socket work is left to the caller; this module holds
//! the server's lifecycle and the bytes of each answer.

use vstd::prelude::*;
use vstd::utf8::encode_utf8;
use crate::escape::push_char;

verus! {

/// Where a server stands in its lifecycle.
#[derive(Clone, Copy, Debug, PartialEq, Eq, Structural)]
pub enum ServerState {
    /// Made with its document; no listener yet.
    Created,
    /// A listener is bound and connections are accepted.
    Listening,
    /// The listener is closed for good.
    Stopped,
}

/// Why a server could not begin listening.
#[derive(Clone, Copy, Debug, PartialEq, Eq, Structural)]
pub enum ServerError {
    /// It is listening already.
    AlreadyListening,
    /// It has been shut down, which is final.
    Stopped,
}

/// The decimal digit for `d`, which is below ten.
pub open spec fn digit_char(d: nat) -> char {
    ((d % 10) + ('0' as nat)) as char
}

/// The decimal form of `n`, without leading zeros.
pub open spec fn decimal(n: nat) -> Seq<char>
    decreases n,
{
    if n < 10 {
        seq![digit_char(n)]
    } else {
        decimal(n / 10).push(digit_char(n % 10))
    }
}

/// Status line and headers before the length of the body.
pub const OK_HEAD: &'static str = "HTTP/1.1 200 OK\r\nContent-Type: text/html; charset=utf-8\r\nContent-Length: ";

/// Headers after the length of the body, up to the body.
pub const OK_TAIL: &'static str = "\r\nConnection: close\r\n\r\n";

/// The whole answer to a request that is not HTTP.
pub const BAD_REQUEST: &'static str = "HTTP/1.1 400 Bad Request\r\nContent-Length: 0\r\nConnection: close\r\n\r\n";

/// Status line and headers of the answer that carries a body of `len` bytes.
pub open spec fn ok_header(len: nat) -> Seq<char> {
    OK_HEAD@ + decimal(len) + OK_TAIL@
}

/// The bytes of the answer that carries `document`.
pub open spec fn ok_response_bytes(document: Seq<char>) -> Seq<u8> {
    encode_utf8(ok_header(encode_utf8(document).len())) + encode_utf8(document)
}

/// A byte that may stand in an HTTP token, and so in a method: an ASCII
/// letter of either case, a digit, or one of ``!#$%&'*+-.^_`|~``.
pub open spec fn is_method_byte(b: u8) -> bool {
    (65 <= b <= 90) || (97 <= b <= 122) || (48 <= b <= 57) || b == 33 || (35 <= b <= 39)
        || b == 42 || b == 43 || b == 45 || b == 46 || (94 <= b <= 96) || b == 124 || b == 126
}

/// `request` opens with a method (one or more token bytes) and a space
/// (byte 32).
pub open spec fn opens_with_method(request: Seq<u8>) -> bool {
    exists|n: int|
        0 < n < request.len() && request[n] == 32 && forall|i: int|
            0 <= i < n ==> is_method_byte(#[trigger] request[i])
}

/// The bytes that answer `request`, whatever path it names.
pub open spec fn response_to(document: Seq<char>, request: Seq<u8>) -> Seq<u8> {
    if opens_with_method(request) {
        ok_response_bytes(document)
    } else {
        encode_utf8(BAD_REQUEST@)
    }
}

/// The decimal digit for `d`.
fn digit(d: usize) -> (r: char)
    requires
        d < 10,
    ensures
        r == digit_char(d as nat),
{
    if d == 0 { '0' }
    else if d == 1 { '1' }
    else if d == 2 { '2' }
    else if d == 3 { '3' }
    else if d == 4 { '4' }
    else if d == 5 { '5' }
    else if d == 6 { '6' }
    else if d == 7 { '7' }
    else if d == 8 { '8' }
    else { '9' }
}

/// Appends the decimal form of `n` to `out`.
pub fn push_decimal(out: &mut String, n: usize)
    ensures
        final(out)@ == old(out)@ + decimal(n as nat),
    decreases n,
{
    if n >= 10 {
        push_decimal(out, n / 10);
    }
    push_char(out, digit(n % 10));
    assert(out@ =~= old(out)@ + decimal(n as nat));
}

/// Whether `b` may stand in a method.
pub fn is_token_byte(b: u8) -> (r: bool)
    ensures
        r == is_method_byte(b),
{
    (65 <= b && b <= 90) || (97 <= b && b <= 122) || (48 <= b && b <= 57) || b == 33 || (35 <= b
        && b <= 39) || b == 42 || b == 43 || b == 45 || b == 46 || (94 <= b && b <= 96) || b == 124
        || b == 126
}

/// Whether `request` opens with a method and a space, as an HTTP request does.
pub fn is_request(request: &[u8]) -> (r: bool)
    ensures
        r == opens_with_method(request@),
{
    let mut i: usize = 0;
    while i < request.len() && is_token_byte(request[i])
        invariant
            i <= request@.len(),
            forall|k: int| 0 <= k < i ==> is_method_byte(#[trigger] request@[k]),
        decreases request@.len() - i,
    {
        i = i + 1;
    }
    let r = 0 < i && i < request.len() && request[i] == 32;
    if !r {
        assert forall|n: int| !(0 < n < request@.len() && request@[n] == 32 && forall|k: int|
            0 <= k < n ==> is_method_byte(#[trigger] request@[k])) by {
            if 0 < n < request@.len() && request@[n] == 32 && forall|k: int|
                0 <= k < n ==> is_method_byte(#[trigger] request@[k]) {
                if n < i {
                    assert(is_method_byte(request@[n]));
                } else if n > i {
                    assert(is_method_byte(request@[i as int]));
                }
            }
        }
    }
    r
}

/// Serves one finished HTML document, the same to every request, from
/// construction until it is stopped.
pub struct StaticPageServer {
    document: String,
    state: ServerState,
}

impl StaticPageServer {
    /// The document served; it never changes.
    pub closed spec fn spec_document(&self) -> Seq<char> {
        self.document@
    }

    /// Where the server stands in its lifecycle.
    pub closed spec fn spec_state(&self) -> ServerState {
        self.state
    }

    /// A server for `document`, not listening yet.
    pub fn new(document: String) -> (r: StaticPageServer)
        ensures
            r.spec_document() == document@,
            r.spec_state() == ServerState::Created,
    {
        StaticPageServer { document, state: ServerState::Created }
    }

    /// The document served.
    pub fn document(&self) -> (r: &str)
        ensures
            r@ == self.spec_document(),
    {
        self.document.as_str()
    }

    /// Where the server stands in its lifecycle.
    pub fn state(&self) -> (r: ServerState)
        ensures
            r == self.spec_state(),
    {
        self.state
    }

    /// Whether connections are to be accepted now.
    pub fn accepts_connections(&self) -> (r: bool)
        ensures
            r == (self.spec_state() == ServerState::Listening),
    {
        self.state == ServerState::Listening
    }

    /// Records that a listener has been bound: a server that was only
    /// created now listens. A listening or stopped server is left as it is,
    /// with the error that says why.
    pub fn begin_listening(&mut self) -> (r: Result<(), ServerError>)
        ensures
            final(self).spec_document() == old(self).spec_document(),
            old(self).spec_state() == ServerState::Created ==> r is Ok
                && final(self).spec_state() == ServerState::Listening,
            old(self).spec_state() == ServerState::Listening ==> r == Err::<(), ServerError>(
                ServerError::AlreadyListening,
            ) && final(self).spec_state() == ServerState::Listening,
            old(self).spec_state() == ServerState::Stopped ==> r == Err::<(), ServerError>(
                ServerError::Stopped,
            ) && final(self).spec_state() == ServerState::Stopped,
    {
        match self.state {
            ServerState::Created => {
                self.state = ServerState::Listening;
                Ok(())
            },
            ServerState::Listening => Err(ServerError::AlreadyListening),
            ServerState::Stopped => Err(ServerError::Stopped),
        }
    }

    /// Stops the server for good. Stopping a stopped server changes nothing.
    pub fn shutdown(&mut self)
        ensures
            final(self).spec_state() == ServerState::Stopped,
            final(self).spec_document() == old(self).spec_document(),
    {
        self.state = ServerState::Stopped;
    }

    /// The bytes of the answer that carries the document: status 200, an
    /// HTML content type, the body's length, then the body.
    pub fn ok_response(&self) -> (r: Vec<u8>)
        ensures
            r@ == ok_response_bytes(self.spec_document()),
    {
        let body = self.document.as_str().as_bytes_vec();
        let mut head = String::new();
        head.append(OK_HEAD);
        push_decimal(&mut head, body.len());
        head.append(OK_TAIL);
        let mut r = head.as_str().as_bytes_vec();
        let mut body = body;
        r.append(&mut body);
        r
    }

    /// The bytes that answer `request`: the document for any request that
    /// opens as an HTTP request does, whatever its method or path; a short
    /// error for anything else.
    pub fn respond_to(&self, request: &[u8]) -> (r: Vec<u8>)
        ensures
            r@ == response_to(self.spec_document(), request@),
    {
        if is_request(request) {
            self.ok_response()
        } else {
            BAD_REQUEST.as_bytes_vec()
        }
    }
}

/// The encoding of two texts, one after the other, is the encoding of the
/// first followed by that of the second.
proof fn lemma_encode_concat(a: Seq<char>, b: Seq<char>)
    ensures
        encode_utf8(a + b) == encode_utf8(a) + encode_utf8(b),
    decreases a.len(),
{
    if a.len() == 0 {
        assert(a + b =~= b);
        assert(encode_utf8(a) + encode_utf8(b) =~= encode_utf8(b));
    } else {
        lemma_encode_concat(a.drop_first(), b);
        assert((a + b).drop_first() =~= a.drop_first() + b);
        assert((a + b)[0] == a[0]);
        assert(encode_utf8(a + b) =~= encode_utf8(a) + encode_utf8(b));
    }
}

/// Any HTTP request, whatever its method or path, is answered with status
/// 200, an HTML content type, the length of the body, and then the document
/// itself, byte for byte.
pub proof fn lemma_request_gets_document(document: Seq<char>, request: Seq<u8>)
    requires
        opens_with_method(request),
    ensures
        response_to(document, request) == encode_utf8(OK_HEAD@) + encode_utf8(
            decimal(encode_utf8(document).len()),
        ) + encode_utf8(OK_TAIL@) + encode_utf8(document),
{
    let len = encode_utf8(document).len();
    lemma_encode_concat(OK_HEAD@, decimal(len));
    lemma_encode_concat(OK_HEAD@ + decimal(len), OK_TAIL@);
}

/// Requests answered from one document, in any order or at once, all get
/// the same bytes: answering reads the document and never changes it.
pub proof fn lemma_same_answer_to_every_request(
    document: Seq<char>,
    first: Seq<u8>,
    second: Seq<u8>,
)
    requires
        opens_with_method(first),
        opens_with_method(second),
    ensures
        response_to(document, first) == response_to(document, second),
        response_to(document, first) == ok_response_bytes(document),
{
}

} // verus!
