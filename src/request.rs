//! The decisions taken on an incoming request: which identity it belongs to,
//! which header text is kept, which reply it gets, and where a new visitor
//! is redirected.
use vstd::prelude::*;

verus! {

/// The port the service listens on.
pub const PORT: u16 = 8000;

/// The quiescence window between a record's creation and its export, in
/// milliseconds.
pub const EXPORT_DELAY_MS: u64 = 10000;

/// The length of a redirect token.
pub const TOKEN_LEN: usize = 16;

/// The characters a redirect token is drawn from.
pub const TOKEN_CHARSET: &'static str = "0123456789ABCDEF";

/// Text that stands for a header value or address that cannot be read.
pub const OPAQUE: &'static str = "opaque";

pub open spec fn opaque_text() -> Seq<char> {
    seq!['o', 'p', 'a', 'q', 'u', 'e']
}

pub open spec fn hex_digits() -> Seq<char> {
    seq!['0', '1', '2', '3', '4', '5', '6', '7', '8', '9', 'A', 'B', 'C', 'D', 'E', 'F']
}

/// The key by which a client acknowledges its redirect.
pub open spec fn ack_key() -> Seq<char> {
    seq!['3', '0', '8']
}

/// The path a new visitor is redirected to, before its token.
pub open spec fn redirect_prefix() -> Seq<char> {
    seq!['/', 's', 'o', 'm', 'e', '/', 'u', 'r', 'l', '/', '3', '0', '8', '=']
}

/// The host part of an address: the text before its first `:`.
pub open spec fn is_host_of(addr: Seq<char>, host: Seq<char>) -> bool {
    &&& host.len() <= addr.len()
    &&& host == addr.take(host.len() as int)
    &&& !host.contains(':')
    &&& host.len() < addr.len() ==> addr[host.len() as int] == ':'
}

/// The client identity of an address: its host part.
pub fn host_of(addr: &str) -> (r: String)
    ensures
        is_host_of(addr@, r@),
{
    let n = addr.unicode_len();
    let mut i: usize = 0;
    while i < n && addr.get_char(i) != ':'
        invariant
            n == addr@.len(),
            i <= n,
            forall|j: int| 0 <= j < i ==> addr@[j] != ':',
        decreases n - i,
    {
        i = i + 1;
    }
    let host = addr.substring_char(0, i).to_owned();
    assert(host@ =~= addr@.take(i as int));
    assert(!host@.contains(':')) by {
        assert forall|j: int| 0 <= j < host@.len() implies host@[j] != ':' by {
            assert(host@[j] == addr@[j]);
        }
    }
    host
}

/// The identity of a client whose remote address may be unknown.
pub fn client_identity(addr: Option<&str>) -> (r: String)
    ensures
        match addr {
            Some(a) => is_host_of(a@, r@),
            None => r@ == opaque_text(),
        },
{
    match addr {
        Some(a) => host_of(a),
        None => {
            proof { reveal_strlit("opaque"); }
            OPAQUE.to_owned()
        },
    }
}

/// The text kept for a header value: the value when it reads as text, else
/// a placeholder.
pub fn header_text(value: Option<&str>) -> (r: String)
    ensures
        match value {
            Some(v) => r@ == v@,
            None => r@ == opaque_text(),
        },
{
    match value {
        Some(v) => v.to_owned(),
        None => {
            proof { reveal_strlit("opaque"); }
            OPAQUE.to_owned()
        },
    }
}

/// The reply to a property report.
#[derive(Debug, Clone, Copy, PartialEq, Eq, Structural)]
pub enum Reply {
    /// The report acknowledged the redirect.
    BadRequest,
    /// Any other report; it keeps the browser from asking again.
    Gone,
}

/// The reply to a report of `key`; only the acknowledgement key differs.
pub fn reply_for(key: &str) -> (r: Reply)
    ensures
        r == (if key@ == ack_key() { Reply::BadRequest } else { Reply::Gone }),
{
    let k = key.to_owned();
    let ack = String::from_str("308");
    proof {
        reveal_strlit("308");
        assert(ack@ =~= ack_key());
    }
    if k.eq(&ack) {
        Reply::BadRequest
    } else {
        Reply::Gone
    }
}

/// The redirect target that embeds `token`.
pub fn redirect_location(token: &str) -> (r: String)
    ensures
        r@ == redirect_prefix() + token@,
{
    let mut r = String::from_str("/some/url/308=");
    proof {
        reveal_strlit("/some/url/308=");
        assert(r@ =~= redirect_prefix());
    }
    r.append(token);
    r
}

/// Relies on random_string::generate: a string of exactly `length`
/// characters, each drawn from `charset`; it panics on an empty charset.
#[verifier::external_body]
fn random_token(length: usize, charset: &str) -> (r: String)
    requires
        charset@.len() > 0,
    ensures
        r@.len() == length,
        forall|i: int| 0 <= i < r@.len() ==> charset@.contains(#[trigger] r@[i]),
{
    random_string::generate(length, charset)
}

/// A redirect target for a new visitor, with a fresh random hexadecimal
/// token of sixteen characters.
pub fn new_visitor_location() -> (r: String)
    ensures
        exists|token: Seq<char>|
            {
                &&& token.len() == 16
                &&& forall|i: int| 0 <= i < token.len() ==> hex_digits().contains(#[trigger] token[i])
                &&& r@ == redirect_prefix() + token
            },
{
    proof {
        reveal_strlit("0123456789ABCDEF");
        assert(TOKEN_CHARSET@ =~= hex_digits());
    }
    let token = random_token(TOKEN_LEN, TOKEN_CHARSET);
    redirect_location(token.as_str())
}

} // verus!
