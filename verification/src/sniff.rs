//! Transport sniffing and the VLESS handshake prefix.
//!
//! The listener peeks the first bytes of an accepted connection without
//! consuming them and classifies the transport; the raw-TCP bridge then
//! reads the 17-byte handshake whose tail is the client identifier.

use vstd::prelude::*;

verus! {

/// How many bytes the listener peeks.
pub const PEEK_LEN: usize = 14;

/// How many bytes the VLESS handshake prefix holds: one version byte
/// and sixteen identifier bytes.
pub const HANDSHAKE_LEN: usize = 17;

/// The three transports a connection can be dispatched to.
#[derive(PartialEq, Eq, Structural, Clone, Copy, Debug)]
pub enum Transport {
    /// An upgrade request: the WebSocket bridge.
    WebSocket,
    /// A plain HTTP method: the HTTP-framed bridge.
    Xhttp,
    /// Anything else: the raw TCP bridge.
    Tcp,
}

/// The byte values of `GET` and `POST`.
pub const B_G: u8 = 71;

pub const B_E: u8 = 69;

pub const B_T: u8 = 84;

pub const B_P: u8 = 80;

pub const B_O: u8 = 79;

pub const B_S: u8 = 83;

/// The dispatch decision for the peeked bytes: `GET` goes to the
/// WebSocket bridge, `POST` to the HTTP-framed bridge, anything else to
/// the raw TCP bridge.
pub open spec fn classify_spec(b: Seq<u8>) -> Transport {
    if b.len() >= 3 && b[0] == B_G && b[1] == B_E && b[2] == B_T {
        Transport::WebSocket
    } else if b.len() >= 4 && b[0] == B_P && b[1] == B_O && b[2] == B_S && b[3] == B_T {
        Transport::Xhttp
    } else {
        Transport::Tcp
    }
}

/// Classify the peeked bytes.
pub fn classify_connection(peek: &Vec<u8>) -> (t: Transport)
    ensures
        t == classify_spec(peek@),
{
    if peek.len() >= 3 && peek[0] == B_G && peek[1] == B_E && peek[2] == B_T {
        Transport::WebSocket
    } else if peek.len() >= 4 && peek[0] == B_P && peek[1] == B_O && peek[2] == B_S && peek[3]
        == B_T {
        Transport::Xhttp
    } else {
        Transport::Tcp
    }
}

/// Sniffing reads nothing past the peek window: two byte strings that
/// agree on their first bytes, up to the peek length, dispatch alike.
pub proof fn lemma_classify_peek_only(a: Seq<u8>, b: Seq<u8>)
    requires
        a.len() >= PEEK_LEN,
        b.len() >= PEEK_LEN,
        a.take(PEEK_LEN as int) == b.take(PEEK_LEN as int),
    ensures
        classify_spec(a) == classify_spec(b),
{
    assert(forall|i: int| 0 <= i < PEEK_LEN ==> #[trigger] a[i] == a.take(PEEK_LEN as int)[i]);
    assert(forall|i: int| 0 <= i < PEEK_LEN ==> #[trigger] b[i] == b.take(PEEK_LEN as int)[i]);
}

/// The proxy-facing handshake failures.
#[derive(PartialEq, Eq, Structural, Clone, Copy, Debug)]
pub enum HandshakeError {
    /// Fewer bytes than the handshake prefix needs, or none in time.
    HandshakeInvalid,
}

/// Split the handshake prefix: the version byte is ignored, the next
/// sixteen bytes are the client identifier.  Fewer than seventeen
/// bytes are an invalid handshake.
pub fn parse_handshake(data: &Vec<u8>) -> (r: Result<Vec<u8>, HandshakeError>)
    ensures
        match r {
            Ok(id) => data@.len() >= HANDSHAKE_LEN as int && id@ == data@.subrange(1, 17),
            Err(e) => data@.len() < HANDSHAKE_LEN as int && e == HandshakeError::HandshakeInvalid,
        },
{
    if data.len() < HANDSHAKE_LEN {
        return Err(HandshakeError::HandshakeInvalid);
    }
    let mut id: Vec<u8> = Vec::new();
    let mut i: usize = 1;
    while i < 17
        invariant
            1 <= i <= 17,
            data@.len() >= 17,
            id@ == data@.subrange(1, i as int),
        decreases 17 - i,
    {
        id.push(data[i]);
        proof {
            assert(id@ =~= data@.subrange(1, i + 1));
        }
        i = i + 1;
    }
    Ok(id)
}

} // verus!
