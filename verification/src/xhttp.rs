//! Identifier extraction for the HTTP-framed transport: the request
//! head is parsed by an outside parser, and the identifier is read from
//! the dedicated header first, else from the first path segment that is
//! one.

use vstd::prelude::*;

use crate::text::str_eq_ic_exec;
use crate::uuid::{format_uuid, is_uuid_text, parse_uuid_text, uuid_byte_of, uuid_str_of};

verus! {

/// The parsed request head: the path and the headers, values as the
/// wire carried them, read leniently as text.
pub struct HttpHead {
    pub path: String,
    pub headers: Vec<(String, String)>,
}

/// The views of a header list.
pub open spec fn headers_view(hs: Seq<(String, String)>) -> Seq<(Seq<char>, Seq<char>)> {
    hs.map_values(|h: (String, String)| (h.0@, h.1@))
}

/// What the outside parser yields for a byte string: the path and the
/// headers of a complete request head, or nothing.  The result depends
/// on the bytes alone.
pub uninterp spec fn parsed_head(b: Seq<u8>) -> Option<(Seq<char>, Seq<(Seq<char>, Seq<char>)>)>;

/// Relies on httparse's `Request::parse`: a complete request head
/// that fits the header table yields its path and headers; an
/// incomplete, malformed or oversized one yields nothing.  The
/// outcome is a function of the bytes alone.
#[verifier::external_body]
fn parse_http_head(buf: &Vec<u8>) -> (r: Option<HttpHead>)
    ensures
        match r {
            Some(h) => parsed_head(buf@) == Some((h.path@, headers_view(h.headers@))),
            None => parsed_head(buf@) is None,
        },
{
    let mut headers = [httparse::EMPTY_HEADER; 32];
    let mut req = httparse::Request::new(&mut headers);
    match req.parse(buf) {
        Ok(status) if status.is_complete() => {
            let path = req.path.unwrap_or("").to_owned();
            let hs = req
                .headers
                .iter()
                .map(|h| (h.name.to_owned(), String::from_utf8_lossy(h.value).into_owned()))
                .collect();
            Some(HttpHead { path, headers: hs })
        },
        _ => None,
    }
}

/// The name of the header that carries the identifier.
pub open spec fn uuid_header_name() -> Seq<char> {
    "X-UUID"@
}

/// Index of the first header whose name is the identifier header,
/// ASCII case aside, and whose value is a well-formed identifier.
pub open spec fn header_hit(hs: Seq<(Seq<char>, Seq<char>)>, k: int) -> bool {
    &&& 0 <= k < hs.len()
    &&& crate::text::str_eq_ic(hs[k].0, uuid_header_name())
    &&& is_uuid_text(hs[k].1)
}

/// A maximal slash-free run of the path.
pub open spec fn is_segment_at(p: Seq<char>, a: int, b: int) -> bool {
    &&& 0 <= a <= b <= p.len()
    &&& (a == 0 || p[a - 1] == '/')
    &&& (b == p.len() || p[b] == '/')
    &&& forall|i: int| a <= i < b ==> p[i] != '/'
}

/// The canonical text of the identifier some well-formed identifier
/// text encodes.
pub open spec fn canonical_of(texto: Seq<char>) -> Seq<char> {
    uuid_str_of(Seq::new(16, |k: int| uuid_byte_of(texto, k) as u8))
}

/// Search the headers for the identifier header.
fn procurar_header(headers: &Vec<(String, String)>) -> (r: Option<String>)
    ensures
        match r {
            Some(texto) => exists|k: int|
                #[trigger] header_hit(headers_view(headers@), k) && texto@ == canonical_of(
                    headers_view(headers@)[k].1,
                ),
            None => forall|k: int| !#[trigger] header_hit(headers_view(headers@), k),
        },
{
    let ghost hv = headers_view(headers@);
    let mut i: usize = 0;
    proof {
        assert(forall|k: int| 0 <= k < headers@.len() ==> #[trigger] hv[k] == (
        headers@[k].0@,
        headers@[k].1@,
        ));
    }
    while i < headers.len()
        invariant
            0 <= i <= headers@.len(),
            hv == headers_view(headers@),
            forall|k: int|
                0 <= k < headers@.len() ==> #[trigger] hv[k] == (headers@[k].0@, headers@[k].1@),
            forall|k: int| 0 <= k < i ==> !#[trigger] header_hit(hv, k),
        decreases headers@.len() - i,
    {
        if str_eq_ic_exec(headers[i].0.as_str(), "X-UUID") {
            match parse_uuid_text(headers[i].1.as_str()) {
                Some(bytes) => {
                    let texto = format_uuid(&bytes);
                    proof {
                        assert(header_hit(hv, i as int));
                        assert(Seq::new(16, |k: int| uuid_byte_of(hv[i as int].1, k) as u8)
                            =~= bytes@);
                    }
                    return Some(texto);
                },
                None => {},
            }
        }
        i = i + 1;
    }
    None
}

/// Search the path for a segment that is an identifier.
fn procurar_no_caminho(path: &str) -> (r: Option<String>)
    ensures
        match r {
            Some(texto) => exists|a: int, b: int|
                #[trigger] is_segment_at(path@, a, b) && is_uuid_text(path@.subrange(a, b))
                    && texto@ == canonical_of(path@.subrange(a, b)),
            None => forall|a: int, b: int|
                #[trigger] is_segment_at(path@, a, b) ==> !is_uuid_text(path@.subrange(a, b)),
        },
{
    let n = path.unicode_len();
    let mut inicio: usize = 0;
    let mut i: usize = 0;
    while i < n
        invariant
            0 <= inicio <= i <= n,
            n == path@.len(),
            inicio == 0 || (inicio >= 1 && path@[inicio as int - 1] == '/'),
            forall|k: int| inicio <= k < i ==> path@[k] != '/',
            forall|a: int, b: int|
                #[trigger] is_segment_at(path@, a, b) && a < inicio ==> !is_uuid_text(
                    path@.subrange(a, b),
                ),
        decreases n - i,
    {
        if path.get_char(i) == '/' {
            let seg = path.substring_char(inicio, i);
            proof {
                assert(is_segment_at(path@, inicio as int, i as int));
            }
            match parse_uuid_text(seg) {
                Some(bytes) => {
                    let texto = format_uuid(&bytes);
                    proof {
                        assert(seg@ == path@.subrange(inicio as int, i as int));
                        assert(Seq::new(
                            16,
                            |k: int| uuid_byte_of(path@.subrange(inicio as int, i as int), k) as u8,
                        ) =~= bytes@);
                    }
                    return Some(texto);
                },
                None => {
                    proof {
                        assert forall|a: int, b: int|
                            #[trigger] is_segment_at(path@, a, b) && a < i + 1 implies
                            !is_uuid_text(path@.subrange(a, b)) by {
                            if a >= inicio {
                                assert(a == inicio && b == i as int);
                            }
                        }
                    }
                },
            }
            inicio = i + 1;
        }
        i = i + 1;
    }
    let seg = path.substring_char(inicio, n);
    proof {
        assert(is_segment_at(path@, inicio as int, n as int));
    }
    match parse_uuid_text(seg) {
        Some(bytes) => {
            let texto = format_uuid(&bytes);
            proof {
                assert(seg@ == path@.subrange(inicio as int, n as int));
                assert(Seq::new(
                    16,
                    |k: int| uuid_byte_of(path@.subrange(inicio as int, n as int), k) as u8,
                ) =~= bytes@);
            }
            Some(texto)
        },
        None => {
            proof {
                assert forall|a: int, b: int| #[trigger] is_segment_at(path@, a, b) implies
                    !is_uuid_text(path@.subrange(a, b)) by {
                    if a >= inicio {
                        assert(a == inicio) by {
                            if a > inicio {
                                assert(path@[a - 1] == '/');
                            }
                        }
                        assert(b == n as int) by {
                            if b < n {
                                assert(path@[b] == '/');
                            }
                        }
                    }
                }
            }
            None
        },
    }
}

/// Extract the client identifier of an HTTP-framed connection from the
/// buffered request head: the dedicated header first, then the first
/// path segment that parses as one; nothing while the head is
/// incomplete or carries none.
pub fn parse_uuid_from_buf(buf: &Vec<u8>) -> (r: Option<String>)
    ensures
        match parsed_head(buf@) {
            None => r is None,
            Some(cabeca) => match r {
                Some(texto) => (exists|k: int|
                    #[trigger] header_hit(cabeca.1, k) && texto@ == canonical_of(
                        cabeca.1[k].1,
                    )) || ((forall|k: int| !#[trigger] header_hit(cabeca.1, k)) && exists|
                    a: int,
                    b: int,
                |
                    #[trigger] is_segment_at(cabeca.0, a, b) && is_uuid_text(
                        cabeca.0.subrange(a, b),
                    ) && texto@ == canonical_of(cabeca.0.subrange(a, b))),
                None => (forall|k: int| !#[trigger] header_hit(cabeca.1, k)) && (forall|
                    a: int,
                    b: int,
                |
                    #[trigger] is_segment_at(cabeca.0, a, b) ==> !is_uuid_text(
                        cabeca.0.subrange(a, b),
                    )),
            },
        },
{
    let cabeca = match parse_http_head(buf) {
        Some(c) => c,
        None => {
            return None;
        },
    };
    match procurar_header(&cabeca.headers) {
        Some(texto) => Some(texto),
        None => {
            let r2 = procurar_no_caminho(cabeca.path.as_str());
            proof {
                let cab = parsed_head(buf@)->0;
                assert(cab.0 == cabeca.path@);
                if r2 is Some {
                    let (a, b) = choose|a: int, b: int|
                        #[trigger] is_segment_at(cabeca.path@, a, b) && is_uuid_text(
                            cabeca.path@.subrange(a, b),
                        ) && r2->0@ == canonical_of(cabeca.path@.subrange(a, b));
                    assert(is_segment_at(cab.0, a, b) && is_uuid_text(cab.0.subrange(a, b))
                        && r2->0@ == canonical_of(cab.0.subrange(a, b)));
                }
            }
            r2
        },
    }
}

} // verus!
