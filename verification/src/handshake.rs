//! The HTTP upgrade handshake: parsing the client's request, checking the
//! headers that an upgrade to WebSocket needs, and building the response that
//! completes it.
//!
//! Requests and responses are byte strings. Header names and values are
//! compared byte for byte, so names are case-sensitive.

use crate::bytes::{contains, equal, find, first_occurrence, has_substring, matches_at, occurs_at};
use crate::bytes::lemma_first_occurrence;
use crate::primitives::{base64_encode, base64_of, sha1_digest, sha1_of};
use crate::primitives::MAX_SHA1_INPUT;
use vstd::prelude::*;
use vstd::slice::{slice_subrange, slice_to_vec};
use vstd::string::StringSliceAdditionalSpecFns;

verus! {

/// The verb that opens the request line.
pub const GET: &'static str = "GET";

/// The line terminator.
pub const CRLF: &'static str = "\r\n";

/// What stands between a header's name and its value.
pub const SEPARATOR: &'static str = ": ";

pub const UPGRADE: &'static str = "Upgrade";

pub const CONNECTION: &'static str = "Connection";

pub const VERSION: &'static str = "Sec-WebSocket-Version";

pub const KEY: &'static str = "Sec-WebSocket-Key";

/// The value that `Upgrade` must have.
pub const WEBSOCKET: &'static str = "websocket";

/// The only protocol version that is accepted.
pub const VERSION_13: &'static str = "13";

/// The identifier that the protocol appends to the client's key.
pub const GUID: &'static str = "258EAFA5-E914-47DA-95CA-C5AB0DC85B11";

/// The response up to the accept value.
pub const RESPONSE_HEAD: &'static str =
    "HTTP/1.1 101 Switching Protocols\r\nConnection: Upgrade\r\nUpgrade: websocket\r\nSec-WebSocket-Accept: ";

/// The end of the last header line and the blank line that ends the response.
pub const RESPONSE_TAIL: &'static str = "\r\n\r\n";

/// The longest key that can be hashed together with `GUID`.
pub const MAX_KEY_LEN: u64 = MAX_SHA1_INPUT - 36;

/// The longest request that `process_handshake` takes: any key in it can be
/// hashed.
pub const MAX_REQUEST_LEN: u64 = MAX_KEY_LEN;

/// Why a handshake was refused.
#[derive(Clone, Copy, Debug, PartialEq, Eq, Structural)]
pub enum HandshakeError {
    /// The request does not start with `GET`, or one of its header lines has
    /// no `": "`.
    MalformedHeader,
    /// `Upgrade` is absent or is not `websocket`.
    InvalidUpgrade,
    /// `Connection` is absent or does not contain `Upgrade`.
    InvalidConnection,
    /// `Sec-WebSocket-Version` is absent or is not `13`.
    UnsupportedVersion,
    /// `Sec-WebSocket-Key` is absent.
    MissingKey,
}

/// The bytes of a text.
pub open spec fn text(s: &str) -> Seq<u8> {
    s.spec_bytes()
}

/// The headers of a request: each name with its value.
pub type Headers = Map<Seq<u8>, Seq<u8>>;

/// The mapping that results from inserting the entries in order: of two
/// entries with one name the later one stays.
pub open spec fn header_map(entries: Seq<(Seq<u8>, Seq<u8>)>) -> Headers
    decreases entries.len(),
{
    if entries.len() == 0 {
        Map::empty()
    } else {
        header_map(entries.drop_last()).insert(entries.last().0, entries.last().1)
    }
}

/// A name maps to the value of the last entry that has it.
pub proof fn lemma_header_map_present(entries: Seq<(Seq<u8>, Seq<u8>)>, name: Seq<u8>, i: int)
    requires
        0 <= i < entries.len(),
        entries[i].0 == name,
        forall|j: int| i < j < entries.len() ==> entries[j].0 != name,
    ensures
        header_map(entries).contains_key(name),
        header_map(entries)[name] == entries[i].1,
    decreases entries.len(),
{
    if i < entries.len() - 1 {
        lemma_header_map_present(entries.drop_last(), name, i);
    }
}

/// A name that no entry has is not in the mapping.
pub proof fn lemma_header_map_absent(entries: Seq<(Seq<u8>, Seq<u8>)>, name: Seq<u8>)
    requires
        forall|j: int| 0 <= j < entries.len() ==> entries[j].0 != name,
    ensures
        !header_map(entries).contains_key(name),
    decreases entries.len(),
{
    if entries.len() > 0 {
        lemma_header_map_absent(entries.drop_last(), name);
    }
}

/// One header line as it was stored.
#[derive(Clone, Debug)]
struct Header {
    name: Vec<u8>,
    value: Vec<u8>,
}

/// The headers of an upgrade request. Its value is a mapping from name to
/// value; the order of insertion shows only in that a later value replaces an
/// earlier one of the same name.
#[derive(Clone, Debug)]
pub struct HttpUpgradeRequest {
    headers: Vec<Header>,
}

impl HttpUpgradeRequest {
    /// The stored lines, oldest first.
    spec fn entries(&self) -> Seq<(Seq<u8>, Seq<u8>)> {
        self.headers@.map_values(|h: Header| (h.name@, h.value@))
    }
}

impl View for HttpUpgradeRequest {
    type V = Headers;

    closed spec fn view(&self) -> Headers {
        header_map(self.entries())
    }
}

impl HttpUpgradeRequest {
    /// A request without headers.
    pub fn new() -> (request: HttpUpgradeRequest)
        ensures
            request@ == Map::<Seq<u8>, Seq<u8>>::empty(),
    {
        let request = HttpUpgradeRequest { headers: Vec::new() };
        assert(request.entries() =~= Seq::empty());
        request
    }

    /// Sets the value of `name`, replacing an earlier one.
    pub fn insert(&mut self, name: &[u8], value: &[u8])
        ensures
            final(self)@ == old(self)@.insert(name@, value@),
    {
        self.headers.push(Header { name: slice_to_vec(name), value: slice_to_vec(value) });
        assert(self.entries().drop_last() =~= old(self).entries());
        assert(self.entries().last() == (name@, value@));
    }

    /// The value of `name`, if the request has that header.
    pub fn get(&self, name: &[u8]) -> (value: Option<&[u8]>)
        ensures
            match value {
                Some(v) => self@.contains_key(name@) && self@[name@] == v@,
                None => !self@.contains_key(name@),
            },
    {
        let mut i: usize = self.headers.len();
        while i > 0
            invariant
                i <= self.headers@.len(),
                forall|j: int| i <= j < self.headers@.len() ==> self.entries()[j].0 != name@,
            decreases i,
        {
            i -= 1;
            if equal(self.headers[i].name.as_slice(), name) {
                proof {
                    lemma_header_map_present(self.entries(), name@, i as int);
                }
                return Some(self.headers[i].value.as_slice());
            }
        }
        proof {
            lemma_header_map_absent(self.entries(), name@);
        }
        None
    }
}

/// The header lines of a request: the lines that start at `from`, each ended
/// by `CRLF` or by the end of the input, up to the first empty one.
pub open spec fn header_lines(bytes: Seq<u8>, from: int) -> Seq<Seq<u8>>
    decreases bytes.len() + 2 - from,
{
    let end = first_occurrence(bytes, text(CRLF), from);
    if 0 <= from < end <= bytes.len() {
        seq![bytes.subrange(from, end)] + header_lines(bytes, end + 2)
    } else {
        Seq::empty()
    }
}

/// A header line split at its first `": "`, or `None` where it has none.
pub open spec fn split_header(line: Seq<u8>) -> Option<(Seq<u8>, Seq<u8>)> {
    let at = first_occurrence(line, text(SEPARATOR), 0);
    if at < line.len() {
        Some((line.subrange(0, at), line.subrange(at + 2, line.len() as int)))
    } else {
        None
    }
}

/// The header lines after the request line.
pub open spec fn request_header_lines(bytes: Seq<u8>) -> Seq<Seq<u8>> {
    header_lines(bytes, first_occurrence(bytes, text(CRLF), 0) + 2)
}

/// The request opens with `GET` and each of its header lines has a `": "`.
pub open spec fn is_well_formed(bytes: Seq<u8>) -> bool {
    &&& occurs_at(bytes, text(GET), 0)
    &&& forall|i: int|
        0 <= i < request_header_lines(bytes).len() ==> split_header(
            #[trigger] request_header_lines(bytes)[i],
        ) is Some
}

/// What parsing `bytes` gives: the headers of a well-formed request.
pub open spec fn parsed_request(bytes: Seq<u8>) -> Result<Headers, HandshakeError> {
    if is_well_formed(bytes) {
        Ok(
            header_map(
                request_header_lines(bytes).map_values(|line: Seq<u8>| split_header(line).unwrap()),
            ),
        )
    } else {
        Err(HandshakeError::MalformedHeader)
    }
}

/// `Upgrade` is there and is `websocket`, byte for byte.
pub open spec fn upgrade_is_websocket(headers: Headers) -> bool {
    headers.contains_key(text(UPGRADE)) && headers[text(UPGRADE)] == text(WEBSOCKET)
}

/// `Connection` is there and contains `Upgrade`.
pub open spec fn connection_has_upgrade(headers: Headers) -> bool {
    headers.contains_key(text(CONNECTION)) && contains(headers[text(CONNECTION)], text(UPGRADE))
}

/// `Sec-WebSocket-Version` is there and is `13`.
pub open spec fn version_is_13(headers: Headers) -> bool {
    headers.contains_key(text(VERSION)) && headers[text(VERSION)] == text(VERSION_13)
}

/// The four headers that a valid request must have.
pub open spec fn has_required_headers(headers: Headers) -> bool {
    &&& headers.contains_key(text(UPGRADE))
    &&& headers.contains_key(text(CONNECTION))
    &&& headers.contains_key(text(VERSION))
    &&& headers.contains_key(text(KEY))
}

/// What validating a set of headers gives. The checks are made in this order,
/// and the first that fails decides the error.
pub open spec fn validation(headers: Headers) -> Result<(), HandshakeError> {
    if !upgrade_is_websocket(headers) {
        Err(HandshakeError::InvalidUpgrade)
    } else if !connection_has_upgrade(headers) {
        Err(HandshakeError::InvalidConnection)
    } else if !version_is_13(headers) {
        Err(HandshakeError::UnsupportedVersion)
    } else if !headers.contains_key(text(KEY)) {
        Err(HandshakeError::MissingKey)
    } else {
        Ok(())
    }
}

/// The accept value for a client's key: the Base64 text of the SHA-1 digest
/// of the key followed by `GUID`.
pub open spec fn accept_value(key: Seq<u8>) -> Seq<u8> {
    base64_of(sha1_of(key + text(GUID)))
}

/// The response that carries `accept`.
pub open spec fn response_text(accept: Seq<u8>) -> Seq<u8> {
    text(RESPONSE_HEAD) + accept + text(RESPONSE_TAIL)
}

/// What a handshake request is answered with: the response for its key where
/// it parses and validates, else the first error met.
pub open spec fn handshake_response(bytes: Seq<u8>) -> Result<Seq<u8>, HandshakeError> {
    match parsed_request(bytes) {
        Err(e) => Err(e),
        Ok(headers) => match validation(headers) {
            Err(e) => Err(e),
            Ok(_) => Ok(response_text(accept_value(headers[text(KEY)]))),
        },
    }
}

/// A request without `Sec-WebSocket-Key` is never answered: nothing is sent
/// for it. Where it parses and its `Upgrade`, `Connection` and
/// `Sec-WebSocket-Version` pass their checks, which come first, it fails
/// with `MissingKey`.
pub proof fn lemma_missing_key_is_refused(bytes: Seq<u8>)
    requires
        parsed_request(bytes) matches Ok(headers) ==> !headers.contains_key(text(KEY)),
    ensures
        handshake_response(bytes) is Err,
        parsed_request(bytes) matches Ok(headers) ==> validation(headers) is Err,
        parsed_request(bytes) matches Ok(headers) ==> (upgrade_is_websocket(headers)
            && connection_has_upgrade(headers) && version_is_13(headers) ==> {
            &&& validation(headers) == Err::<(), HandshakeError>(HandshakeError::MissingKey)
            &&& handshake_response(bytes) == Err::<Seq<u8>, HandshakeError>(
                HandshakeError::MissingKey,
            )
        }),
{
}

/// A request that is answered has the four required headers, and its answer
/// is the response for its key.
pub proof fn lemma_answered_request_is_valid(bytes: Seq<u8>)
    requires
        handshake_response(bytes) is Ok,
    ensures
        parsed_request(bytes) matches Ok(headers) && has_required_headers(headers)
            && handshake_response(bytes) == Ok::<Seq<u8>, HandshakeError>(
            response_text(accept_value(headers[text(KEY)])),
        ),
{
}

/// `CRLF` and `SEPARATOR` are two bytes long, and `GUID` 36.
pub proof fn lemma_text_lengths()
    ensures
        text(CRLF).len() == 2,
        text(SEPARATOR).len() == 2,
        text(GUID).len() == 36,
{
    broadcast use vstd::string::is_ascii_spec_bytes;

    reveal_strlit("\r\n");
    reveal_strlit(": ");
    reveal_strlit("258EAFA5-E914-47DA-95CA-C5AB0DC85B11");
    assert(vstd::string::is_ascii(CRLF));
    assert(vstd::string::is_ascii(SEPARATOR));
    assert(vstd::string::is_ascii(GUID));
}

/// Parses the headers of an upgrade request.
///
/// Fails with `MalformedHeader` exactly when the request does not open with
/// `GET` or one of its header lines has no `": "`. No stored value is longer
/// than the request.
pub fn parse_request(bytes: &[u8]) -> (result: Result<HttpUpgradeRequest, HandshakeError>)
    ensures
        match result {
            Ok(request) => parsed_request(bytes@) == Ok::<Headers, HandshakeError>(request@),
            Err(e) => parsed_request(bytes@) == Err::<Headers, HandshakeError>(e),
        },
        result is Ok <==> is_well_formed(bytes@),
        result matches Ok(request) ==> forall|name: Seq<u8>| #[trigger]
            request@.contains_key(name) ==> request@[name].len() <= bytes@.len(),
{
    if !matches_at(bytes, GET.as_bytes(), 0) {
        return Err(HandshakeError::MalformedHeader);
    }
    proof {
        lemma_text_lengths();
        lemma_first_occurrence(bytes@, text(CRLF), 0);
    }
    let crlf = CRLF.as_bytes();
    let separator = SEPARATOR.as_bytes();
    let first_end = find(bytes, crlf, 0);
    let mut pos: usize = if bytes.len() - first_end < 2 {
        bytes.len()
    } else {
        first_end + 2
    };
    let mut request = HttpUpgradeRequest::new();
    let ghost split = |line: Seq<u8>| split_header(line).unwrap();
    let ghost mut done: Seq<Seq<u8>> = Seq::empty();
    assert(done.map_values(split) =~= Seq::empty());
    while pos < bytes.len()
        invariant
            pos <= bytes.len(),
            crlf@ == text(CRLF),
            separator@ == text(SEPARATOR),
            text(CRLF).len() == 2,
            text(SEPARATOR).len() == 2,
            split == |line: Seq<u8>| split_header(line).unwrap(),
            request_header_lines(bytes@) == done + header_lines(bytes@, pos as int),
            forall|i: int| 0 <= i < done.len() ==> split_header(#[trigger] done[i]) is Some,
            request@ == header_map(done.map_values(split)),
            forall|name: Seq<u8>| #[trigger]
                request@.contains_key(name) ==> request@[name].len() <= bytes@.len(),
        ensures
            header_lines(bytes@, pos as int) == Seq::<Seq<u8>>::empty(),
        decreases bytes.len() - pos,
    {
        let end = find(bytes, crlf, pos);
        proof {
            lemma_first_occurrence(bytes@, text(CRLF), pos as int);
        }
        if end == pos {
            break ;
        }
        let line = slice_subrange(bytes, pos, end);
        let at = find(line, separator, 0);
        proof {
            lemma_first_occurrence(line@, text(SEPARATOR), 0);
            assert(request_header_lines(bytes@)[done.len() as int] == line@);
        }
        if at >= line.len() {
            return Err(HandshakeError::MalformedHeader);
        }
        request.insert(slice_subrange(line, 0, at), slice_subrange(line, at + 2, line.len()));
        proof {
            assert(done.push(line@).map_values(split) =~= done.map_values(split).push(split(line@)));
            assert(done.push(line@).map_values(split).drop_last() =~= done.map_values(split));
            assert(done + header_lines(bytes@, pos as int) =~= done.push(line@) + header_lines(
                bytes@,
                end + 2,
            ));
            done = done.push(line@);
        }
        pos = if bytes.len() - end < 2 {
            bytes.len()
        } else {
            end + 2
        };
    }
    assert(request_header_lines(bytes@) =~= done);
    Ok(request)
}

/// Checks the headers that an upgrade needs, in the order `Upgrade`,
/// `Connection`, `Sec-WebSocket-Version`, `Sec-WebSocket-Key`; the first check
/// that fails decides the error.
///
/// A request without `Sec-WebSocket-Key` never passes, and fails with
/// `MissingKey` where the three checks before it pass.
pub fn validate(request: &HttpUpgradeRequest) -> (result: Result<(), HandshakeError>)
    ensures
        result == validation(request@),
        !request@.contains_key(text(KEY)) ==> result is Err,
        result is Ok ==> has_required_headers(request@),
{
    let upgrade_ok = match request.get(UPGRADE.as_bytes()) {
        Some(value) => equal(value, WEBSOCKET.as_bytes()),
        None => false,
    };
    if !upgrade_ok {
        return Err(HandshakeError::InvalidUpgrade);
    }
    let connection_ok = match request.get(CONNECTION.as_bytes()) {
        Some(value) => has_substring(value, UPGRADE.as_bytes()),
        None => false,
    };
    if !connection_ok {
        return Err(HandshakeError::InvalidConnection);
    }
    let version_ok = match request.get(VERSION.as_bytes()) {
        Some(value) => equal(value, VERSION_13.as_bytes()),
        None => false,
    };
    if !version_ok {
        return Err(HandshakeError::UnsupportedVersion);
    }
    if request.get(KEY.as_bytes()).is_none() {
        return Err(HandshakeError::MissingKey);
    }
    Ok(())
}

/// The accept value for a client's key.
pub fn accept_key(key: &[u8]) -> (accept: Vec<u8>)
    requires
        key@.len() <= MAX_KEY_LEN,
    ensures
        accept@ == accept_value(key@),
        accept@.len() == 28,
{
    proof {
        lemma_text_lengths();
    }
    let mut message = slice_to_vec(key);
    message.extend_from_slice(GUID.as_bytes());
    assert(message@ =~= key@ + text(GUID));
    let digest = sha1_digest(message.as_slice());
    base64_encode(digest.as_slice())
}

/// The response that completes the handshake with the given accept value:
/// the status line, the three headers and a blank line.
pub fn format_response(accept: &[u8]) -> (response: Vec<u8>)
    ensures
        response@ == response_text(accept@),
{
    let mut response = slice_to_vec(RESPONSE_HEAD.as_bytes());
    response.extend_from_slice(accept);
    response.extend_from_slice(RESPONSE_TAIL.as_bytes());
    assert(response@ =~= response_text(accept@));
    response
}

/// The response to a request that has a key. It depends on the key alone.
pub fn build_response(request: &HttpUpgradeRequest) -> (response: Vec<u8>)
    requires
        request@.contains_key(text(KEY)),
        request@[text(KEY)].len() <= MAX_KEY_LEN,
    ensures
        response@ == response_text(accept_value(request@[text(KEY)])),
{
    let key = request.get(KEY.as_bytes()).unwrap();
    let accept = accept_key(key);
    format_response(accept.as_slice())
}

/// Answers a handshake request: the bytes to send back, or the reason why the
/// connection has to be closed. Nothing is sent for a request that is
/// refused.
pub fn process_handshake(bytes: &[u8]) -> (result: Result<Vec<u8>, HandshakeError>)
    requires
        bytes@.len() <= MAX_REQUEST_LEN,
    ensures
        match result {
            Ok(response) => handshake_response(bytes@) == Ok::<Seq<u8>, HandshakeError>(response@),
            Err(e) => handshake_response(bytes@) == Err::<Seq<u8>, HandshakeError>(e),
        },
{
    let request = match parse_request(bytes) {
        Ok(request) => request,
        Err(e) => {
            return Err(e);
        },
    };
    match validate(&request) {
        Ok(_) => Ok(build_response(&request)),
        Err(e) => Err(e),
    }
}

} // verus!
