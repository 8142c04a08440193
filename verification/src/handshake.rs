//! Telling the request that asks for the game's socket from every other.
//!
//! A request is looked at as plain values: what its method and version are,
//! what three of its headers hold, and what it asks for.

use tokio_tungstenite::tungstenite::handshake::derive_accept_key;
use vstd::prelude::*;
use vstd::string::*;

verus! {

/// What `derive_accept_key` makes of the key that a client sent: the value
/// of the header that accepts the socket.
pub uninterp spec fn accept_key_of(key: Seq<u8>) -> Seq<char>;

/// Calls `tungstenite`'s `derive_accept_key`. The contract gives the result
/// its name, [`accept_key_of`], and claims no more of it.
#[verifier::external_body]
fn derive_accept(key: &[u8]) -> (r: String)
    ensures
        r@ == accept_key_of(key@),
{
    derive_accept_key(key)
}

/// What of a request decides whether it asks for the socket.
pub struct UpgradeRequest {
    /// The method is `GET`.
    pub is_get: bool,
    /// The version is HTTP/1.1 or a later one.
    pub http_11: bool,
    /// The `Connection` header, where it is there and is text.
    pub connection: Option<String>,
    /// The `Upgrade` header, where it is there and is text.
    pub upgrade: Option<String>,
    /// The `Sec-WebSocket-Version` header, where it is there and is text.
    pub version: Option<String>,
    /// The `Sec-WebSocket-Key` header, where it is there.
    pub key: Option<Vec<u8>>,
    /// What the request asks for.
    pub target: String,
}

/// A request as the contracts see it.
pub struct UpgradeRequestView {
    pub is_get: bool,
    pub http_11: bool,
    pub connection: Option<Seq<char>>,
    pub upgrade: Option<Seq<char>>,
    pub version: Option<Seq<char>>,
    pub key: Option<Seq<u8>>,
    pub target: Seq<char>,
}

impl View for UpgradeRequest {
    type V = UpgradeRequestView;

    open spec fn view(&self) -> UpgradeRequestView {
        UpgradeRequestView {
            is_get: self.is_get,
            http_11: self.http_11,
            connection: match self.connection {
                Some(text) => Some(text@),
                None => None,
            },
            upgrade: match self.upgrade {
                Some(text) => Some(text@),
                None => None,
            },
            version: match self.version {
                Some(text) => Some(text@),
                None => None,
            },
            key: match self.key {
                Some(bytes) => Some(bytes@),
                None => None,
            },
            target: self.target@,
        }
    }
}

/// A letter of `A` to `Z` as the small letter, any other character as it is.
pub open spec fn lowered(c: char) -> char {
    if 'A' <= c && c <= 'Z' {
        ((c as u8 + 32) as u8) as char
    } else {
        c
    }
}

/// The two texts are the same but for the case of the letters `A` to `Z`.
pub open spec fn same_ignoring_case(a: Seq<char>, b: Seq<char>) -> bool {
    &&& a.len() == b.len()
    &&& forall|i: int| 0 <= i < a.len() ==> lowered(#[trigger] a[i]) == lowered(b[i])
}

/// A space or a comma.
pub open spec fn is_separator(c: char) -> bool {
    c == ' ' || c == ','
}

/// The places `from..to` of `header` are one of the pieces into which spaces
/// and commas cut it: a separator or an end of the header on either side and
/// no separator within.
pub open spec fn is_piece(header: Seq<char>, from: int, to: int) -> bool {
    &&& 0 <= from <= to <= header.len()
    &&& from == 0 || is_separator(header[from - 1])
    &&& to == header.len() || is_separator(header[to])
    &&& forall|k: int| from <= k < to ==> !is_separator(#[trigger] header[k])
}

/// The places `from..to` of `header` are a piece that reads as `token`.
pub open spec fn piece_reads(header: Seq<char>, from: int, to: int, token: Seq<char>) -> bool {
    is_piece(header, from, to) && same_ignoring_case(header.subrange(from, to), token)
}

/// One of the pieces into which spaces and commas cut `header` is `token`,
/// but for the case of letters.
pub open spec fn names_token(header: Seq<char>, token: Seq<char>) -> bool {
    exists|from: int, to: int| #[trigger] piece_reads(header, from, to, token)
}

/// The request asks for the game's socket: it is a `GET` of `/socket` in
/// HTTP/1.1 or later, whose `Connection` header names `Upgrade`, whose
/// `Upgrade` header is `websocket`, whose `Sec-WebSocket-Version` is `13`,
/// and which brings a key.
pub open spec fn asks_for_socket(request: UpgradeRequestView) -> bool {
    &&& request.is_get
    &&& request.http_11
    &&& request.connection matches Some(header) && names_token(header, "Upgrade"@)
    &&& request.upgrade matches Some(header) && same_ignoring_case(header, "websocket"@)
    &&& request.version == Some("13"@)
    &&& request.key is Some
    &&& request.target == "/socket"@
}

fn lower(c: char) -> (r: char)
    ensures
        r == lowered(c),
{
    if 'A' <= c && c <= 'Z' {
        ((c as u8) + 32) as char
    } else {
        c
    }
}

fn chars_of(text: &str) -> (r: Vec<char>)
    ensures
        r@ == text@,
{
    let mut r: Vec<char> = Vec::new();
    for c in it: text.chars()
        invariant
            it.seq() == text@,
            r@ == text@.take(it.index()),
    {
        r.push(c);
        assert(text@.take(it.index() + 1) =~= text@.take(it.index()).push(c));
    }
    assert(text@.take(text@.len() as int) =~= text@);
    r
}

/// Whether the places `from..to` of `header` read as `token`.
fn reads_as(header: &Vec<char>, from: usize, to: usize, token: &Vec<char>) -> (r: bool)
    requires
        from <= to <= header@.len(),
    ensures
        r == same_ignoring_case(header@.subrange(from as int, to as int), token@),
{
    let ghost piece = header@.subrange(from as int, to as int);
    if to - from != token.len() {
        return false;
    }
    let mut at: usize = 0;
    while at < token.len()
        invariant
            from <= to <= header@.len(),
            to - from == token@.len(),
            at <= token@.len(),
            piece == header@.subrange(from as int, to as int),
            forall|i: int| 0 <= i < at ==> lowered(#[trigger] piece[i]) == lowered(token@[i]),
        decreases token@.len() - at,
    {
        assert(piece[at as int] == header@[from + at]);
        if lower(header[from + at]) != lower(token[at]) {
            return false;
        }
        at += 1;
    }
    true
}

/// Whether one of the pieces of `header` is `token`.
fn has_token(header: &Vec<char>, token: &Vec<char>) -> (r: bool)
    ensures
        r == names_token(header@, token@),
{
    let length = header.len();
    let mut start: usize = 0;
    let mut at: usize = 0;
    while at < length
        invariant
            length == header@.len(),
            start <= at <= length,
            start == 0 || is_separator(header@[start - 1]),
            forall|k: int| start <= k < at ==> !is_separator(#[trigger] header@[k]),
            forall|from: int, to: int|
                to < start ==> !#[trigger] piece_reads(header@, from, to, token@),
        decreases length - at,
    {
        let c = header[at];
        if c == ' ' || c == ',' {
            if reads_as(header, start, at, token) {
                assert(piece_reads(header@, start as int, at as int, token@));
                return true;
            }
            assert forall|from: int, to: int| to < at + 1 implies !#[trigger] piece_reads(
                header@,
                from,
                to,
                token@,
            ) by {
                if to >= start && is_piece(header@, from, to) {
                    lemma_piece_begins(header@, start as int, at as int, from, to);
                    if to < at {
                        assert(!is_separator(header@[to]));
                    }
                }
            }
            start = at + 1;
        }
        at += 1;
    }
    if reads_as(header, start, length, token) {
        assert(piece_reads(header@, start as int, length as int, token@));
        return true;
    }
    assert forall|from: int, to: int| !#[trigger] piece_reads(header@, from, to, token@) by {
        if to >= start && is_piece(header@, from, to) {
            lemma_piece_begins(header@, start as int, length as int, from, to);
            if to < length {
                assert(!is_separator(header@[to]));
            }
        }
    }
    false
}

/// A piece that ends at or behind a place where a piece begins, with no
/// separator from there up to `upto`, begins there too, if it ends by `upto`.
proof fn lemma_piece_begins(header: Seq<char>, start: int, upto: int, from: int, to: int)
    requires
        0 <= start <= upto <= header.len(),
        start == 0 || is_separator(header[start - 1]),
        forall|k: int| start <= k < upto ==> !is_separator(#[trigger] header[k]),
        is_piece(header, from, to),
        start <= to <= upto,
    ensures
        from == start,
{
    if from < start {
        assert(!is_separator(header[start - 1]));
    } else if from > start {
        assert(!is_separator(header[from - 1]));
    }
}

fn is_text(text: &str, wanted: &str) -> (r: bool)
    ensures
        r == (text@ == wanted@),
{
    String::from_str(text) == String::from_str(wanted)
}

/// Whether a request is anything but one that asks for the game's socket.
pub fn is_not_socket_request(request: &UpgradeRequest) -> (r: bool)
    ensures
        r == !asks_for_socket(request@),
{
    if !request.is_get || !request.http_11 {
        return true;
    }
    let names_upgrade = match &request.connection {
        Some(header) => has_token(&chars_of(header.as_str()), &chars_of("Upgrade")),
        None => false,
    };
    if !names_upgrade {
        return true;
    }
    let is_websocket = match &request.upgrade {
        Some(header) => {
            let header = chars_of(header.as_str());
            let wanted = chars_of("websocket");
            assert(header@.subrange(0, header@.len() as int) =~= header@);
            reads_as(&header, 0, header.len(), &wanted)
        },
        None => false,
    };
    if !is_websocket {
        return true;
    }
    let is_version_13 = match &request.version {
        Some(header) => is_text(header.as_str(), "13"),
        None => false,
    };
    !is_version_13 || request.key.is_none() || !is_text(request.target.as_str(), "/socket")
}

/// The value of the header that accepts the socket, for a request that asks
/// for it; nothing for any other request.
pub fn websocket_accept(request: &UpgradeRequest) -> (r: Option<String>)
    ensures
        match r {
            Some(accept) => asks_for_socket(request@) && accept@ == accept_key_of(request@.key->0),
            None => !asks_for_socket(request@),
        },
{
    if is_not_socket_request(request) {
        return None;
    }
    match &request.key {
        Some(key) => Some(derive_accept(key.as_slice())),
        None => None,
    }
}

} // verus!
