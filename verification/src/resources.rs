//! The files that the server hands out besides the game itself, and the
//! choice among them.

use vstd::prelude::*;
use vstd::string::*;

verus! {

/// The contents of the files, read once when the server starts.
pub struct StaticResource {
    pub homepage: Vec<u8>,
    pub javascript: Vec<u8>,
    pub empty_cell: Vec<u8>,
    pub x_cell: Vec<u8>,
    pub o_cell: Vec<u8>,
    pub css: Vec<u8>,
    pub favicon: Vec<u8>,
}

/// One of the files.
#[derive(PartialEq, Eq, Clone, Copy, Debug, Structural)]
pub enum Asset {
    Homepage,
    Javascript,
    EmptyCell,
    XCell,
    OCell,
    Css,
    Favicon,
}

/// The file that a request target names. A target that names none of the
/// others gets the homepage.
pub open spec fn asset_at(target: Seq<char>) -> Asset {
    if target == "/app.js"@ {
        Asset::Javascript
    } else if target == "/images/empty-cell.jpg"@ {
        Asset::EmptyCell
    } else if target == "/images/x-cell.jpg"@ {
        Asset::XCell
    } else if target == "/images/o-cell.jpg"@ {
        Asset::OCell
    } else if target == "/grid.css"@ {
        Asset::Css
    } else if target == "/images/favicon.png"@ {
        Asset::Favicon
    } else {
        Asset::Homepage
    }
}

/// The file that answers a request: the one that the target names where the
/// request is a `GET`, and the homepage else.
pub open spec fn routed(is_get: bool, target: Seq<char>) -> Asset {
    if is_get {
        asset_at(target)
    } else {
        Asset::Homepage
    }
}

/// The content type that is sent with a file. The homepage goes out without
/// one.
pub open spec fn content_type_of(asset: Asset) -> Option<Seq<char>> {
    match asset {
        Asset::Homepage => None,
        Asset::Javascript => Some("application/javascript"@),
        Asset::EmptyCell => Some("image/jpeg"@),
        Asset::XCell => Some("image/jpeg"@),
        Asset::OCell => Some("image/jpeg"@),
        Asset::Css => Some("text/css"@),
        Asset::Favicon => Some("image/png"@),
    }
}

fn is_text(target: &str, wanted: &str) -> (r: bool)
    ensures
        r == (target@ == wanted@),
{
    String::from_str(target) == String::from_str(wanted)
}

/// Chooses the file that answers a request.
pub fn route(is_get: bool, target: &str) -> (r: Asset)
    ensures
        r == routed(is_get, target@),
{
    if !is_get {
        Asset::Homepage
    } else if is_text(target, "/app.js") {
        Asset::Javascript
    } else if is_text(target, "/images/empty-cell.jpg") {
        Asset::EmptyCell
    } else if is_text(target, "/images/x-cell.jpg") {
        Asset::XCell
    } else if is_text(target, "/images/o-cell.jpg") {
        Asset::OCell
    } else if is_text(target, "/grid.css") {
        Asset::Css
    } else if is_text(target, "/images/favicon.png") {
        Asset::Favicon
    } else {
        Asset::Homepage
    }
}

/// The content type that is sent with a file.
pub fn content_type(asset: Asset) -> (r: Option<&'static str>)
    ensures
        match r {
            Some(name) => content_type_of(asset) == Some(name@),
            None => content_type_of(asset) is None,
        },
{
    match asset {
        Asset::Homepage => None,
        Asset::Javascript => Some("application/javascript"),
        Asset::EmptyCell => Some("image/jpeg"),
        Asset::XCell => Some("image/jpeg"),
        Asset::OCell => Some("image/jpeg"),
        Asset::Css => Some("text/css"),
        Asset::Favicon => Some("image/png"),
    }
}

impl StaticResource {
    /// The contents of a file.
    pub fn body(&self, asset: Asset) -> (r: &Vec<u8>)
        ensures
            *r == match asset {
                Asset::Homepage => self.homepage,
                Asset::Javascript => self.javascript,
                Asset::EmptyCell => self.empty_cell,
                Asset::XCell => self.x_cell,
                Asset::OCell => self.o_cell,
                Asset::Css => self.css,
                Asset::Favicon => self.favicon,
            },
    {
        match asset {
            Asset::Homepage => &self.homepage,
            Asset::Javascript => &self.javascript,
            Asset::EmptyCell => &self.empty_cell,
            Asset::XCell => &self.x_cell,
            Asset::OCell => &self.o_cell,
            Asset::Css => &self.css,
            Asset::Favicon => &self.favicon,
        }
    }
}

/// The port that the server listens on where none is set.
pub open spec fn port_or_default(port: Option<Seq<char>>) -> Seq<char> {
    match port {
        Some(port) => port,
        None => "8080"@,
    }
}

/// The address of the game's socket as the page is told it: the host that is
/// set, or this machine at the port, and the socket's path behind it.
pub open spec fn socket_endpoint(port: Seq<char>, socket_host: Option<Seq<char>>) -> Seq<char> {
    match socket_host {
        Some(host) => host + "/socket"@,
        None => "ws://127.0.0.1:"@ + port + "/socket"@,
    }
}

/// The address that the server listens on.
pub open spec fn listening_address(port: Seq<char>) -> Seq<char> {
    "0.0.0.0:"@ + port
}

/// The socket's address for the page, and the address to listen on, from the
/// port and the socket host that the environment sets.
pub fn addresses(port: Option<String>, socket_host: Option<String>) -> (r: (String, String))
    ensures
        r.0@ == socket_endpoint(
            port_or_default(
                match port {
                    Some(p) => Some(p@),
                    None => None,
                },
            ),
            match socket_host {
                Some(h) => Some(h@),
                None => None,
            },
        ),
        r.1@ == listening_address(
            port_or_default(
                match port {
                    Some(p) => Some(p@),
                    None => None,
                },
            ),
        ),
{
    let port = match port {
        Some(port) => port,
        None => String::from_str("8080"),
    };
    let mut js_socket_endpoint = match socket_host {
        Some(host) => host,
        None => {
            let mut fallback_endpoint = String::from_str("ws://127.0.0.1:");
            fallback_endpoint.append(port.as_str());
            fallback_endpoint
        },
    };
    js_socket_endpoint.append("/socket");
    let mut listening_addr = String::from_str("0.0.0.0:");
    listening_addr.append(port.as_str());
    (js_socket_endpoint, listening_addr)
}

} // verus!
