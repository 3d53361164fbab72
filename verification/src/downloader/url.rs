//! How a server URL of the form `http://host[:port][/path]` resolves to the
//! host, port and path of a download.
use vstd::prelude::*;
use crate::text::{
    free_of, is_digit, lemma_position_absent, lemma_position_found, parse_unsigned, position,
    starts_with, unsigned_digits,
};

verus! {

/// The port that a URL without a readable port stands for.
pub const DEFAULT_PORT: u16 = 80;

/// The largest port number.
pub const MAX_PORT: usize = 65535;

/// The scheme prefix that a URL may begin with.
pub open spec fn scheme() -> Seq<char> {
    "http://"@
}

/// The host that a URL without a host stands for.
pub open spec fn loopback() -> Seq<char> {
    "127.0.0.1"@
}

/// `url` without one leading scheme prefix, if it has one.
pub open spec fn strip_scheme(url: Seq<char>) -> Seq<char> {
    if starts_with(url, scheme()) {
        url.skip(scheme().len() as int)
    } else {
        url
    }
}

/// The authority of a URL without scheme: what stands before its first `/`.
pub open spec fn authority_of(rest: Seq<char>) -> Seq<char> {
    rest.take(position(rest, '/'))
}

/// The path of a URL without scheme: what stands after its first `/`, with a
/// `/` put back in front; `/` alone when there is no `/`.
pub open spec fn path_of(rest: Seq<char>) -> Seq<char> {
    let cut = position(rest, '/');
    if 0 <= cut < rest.len() {
        seq!['/'] + rest.skip(cut + 1)
    } else {
        seq!['/']
    }
}

/// The host of an authority: what stands before its first `:`, or the
/// loopback address when nothing stands there.
pub open spec fn host_of(authority: Seq<char>) -> Seq<char> {
    let name = authority.take(position(authority, ':'));
    if name.len() == 0 {
        loopback()
    } else {
        name
    }
}

/// The port that a port text stands for: its number, or 80 when it is not
/// the decimal form of a sixteen-bit number.
pub open spec fn port_from(text: Seq<char>) -> u16 {
    match parse_unsigned(text, MAX_PORT as nat) {
        Some(port) => port as u16,
        None => DEFAULT_PORT,
    }
}

/// The port of an authority: what stands after its first `:` read as a port
/// text, or 80 when there is no `:`.
pub open spec fn port_of(authority: Seq<char>) -> u16 {
    let colon = position(authority, ':');
    if 0 <= colon < authority.len() {
        port_from(authority.skip(colon + 1))
    } else {
        DEFAULT_PORT
    }
}

/// The host, port and path that `url` resolves to.
pub open spec fn resolve(url: Seq<char>) -> (Seq<char>, u16, Seq<char>) {
    let rest = strip_scheme(url);
    let authority = authority_of(rest);
    (host_of(authority), port_of(authority), path_of(rest))
}

/// A URL put together from its parts: an optional scheme, a host, an optional
/// `:` with a port text, and an optional `/` with the rest of a path.
pub open spec fn compose(
    with_scheme: bool,
    host: Seq<char>,
    port: Option<Seq<char>>,
    path: Option<Seq<char>>,
) -> Seq<char> {
    let prefix = if with_scheme {
        scheme()
    } else {
        Seq::empty()
    };
    let port_part = match port {
        Some(text) => seq![':'] + text,
        None => Seq::empty(),
    };
    let path_part = match path {
        Some(rest) => seq!['/'] + rest,
        None => Seq::empty(),
    };
    prefix + host + port_part + path_part
}

/// A URL put together from its parts resolves to those parts, and where a part
/// is left out, to its default: the loopback address for an empty host, port
/// 80 for a missing or unreadable port text, and `/` for a missing path.
///
/// The host may hold neither `/` nor `:`, and the port text no `/`; a URL put
/// together without scheme must not itself begin with the scheme.
pub proof fn lemma_resolve_composed(
    with_scheme: bool,
    host: Seq<char>,
    port: Option<Seq<char>>,
    path: Option<Seq<char>>,
)
    requires
        free_of(host, '/'),
        free_of(host, ':'),
        port matches Some(text) ==> free_of(text, '/'),
        !with_scheme ==> !starts_with(compose(with_scheme, host, port, path), scheme()),
    ensures
        resolve(compose(with_scheme, host, port, path)) == (
            if host.len() == 0 {
                loopback()
            } else {
                host
            },
            match port {
                Some(text) => port_from(text),
                None => DEFAULT_PORT,
            },
            match path {
                Some(rest) => seq!['/'] + rest,
                None => seq!['/'],
            },
        ),
{
    let url = compose(with_scheme, host, port, path);
    let port_part = match port {
        Some(text) => seq![':'] + text,
        None => Seq::empty(),
    };
    let path_part = match path {
        Some(rest) => seq!['/'] + rest,
        None => Seq::empty(),
    };
    let authority = host + port_part;
    let rest = authority + path_part;
    if with_scheme {
        assert(url == scheme() + rest);
        assert(url.take(scheme().len() as int) == scheme());
        assert(url.skip(scheme().len() as int) == rest);
    } else {
        assert(url == rest);
    }
    assert(strip_scheme(url) == rest);
    assert(free_of(authority, '/')) by {
        assert forall|i: int| 0 <= i < authority.len() implies #[trigger] authority[i] != '/' by {
            if i < host.len() {
                assert(authority[i] == host[i]);
            } else {
                let text = port->0;
                if i > host.len() {
                    assert(authority[i] == text[i - host.len() - 1]);
                }
            }
        }
    }
    match path {
        Some(tail) => {
            assert(rest == authority + seq!['/'] + tail);
            lemma_position_found(authority, '/', tail);
            assert(rest.take(authority.len() as int) == authority);
            assert(rest.skip(authority.len() as int + 1) == tail);
        },
        None => {
            assert(rest == authority);
            lemma_position_absent(rest, '/');
            assert(rest.take(rest.len() as int) == rest);
        },
    }
    assert(authority_of(rest) == authority);
    match port {
        Some(text) => {
            assert(authority == host + seq![':'] + text);
            lemma_position_found(host, ':', text);
            assert(authority.take(host.len() as int) == host);
            assert(authority.skip(host.len() as int + 1) == text);
        },
        None => {
            assert(authority == host);
            lemma_position_absent(authority, ':');
            assert(authority.take(authority.len() as int) == authority);
        },
    }
}

/// A URL of the form `http://h:p/q` resolves to exactly `h`, the number that
/// `p` denotes, and `/q`.
pub proof fn lemma_resolve_full(host: Seq<char>, port_text: Seq<char>, port: u16, rest: Seq<char>)
    requires
        host.len() > 0,
        free_of(host, '/'),
        free_of(host, ':'),
        parse_unsigned(port_text, MAX_PORT as nat) == Some(port as nat),
    ensures
        resolve(scheme() + host + seq![':'] + port_text + seq!['/'] + rest) == (
            host,
            port,
            seq!['/'] + rest,
        ),
{
    assert(free_of(port_text, '/')) by {
        assert forall|i: int| 0 <= i < port_text.len() implies #[trigger] port_text[i] != '/' by {
            let digits = unsigned_digits(port_text);
            if port_text[0] == '+' {
                if i > 0 {
                    assert(is_digit(digits[i - 1]));
                }
            } else {
                assert(is_digit(digits[i]));
            }
        }
    }
    lemma_resolve_composed(true, host, Some(port_text), Some(rest));
    assert(compose(true, host, Some(port_text), Some(rest)) == scheme() + host + seq![':']
        + port_text + seq!['/'] + rest);
}

} // verus!
