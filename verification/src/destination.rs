//! Destinations of SSH connections in the OpenSSH notation
//! `ssh://[user@]hostname[:port]`.

use vstd::prelude::*;

use ssh2::Error as SshError;

use crate::text::{
    decimal, find_char, first_index, has_prefix, lemma_decimal, lemma_first_index,
    lemma_first_index_concat, lemma_parse_decimal_u16, parse_u16, parse_u16_spec, piece_before,
    second_piece, starts_with, text_after, to_decimal,
};

verus! {

#[verifier::external_type_specification]
#[verifier::external_body]
pub struct ExSshError(SshError);

/// An error of a connection.
#[derive(Debug)]
pub enum ConnectionError {
    ParseError(&'static str),
    Other(&'static str),
    Ssh(SshError),
}

impl ConnectionError {
    /// The text this error is shown with, when it is not an SSH error.
    pub open spec fn spec_message(&self) -> Option<Seq<char>> {
        match self {
            ConnectionError::ParseError(s) => Some("Connection Parsing Error: "@ + s@),
            ConnectionError::Other(s) => Some("Something went wrong: "@ + s@),
            ConnectionError::Ssh(_) => None,
        }
    }

    /// The text this error is shown with.
    pub fn message(&self) -> (m: String)
        ensures
            self.spec_message() matches Some(t) ==> m@ == t,
            self matches ConnectionError::Ssh(x) ==> vstd::string::to_string_from_display_ensures::<
                SshError,
            >(x, m),
    {
        match self {
            ConnectionError::ParseError(s) => {
                let mut m = String::from_str("Connection Parsing Error: ");
                m.append(s);
                m
            },
            ConnectionError::Other(s) => {
                let mut m = String::from_str("Something went wrong: ");
                m.append(s);
                m
            },
            ConnectionError::Ssh(e) => e.to_string(),
        }
    }
}

impl From<SshError> for ConnectionError {
    fn from(e: SshError) -> (r: ConnectionError) {
        ConnectionError::Ssh(e)
    }
}

impl vstd::std_specs::convert::FromSpecImpl<SshError> for ConnectionError {
    open spec fn obeys_from_spec() -> bool {
        true
    }

    open spec fn from_spec(e: SshError) -> ConnectionError {
        ConnectionError::Ssh(e)
    }
}

/// Code representation of the OpenSSH definition of a destination
/// (`ssh://[user@]hostname[:port]`).
#[derive(Debug)]
pub struct Destination {
    pub hostname: String,
    pub username: String,
    pub port: u16,
}

pub struct DestinationView {
    pub hostname: Seq<char>,
    pub username: Seq<char>,
    pub port: u16,
}

impl View for Destination {
    type V = DestinationView;

    open spec fn view(&self) -> DestinationView {
        DestinationView { hostname: self.hostname@, username: self.username@, port: self.port }
    }
}

/// `s` without a leading `ssh://`.
pub open spec fn without_scheme(s: Seq<char>) -> Seq<char> {
    if has_prefix(s, "ssh://"@) {
        s.subrange("ssh://"@.len() as int, s.len() as int)
    } else {
        s
    }
}

/// The destination that a connection string names. The user is the text
/// before the first `@` (`root` when there is no `@`), the host the text up to
/// the next `@`; the hostname is the host up to its first `:`, the port the
/// text after it up to the next `:` (22 when there is no `:`). `None` where the
/// port is no number that fits in a `u16`.
pub open spec fn parse_destination(s: Seq<char>) -> Option<DestinationView> {
    let s0 = without_scheme(s);
    let username = match second_piece(s0, '@') {
        Some(_) => piece_before(s0, '@'),
        None => "root"@,
    };
    let host = match second_piece(s0, '@') {
        Some(h) => h,
        None => s0,
    };
    let hostname = piece_before(host, ':');
    match second_piece(host, ':') {
        None => Some(DestinationView { hostname, username, port: 22 }),
        Some(p) => match parse_u16_spec(p) {
            Some(port) => Some(DestinationView { hostname, username, port }),
            None => None,
        },
    }
}

/// `user@hostname:port`.
pub open spec fn display_destination(d: DestinationView) -> Seq<char> {
    d.username + "@"@ + d.hostname + ":"@ + decimal(d.port as nat)
}

/// The text of `s` from `from` up to its first `c` at or after `from`.
fn piece_from(s: &str, from: usize, c: char) -> (r: (String, Option<usize>))
    requires
        from <= s@.len(),
    ensures
        r.0@ == piece_before(s@.subrange(from as int, s@.len() as int), c),
        r.1 is None <==> text_after(s@.subrange(from as int, s@.len() as int), c) is None,
        r.1 matches Some(k) ==> k <= s@.len() && s@.subrange(k as int, s@.len() as int) == text_after(s@.subrange(from as int, s@.len() as int), c)->0,
{
    let len = s.unicode_len();
    let rest = s.substring_char(from, len);
    match find_char(rest, c) {
        Some(i) => {
            proof {
                assert(s@.subrange(from + i + 1, len as int) =~= rest@.subrange(i + 1, rest@.len() as int));
            }
            (String::from_str(rest.substring_char(0, i)), Some(from + i + 1))
        },
        None => (String::from_str(rest), None),
    }
}

impl Destination {
    /// Parses connection strings like `ssh://username@hostname:port`;
    /// `None` where the port is not a valid `u16`.
    pub fn try_parse(s: &str) -> (r: Option<Destination>)
        ensures
            r is None <==> parse_destination(s@) is None,
            r matches Some(d) ==> parse_destination(s@) == Some(d@),
    {
        proof {
            reveal_strlit("ssh://");
            reveal_strlit("root");
        }
        let len = s.unicode_len();
        let start: usize = if starts_with(s, "ssh://") { 6 } else { 0 };
        let ghost s0 = without_scheme(s@);
        assert(s0 =~= s@.subrange(start as int, len as int));
        let (first, after_at) = piece_from(s, start, '@');
        let (username, host_start) = match after_at {
            Some(k) => (first, k),
            None => (String::from_str("root"), start),
        };
        let ghost host = match second_piece(s0, '@') {
            Some(h) => h,
            None => s0,
        };
        proof {
            match after_at {
                Some(k) => {
                    let t = s@.subrange(k as int, len as int);
                    assert(second_piece(s0, '@') == Some(piece_before(t, '@')));
                },
                None => {},
            }
        }
        let (host_text, _) = piece_from(s, host_start, '@');
        assert(host_text@ == host) by {
            match after_at {
                Some(k) => {},
                None => {
                    lemma_first_index(s0, '@');
                    assert(piece_before(s0, '@') =~= s0);
                },
            }
        }
        let (hostname, after_colon) = piece_from(host_text.as_str(), 0, ':');
        assert(host_text@.subrange(0, host_text@.len() as int) =~= host_text@);
        match after_colon {
            None => Some(Destination { hostname, username, port: 22 }),
            Some(k) => {
                let (port_text, _) = piece_from(host_text.as_str(), k, ':');
                match parse_u16(port_text.as_str()) {
                    Some(port) => Some(Destination { hostname, username, port }),
                    None => None,
                }
            },
        }
    }

    /// Parses connection strings like `ssh://username@hostname:port`.
    pub fn from_str(s: &str) -> (r: Result<Destination, ConnectionError>)
        requires
            parse_destination(s@) is Some,
        ensures
            r matches Ok(d) && parse_destination(s@) == Some(d@),
    {
        match Destination::try_parse(s) {
            Some(d) => Ok(d),
            None => Err(ConnectionError::ParseError("Invalid port")),
        }
    }

    /// The destination as `user@hostname:port`.
    pub fn to_string(&self) -> (s: String)
        ensures
            s@ == display_destination(self@),
    {
        let mut s = self.username.clone();
        s.append("@");
        s.append(self.hostname.as_str());
        s.append(":");
        let port = to_decimal(self.port as u64);
        s.append(port.as_str());
        s
    }
}

/// Where a connection string points: the user (`root` when none is given),
/// the address to connect to (`host[:port]`), and the host name in it.
pub struct ConnectTarget {
    pub user: String,
    pub address: String,
    pub hostname: String,
}

/// The user of a connection string: the text before its first `@`, or
/// `root` when it has none.
pub open spec fn target_user(s: Seq<char>) -> Seq<char> {
    let s0 = without_scheme(s);
    match second_piece(s0, '@') {
        Some(_) => piece_before(s0, '@'),
        None => "root"@,
    }
}

/// The host part of a connection string: the text between its first and
/// second `@`, or all of it when it has no `@`.
pub open spec fn target_host(s: Seq<char>) -> Seq<char> {
    let s0 = without_scheme(s);
    match second_piece(s0, '@') {
        Some(h) => h,
        None => s0,
    }
}

/// The address to connect to: the host part, with the SSH port `:22` added
/// when it names no port.
pub open spec fn target_address(s: Seq<char>) -> Seq<char> {
    let h = target_host(s);
    if first_index(h, ':') < h.len() {
        h
    } else {
        h + ":22"@
    }
}

/// Splits a connection string `ssh://[user@]host[:port]` into user,
/// address (`host:port`, port 22 when none is given) and host name.
pub fn connect_target(destination: &str) -> (t: ConnectTarget)
    ensures
        t.user@ == target_user(destination@),
        t.address@ == target_address(destination@),
        t.hostname@ == piece_before(target_host(destination@), ':'),
{
    proof {
        reveal_strlit("ssh://");
        reveal_strlit("root");
        reveal_strlit(":22");
    }
    let len = destination.unicode_len();
    let start: usize = if starts_with(destination, "ssh://") { 6 } else { 0 };
    let ghost s0 = without_scheme(destination@);
    assert(s0 =~= destination@.subrange(start as int, len as int));
    let (first, after_at) = piece_from(destination, start, '@');
    let (user, host_start) = match after_at {
        Some(k) => (first, k),
        None => (String::from_str("root"), start),
    };
    proof {
        match after_at {
            Some(k) => {
                let t = destination@.subrange(k as int, len as int);
                assert(second_piece(s0, '@') == Some(piece_before(t, '@')));
            },
            None => {},
        }
    }
    let (host, _) = piece_from(destination, host_start, '@');
    assert(host@ == target_host(destination@)) by {
        match after_at {
            Some(k) => {},
            None => {
                lemma_first_index(s0, '@');
                assert(piece_before(s0, '@') =~= s0);
            },
        }
    }
    let (hostname, _) = piece_from(host.as_str(), 0, ':');
    assert(host@.subrange(0, host@.len() as int) =~= host@);
    let mut address = host.clone();
    if find_char(host.as_str(), ':').is_none() {
        address.append(":22");
    }
    ConnectTarget { user, address, hostname }
}

/// Writing a destination and parsing what was written gives the destination
/// back, when its user holds no `@` and does not begin with `ssh://`, and its
/// hostname holds neither `@` nor `:`.
pub proof fn destination_round_trip(d: DestinationView)
    requires
        forall|i: int| 0 <= i < d.username.len() ==> d.username[i] != '@',
        !has_prefix(d.username, "ssh://"@),
        forall|i: int| 0 <= i < d.hostname.len() ==> d.hostname[i] != '@' && d.hostname[i] != ':',
    ensures
        parse_destination(display_destination(d)) == Some(d),
{
    reveal_strlit("ssh://");
    reveal_strlit("@");
    reveal_strlit(":");
    let u = d.username;
    let h = d.hostname;
    let p = decimal(d.port as nat);
    lemma_decimal(d.port as nat);
    lemma_parse_decimal_u16(d.port);
    let s = display_destination(d);
    let rest = h + ":"@ + p;
    assert(s =~= u + ("@"@ + rest));
    // No scheme to strip.
    if has_prefix(s, "ssh://"@) {
        if u.len() >= 6 {
            assert(u.subrange(0, 6) =~= s.subrange(0, 6));
        } else {
            assert(s[u.len() as int] == '@');
            assert(s.subrange(0, 6)[u.len() as int] == "ssh://"@[u.len() as int]);
        }
    }
    assert(without_scheme(s) == s);
    // The user ends at the first `@`.
    lemma_first_index_concat(u, "@"@ + rest, '@');
    assert(first_index(s, '@') == u.len());
    assert(piece_before(s, '@') =~= u);
    assert(s.subrange(u.len() as int + 1, s.len() as int) =~= rest);
    // The rest holds no `@`.
    assert forall|j: int| 0 <= j < p.len() implies p[j] != '@' && p[j] != ':' by {
        assert(crate::text::is_digit(p[j]));
    }
    assert forall|j: int| 0 <= j < rest.len() implies rest[j] != '@' by {
        if j < h.len() {
            assert(rest[j] == h[j]);
        } else if j > h.len() {
            assert(rest[j] == p[j - h.len() - 1]);
        }
    }
    crate::text::lemma_first_index_at(rest, '@', rest.len() as int);
    assert(piece_before(rest, '@') =~= rest);
    // The hostname ends at the first `:`.
    assert(rest =~= h + (":"@ + p));
    lemma_first_index_concat(h, ":"@ + p, ':');
    assert(piece_before(rest, ':') =~= h);
    assert(rest.subrange(h.len() as int + 1, rest.len() as int) =~= p);
    crate::text::lemma_first_index_at(p, ':', p.len() as int);
    assert(piece_before(p, ':') =~= p);
}

/// The scheme is optional: a connection string that does not begin with
/// `ssh://` names the same destination with `ssh://` in front of it.
pub proof fn scheme_is_optional(t: Seq<char>)
    requires
        !has_prefix(t, "ssh://"@),
    ensures
        parse_destination("ssh://"@ + t) == parse_destination(t),
{
    reveal_strlit("ssh://");
    let s = "ssh://"@ + t;
    assert(s.subrange(0, 6) =~= "ssh://"@);
    assert(has_prefix(s, "ssh://"@));
    assert(s.subrange(6, s.len() as int) =~= t);
    assert(without_scheme(s) == t);
    assert(without_scheme(t) == t);
}

/// A bare host name, with or without the scheme, names the user `root`, that
/// host and the SSH port 22.
pub proof fn bare_host_defaults(h: Seq<char>)
    requires
        forall|i: int| 0 <= i < h.len() ==> h[i] != '@' && h[i] != ':',
    ensures
        parse_destination(h) == Some(DestinationView { hostname: h, username: "root"@, port: 22 }),
        parse_destination("ssh://"@ + h) == Some(DestinationView { hostname: h, username: "root"@, port: 22 }),
{
    reveal_strlit("ssh://");
    if has_prefix(h, "ssh://"@) {
        assert(h.subrange(0, 6)[3] == "ssh://"@[3]);
        assert(h[3] == ':');
    }
    assert(without_scheme(h) == h);
    crate::text::lemma_first_index_at(h, '@', h.len() as int);
    crate::text::lemma_first_index_at(h, ':', h.len() as int);
    assert(h.subrange(0, h.len() as int) =~= h);
    scheme_is_optional(h);
}

/// Writing a destination back and parsing it, with the scheme in front,
/// gives the destination back, when its user holds no `@` and does not begin
/// with `ssh://`, and its hostname holds neither `@` nor `:`.
pub proof fn destination_round_trip_with_scheme(d: DestinationView)
    requires
        forall|i: int| 0 <= i < d.username.len() ==> d.username[i] != '@',
        !has_prefix(d.username, "ssh://"@),
        forall|i: int| 0 <= i < d.hostname.len() ==> d.hostname[i] != '@' && d.hostname[i] != ':',
    ensures
        parse_destination("ssh://"@ + display_destination(d)) == Some(d),
{
    reveal_strlit("ssh://");
    destination_round_trip(d);
    let s = display_destination(d);
    if has_prefix(s, "ssh://"@) {
        // The written form begins with the user, which does not begin with
        // the scheme, and the user is followed by `@`.
        reveal_strlit("@");
        assert(s =~= d.username + ("@"@ + (d.hostname + ":"@ + decimal(d.port as nat))));
        if d.username.len() >= 6 {
            assert(d.username.subrange(0, 6) =~= s.subrange(0, 6));
        } else {
            assert(s[d.username.len() as int] == '@');
            assert(s.subrange(0, 6)[d.username.len() as int] == "ssh://"@[d.username.len() as int]);
        }
    }
    scheme_is_optional(s);
}

} // verus!
