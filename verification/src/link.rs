//! When a connection is made, kept, dropped and closed.
//!
//! Whoever drives a [`Link`] does the networking; the link says what to do next.
//! A query that is cut short by its timeout reports nothing, and so leaves the
//! link as it was.

use vstd::prelude::*;

use crate::addr::Endpoint;
use crate::proto::Mode;

verus! {

/// What a connection is made of.
#[derive(Debug, Clone, Copy, PartialEq, Eq, Structural)]
pub enum Transport {
    /// A socket for each query, and nothing to keep.
    Udp,
    /// One TLS stream.
    Dot,
    /// An HTTP client with whatever connections it holds.
    Https,
    /// One QUIC connection.
    Doq,
}

/// What a query goes over.
#[derive(Debug, Clone, Copy, PartialEq, Eq, Structural)]
pub enum Via {
    /// A socket of its own.
    Socket,
    /// The connection that is kept.
    Kept,
    /// A connection that was made for this query alone.
    Fresh,
}

/// How a query begins.
#[derive(Debug, Clone, Copy, PartialEq, Eq, Structural)]
pub enum Start {
    /// A connection has to be made first.
    Connect,
    /// The query can be sent.
    Ask(Via),
}

/// What becomes of a connection.
#[derive(Debug, Clone, Copy, PartialEq, Eq, Structural)]
pub enum Fate {
    /// It stays as it is, or there is none.
    Stay,
    /// It is dropped.
    Drop,
    /// It is closed with a word to the peer, and dropped.
    Close,
}

/// The connection to one server, as far as it is known here.
#[derive(Debug, Clone, Copy, PartialEq, Eq, Structural)]
pub struct Link {
    pub transport: Transport,
    /// Whether there is a connection that later queries can go over.
    pub open: bool,
}

/// The transport that an endpoint is reached by.
pub open spec fn transport_of(endpoint: Endpoint) -> Transport {
    match endpoint {
        Endpoint::Udp(_) => Transport::Udp,
        Endpoint::Dot { .. } => Transport::Dot,
        Endpoint::Doh { .. } => Transport::Https,
        Endpoint::Doq { .. } => Transport::Doq,
    }
}

impl Link {
    /// How a query begins.
    pub open spec fn started(self, mode: Mode) -> Start {
        if self.transport == Transport::Udp {
            Start::Ask(Via::Socket)
        } else if mode == Mode::Cold || !self.open {
            Start::Connect
        } else {
            Start::Ask(Via::Kept)
        }
    }

    /// The link once an attempt to connect is over, and what the query then goes over, if anything.
    pub open spec fn after_connecting(self, mode: Mode, success: bool) -> (Link, Option<Via>) {
        if !success {
            (self, None)
        } else if mode == Mode::Cold {
            (self, Some(Via::Fresh))
        } else {
            (Link { transport: self.transport, open: true }, Some(Via::Kept))
        }
    }

    /// The link once a query is over, and what becomes of the connection that it went over.
    pub open spec fn after_asking(self, via: Via, success: bool) -> (Link, Fate) {
        match via {
            Via::Socket => (self, Fate::Stay),
            Via::Kept => if success {
                (self, Fate::Stay)
            } else {
                (Link { transport: self.transport, open: false }, Fate::Drop)
            },
            Via::Fresh => (
                self,
                if self.transport == Transport::Doq {
                    Fate::Close
                } else {
                    Fate::Drop
                },
            ),
        }
    }

    /// The link after a whole query, given whether a connection could be made, if
    /// one was needed, and whether the query then got a response.
    pub open spec fn after_query(self, mode: Mode, connects: bool, answers: bool) -> Link {
        match self.started(mode) {
            Start::Ask(via) => self.after_asking(via, answers).0,
            Start::Connect => {
                let (link, via) = self.after_connecting(mode, connects);
                match via {
                    Some(v) => link.after_asking(v, answers).0,
                    None => link,
                }
            },
        }
    }

    /// The link to a server that no query has been made to yet. An HTTP client is there from the start.
    pub fn new(endpoint: &Endpoint) -> (r: Link)
        ensures
            r.transport == transport_of(*endpoint),
            r.open == (endpoint is Doh),
    {
        match endpoint {
            Endpoint::Udp(_) => Link { transport: Transport::Udp, open: false },
            Endpoint::Dot { .. } => Link { transport: Transport::Dot, open: false },
            Endpoint::Doh { .. } => Link { transport: Transport::Https, open: true },
            Endpoint::Doq { .. } => Link { transport: Transport::Doq, open: false },
        }
    }

    /// How the next query begins.
    pub fn start(&self, mode: Mode) -> (r: Start)
        ensures
            r == self.started(mode),
    {
        if self.transport == Transport::Udp {
            Start::Ask(Via::Socket)
        } else if mode == Mode::Cold || !self.open {
            Start::Connect
        } else {
            Start::Ask(Via::Kept)
        }
    }

    /// Takes in whether a connection could be made, and says what the query then goes over.
    pub fn connected(&mut self, mode: Mode, success: bool) -> (r: Option<Via>)
        requires
            old(self).started(mode) == Start::Connect,
        ensures
            (*final(self), r) == old(self).after_connecting(mode, success),
    {
        if !success {
            None
        } else if mode == Mode::Cold {
            Some(Via::Fresh)
        } else {
            self.open = true;
            Some(Via::Kept)
        }
    }

    /// Takes in whether a query got a response, and says what becomes of the connection that it went over.
    pub fn asked(&mut self, via: Via, success: bool) -> (r: Fate)
        ensures
            (*final(self), r) == old(self).after_asking(via, success),
    {
        match via {
            Via::Socket => Fate::Stay,
            Via::Kept => {
                if success {
                    Fate::Stay
                } else {
                    self.open = false;
                    Fate::Drop
                }
            },
            Via::Fresh => {
                if self.transport == Transport::Doq {
                    Fate::Close
                } else {
                    Fate::Drop
                }
            },
        }
    }

    /// Gives up the connection that is kept, if there is one, and says how.
    pub fn close(&mut self) -> (r: Fate)
        ensures
            final(self).transport == old(self).transport,
            !final(self).open,
            r == (if !old(self).open {
                Fate::Stay
            } else if old(self).transport == Transport::Doq {
                Fate::Close
            } else {
                Fate::Drop
            }),
    {
        let was_open = self.open;
        self.open = false;
        if !was_open {
            Fate::Stay
        } else if self.transport == Transport::Doq {
            Fate::Close
        } else {
            Fate::Drop
        }
    }
}

// ---------------------------------------------------------------------------
// Laws
// ---------------------------------------------------------------------------

/// Plain UDP never connects, and reusing connections or not makes no difference to it.
pub proof fn udp_keeps_nothing(link: Link, connects: bool, answers: bool)
    requires
        link.transport == Transport::Udp,
    ensures
        link.started(Mode::Hot) == Start::Ask(Via::Socket),
        link.started(Mode::Cold) == Start::Ask(Via::Socket),
        link.after_query(Mode::Hot, connects, answers) == link,
        link.after_query(Mode::Cold, connects, answers) == link,
{
}

/// With connections made anew for each query, every query but a plain UDP one
/// connects, goes over its own connection, and leaves none behind.
pub proof fn cold_queries_connect_afresh(link: Link, connects: bool, answers: bool)
    requires
        link.transport != Transport::Udp,
    ensures
        link.started(Mode::Cold) == Start::Connect,
        link.after_connecting(Mode::Cold, true).1 == Some(Via::Fresh),
        link.after_asking(Via::Fresh, answers).1 != Fate::Stay,
        link.after_query(Mode::Cold, connects, answers) == link,
{
}

/// With connections reused, a query that got a response leaves a connection for the next one, which does not connect.
pub proof fn hot_queries_reuse(link: Link, connects: bool)
    requires
        link.transport != Transport::Udp,
        link.open || connects,
    ensures
        link.after_query(Mode::Hot, connects, true).started(Mode::Hot) == Start::Ask(Via::Kept),
{
}

/// With connections reused, any failed query leaves no connection: the next one begins with a handshake.
pub proof fn errors_drop_the_connection(link: Link, connects: bool)
    requires
        link.transport != Transport::Udp,
    ensures
        !link.after_query(Mode::Hot, connects, false).open,
        link.after_query(Mode::Hot, connects, false).started(Mode::Hot) == Start::Connect,
{
}

} // verus!
