//! Sockets.
pub mod tcp;
pub mod udp;

use vstd::prelude::*;

verus! {

/// A socket of some protocol.
pub enum Socket {
    Udp(udp::Socket),
    Tcp(tcp::Socket),
}

/// A conversion trait for sockets of one protocol.
pub trait AnySocket: Sized {
    /// The socket, its protocol forgotten.
    spec fn any(self) -> Socket;

    /// The socket, its protocol remembered, where it is this one.
    spec fn from_any(socket: Socket) -> Option<Self>;

    /// Forgets the protocol.
    fn upcast(self) -> (r: Socket)
        ensures
            r == self.any(),
    ;

    /// Looks at a socket of this protocol.
    fn downcast(socket: &Socket) -> (r: Option<&Self>)
        ensures
            match r {
                Some(inner) => Self::from_any(*socket) == Some(*inner),
                None => Self::from_any(*socket) is None,
            },
    ;

    /// Gives access to a socket of this protocol.
    fn downcast_mut(socket: &mut Socket) -> (r: Option<&mut Self>)
        ensures
            match r {
                Some(inner) => {
                    &&& Self::from_any(*old(socket)) == Some(*inner)
                    &&& *final(socket) == (*final(inner)).any()
                },
                None => Self::from_any(*old(socket)) is None && *final(socket) == *old(socket),
            },
    ;
}

impl AnySocket for tcp::Socket {
    open spec fn any(self) -> Socket {
        Socket::Tcp(self)
    }

    open spec fn from_any(socket: Socket) -> Option<tcp::Socket> {
        match socket {
            Socket::Tcp(inner) => Some(inner),
            _ => None,
        }
    }

    fn upcast(self) -> (r: Socket) {
        Socket::Tcp(self)
    }

    fn downcast(socket: &Socket) -> (r: Option<&tcp::Socket>) {
        match socket {
            Socket::Tcp(inner) => Some(inner),
            _ => None,
        }
    }

    fn downcast_mut(socket: &mut Socket) -> (r: Option<&mut tcp::Socket>) {
        match socket {
            Socket::Tcp(inner) => Some(inner),
            _ => None,
        }
    }
}

impl AnySocket for udp::Socket {
    open spec fn any(self) -> Socket {
        Socket::Udp(self)
    }

    open spec fn from_any(socket: Socket) -> Option<udp::Socket> {
        match socket {
            Socket::Udp(inner) => Some(inner),
            _ => None,
        }
    }

    fn upcast(self) -> (r: Socket) {
        Socket::Udp(self)
    }

    fn downcast(socket: &Socket) -> (r: Option<&udp::Socket>) {
        match socket {
            Socket::Udp(inner) => Some(inner),
            _ => None,
        }
    }

    fn downcast_mut(socket: &mut Socket) -> (r: Option<&mut udp::Socket>) {
        match socket {
            Socket::Udp(inner) => Some(inner),
            _ => None,
        }
    }
}

} // verus!
