//! The messages between the conductor and its workers.

use vstd::prelude::*;

verus! {

/// "JDW\x01".
pub const MAGIC: u32 = 0x4A445701;

/// What a message is.
#[derive(Debug, Clone, Copy, PartialEq, Eq, Structural)]
pub enum MessageType {
    Ping,
    Pong,
    SetProject,
    ProjectOk,
    ClientRun,
    Sockets,
    QueryState,
    State,
    QueryClients,
    Clients,
    SoftExit,
    Ack,
    SyncClients,
    DropSession,
    Error,
}

/// Bytes that stand for a message other than an error.
pub open spec fn known(b: u8) -> bool {
    ||| b == 0x01 || b == 0x02
    ||| b == 0x10 || b == 0x11
    ||| b == 0x20 || b == 0x21
    ||| 0x30 <= b <= 0x33
    ||| b == 0x40 || b == 0x41
    ||| b == 0x50 || b == 0x51
}

impl MessageType {
    /// The byte that stands for this type.
    pub open spec fn byte(&self) -> u8 {
        match self {
            MessageType::Ping => 0x01,
            MessageType::Pong => 0x02,
            MessageType::SetProject => 0x10,
            MessageType::ProjectOk => 0x11,
            MessageType::ClientRun => 0x20,
            MessageType::Sockets => 0x21,
            MessageType::QueryState => 0x30,
            MessageType::State => 0x31,
            MessageType::QueryClients => 0x32,
            MessageType::Clients => 0x33,
            MessageType::SoftExit => 0x40,
            MessageType::Ack => 0x41,
            MessageType::SyncClients => 0x50,
            MessageType::DropSession => 0x51,
            MessageType::Error => 0xFF,
        }
    }

    /// The type that `b` stands for; any byte without a meaning is an error.
    pub fn from_u8(b: u8) -> (r: Self)
        ensures
            known(b) ==> r.byte() == b,
            r == MessageType::Error <==> !known(b),
    {
        match b {
            0x01 => MessageType::Ping,
            0x02 => MessageType::Pong,
            0x10 => MessageType::SetProject,
            0x11 => MessageType::ProjectOk,
            0x20 => MessageType::ClientRun,
            0x21 => MessageType::Sockets,
            0x30 => MessageType::QueryState,
            0x31 => MessageType::State,
            0x32 => MessageType::QueryClients,
            0x33 => MessageType::Clients,
            0x40 => MessageType::SoftExit,
            0x41 => MessageType::Ack,
            0x50 => MessageType::SyncClients,
            0x51 => MessageType::DropSession,
            _ => MessageType::Error,
        }
    }

    pub fn to_u8(self) -> (r: u8)
        ensures
            r == self.byte(),
    {
        match self {
            MessageType::Ping => 0x01,
            MessageType::Pong => 0x02,
            MessageType::SetProject => 0x10,
            MessageType::ProjectOk => 0x11,
            MessageType::ClientRun => 0x20,
            MessageType::Sockets => 0x21,
            MessageType::QueryState => 0x30,
            MessageType::State => 0x31,
            MessageType::QueryClients => 0x32,
            MessageType::Clients => 0x33,
            MessageType::SoftExit => 0x40,
            MessageType::Ack => 0x41,
            MessageType::SyncClients => 0x50,
            MessageType::DropSession => 0x51,
            MessageType::Error => 0xFF,
        }
    }
}

/// No two types share a byte, and every type but an error is known by its
/// byte: a type written and read again is the same.
pub proof fn law_message_bytes_distinct(a: MessageType, b: MessageType)
    ensures
        a.byte() == b.byte() ==> a == b,
        known(a.byte()) <==> a != MessageType::Error,
{
}

/// The flags of a client handed to a worker.
pub struct Flags(pub u8);

impl Flags {
    /// The lowest bit says that standard input is a terminal; the next one
    /// that the worker may not refuse the client.
    pub fn new(tty: bool, force: bool) -> (r: u8)
        ensures
            r == (if tty {
                1int
            } else {
                0
            }) + (if force {
                2int
            } else {
                0
            }),
    {
        let low: u8 = if tty {
            1
        } else {
            0
        };
        let high: u8 = if force {
            2
        } else {
            0
        };
        low + high
    }
}

} // verus!
