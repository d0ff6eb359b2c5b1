//! The transport state machine: one TCP connection's host, port, timeout
//! and the slot for at most one live socket. Constructed disconnected; a
//! connect attempt either fills the slot or leaves it empty; write and read
//! demand a filled slot; disconnect clears it and is idempotent.
//!
//! The machine holds no socket itself: it decides which operation is
//! allowed next and how each outcome is reported, and the thin shell that
//! performs the blocking socket calls feeds the outcomes back in.

use vstd::prelude::*;
use vstd::string::*;
use vstd::utf8::decode_utf8;
use vstd::utf8::valid_utf8;
use crate::common::ClientError;
use crate::common::ClientErrorType;
use crate::text::chars_to_string;
use crate::text::dec_chars_u16;
use crate::text::dec_seq;
use crate::text::utf8_decode;

verus! {

/// How one connect attempt ended: the socket opened, the host and port
/// resolved to no address, or the connection timed out or was refused.
pub enum ConnectOutcome {
    Opened,
    NoAddress(String),
    Refused(String),
}

/// How writing the request bytes ended.
pub enum WriteOutcome {
    Written,
    WriteFailed,
}

/// How reading the reply to its end ended: the bytes the peer sent before
/// closing, or a read failure.
pub enum ReadOutcome {
    Data(Vec<u8>),
    ReadFailed,
}

/// The state machine of one TCP connection.
#[derive(Debug)]
pub struct TcpConnection {
    host: String,
    port: u16,
    connection_timeout: u64,
    connected: bool,
}

impl TcpConnection {
    /// The host this connection targets.
    pub closed spec fn spec_host(&self) -> Seq<char> {
        self.host@
    }

    /// The port this connection targets.
    pub closed spec fn spec_port(&self) -> u16 {
        self.port
    }

    /// The connect timeout in milliseconds.
    pub closed spec fn spec_timeout(&self) -> u64 {
        self.connection_timeout
    }

    /// True when the socket slot is filled.
    pub closed spec fn is_connected(&self) -> bool {
        self.connected
    }

    /// A connection to a host and port with a connect timeout in
    /// milliseconds, starting disconnected.
    pub fn new(host: String, port: u16, connection_timeout: u64) -> (r: TcpConnection)
        ensures
            r.spec_host() == host@,
            r.spec_port() == port,
            r.spec_timeout() == connection_timeout,
            !r.is_connected(),
    {
        TcpConnection { host, port, connection_timeout, connected: false }
    }

    /// True when no live socket is held.
    pub fn is_not_connected(&self) -> (r: bool)
        ensures
            r == !self.is_connected(),
    {
        !self.connected
    }

    /// The connect timeout in milliseconds.
    pub fn timeout_ms(&self) -> (r: u64)
        ensures
            r == self.spec_timeout(),
    {
        self.connection_timeout
    }

    /// The `host:port` string the socket address is resolved from.
    pub fn get_connect_str(&self) -> (r: String)
        ensures
            r@ == self.spec_host() + seq![':'] + dec_seq(self.spec_port() as nat),
    {
        let mut connect_str = String::new();
        connect_str.append(self.host.as_str());
        connect_str.append(":");
        let digits = dec_chars_u16(self.port);
        let port_str = chars_to_string(&digits);
        connect_str.append(port_str.as_str());
        proof {
            reveal_strlit(":");
            assert(":"@ =~= seq![':']);
            assert(connect_str@ =~= self.spec_host() + seq![':'] + dec_seq(
                self.spec_port() as nat,
            ));
        }
        connect_str
    }

    /// Applies the outcome of one connect attempt, allowed only while
    /// disconnected: on success the slot fills; failure to resolve the
    /// address reports `IncorrectSocketAddr`, a refused or timed-out
    /// connection reports `ConnectionFailure`, and both leave the machine
    /// disconnected.
    pub fn apply_connect(&mut self, outcome: ConnectOutcome) -> (r: Result<(), ClientError>)
        requires
            !old(self).is_connected(),
        ensures
            final(self).spec_host() == old(self).spec_host(),
            final(self).spec_port() == old(self).spec_port(),
            final(self).spec_timeout() == old(self).spec_timeout(),
            match outcome {
                ConnectOutcome::Opened => r is Ok && final(self).is_connected(),
                ConnectOutcome::NoAddress(m) => !final(self).is_connected() && (r matches Err(e)
                    && e.error_type == ClientErrorType::IncorrectSocketAddr && e.message == m),
                ConnectOutcome::Refused(m) => !final(self).is_connected() && (r matches Err(e)
                    && e.error_type == ClientErrorType::ConnectionFailure && e.message == m),
            },
    {
        match outcome {
            ConnectOutcome::Opened => {
                self.connected = true;
                Ok(())
            },
            ConnectOutcome::NoAddress(m) => Err(
                ClientError::new(ClientErrorType::IncorrectSocketAddr, m),
            ),
            ConnectOutcome::Refused(m) => Err(
                ClientError::new(ClientErrorType::ConnectionFailure, m),
            ),
        }
    }

    /// Decides whether a write may proceed: on a never-connected or
    /// disconnected machine it fails with `NoAvailableTcpStream`.
    pub fn check_write(&self) -> (r: Result<(), ClientError>)
        ensures
            self.is_connected() ==> r is Ok,
            !self.is_connected() ==> (r matches Err(e) && e.error_type
                == ClientErrorType::NoAvailableTcpStream && e.message@
                == "Could not retrieve tcp stream"@),
    {
        if self.connected {
            Ok(())
        } else {
            Err(
                ClientError::new(
                    ClientErrorType::NoAvailableTcpStream,
                    String::from_str("Could not retrieve tcp stream"),
                ),
            )
        }
    }

    /// Applies the outcome of the write that a passed [`Self::check_write`]
    /// allowed: a failed underlying write reports `WriteError`.
    pub fn apply_write(&self, outcome: WriteOutcome) -> (r: Result<(), ClientError>)
        requires
            self.is_connected(),
        ensures
            match outcome {
                WriteOutcome::Written => r is Ok,
                WriteOutcome::WriteFailed => r matches Err(e) && e.error_type
                    == ClientErrorType::WriteError && e.message@ == "Could not write data"@,
            },
    {
        match outcome {
            WriteOutcome::Written => Ok(()),
            WriteOutcome::WriteFailed => Err(
                ClientError::new(ClientErrorType::WriteError, String::from_str("Could not write data")),
            ),
        }
    }

    /// Decides whether a read may proceed: on a never-connected or
    /// disconnected machine it fails with `NoAvailableTcpStream`.
    pub fn check_read(&self) -> (r: Result<(), ClientError>)
        ensures
            self.is_connected() ==> r is Ok,
            !self.is_connected() ==> (r matches Err(e) && e.error_type
                == ClientErrorType::NoAvailableTcpStream && e.message@
                == "Could not retrieve tcp stream"@),
    {
        if self.connected {
            Ok(())
        } else {
            Err(
                ClientError::new(
                    ClientErrorType::NoAvailableTcpStream,
                    String::from_str("Could not retrieve tcp stream"),
                ),
            )
        }
    }

    /// Applies the outcome of the read that a passed [`Self::check_read`]
    /// allowed: the accumulated bytes must be valid UTF-8 text, which is
    /// returned; bytes that are not fail cleanly, and a failed underlying
    /// read reports the write-error kind, the closest kind the flat error
    /// set offers.
    pub fn apply_read(&self, outcome: ReadOutcome) -> (r: Result<String, ClientError>)
        requires
            self.is_connected(),
        ensures
            match outcome {
                ReadOutcome::Data(bytes) => {
                    if valid_utf8(bytes@) {
                        r matches Ok(s) && s@ == decode_utf8(bytes@)
                    } else {
                        r matches Err(e) && e.error_type == ClientErrorType::WriteError
                            && e.message@ == "Response is not valid utf-8"@
                    }
                },
                ReadOutcome::ReadFailed => r matches Err(e) && e.error_type
                    == ClientErrorType::WriteError && e.message@ == "Could not read data"@,
            },
    {
        match outcome {
            ReadOutcome::Data(bytes) => match utf8_decode(&bytes) {
                Some(cs) => Ok(chars_to_string(&cs)),
                None => Err(
                    ClientError::new(
                        ClientErrorType::WriteError,
                        String::from_str("Response is not valid utf-8"),
                    ),
                ),
            },
            ReadOutcome::ReadFailed => Err(
                ClientError::new(ClientErrorType::WriteError, String::from_str("Could not read data")),
            ),
        }
    }

    /// Clears the socket slot; allowed in either state and idempotent.
    pub fn disconnect(&mut self)
        ensures
            final(self).spec_host() == old(self).spec_host(),
            final(self).spec_port() == old(self).spec_port(),
            final(self).spec_timeout() == old(self).spec_timeout(),
            !final(self).is_connected(),
    {
        self.connected = false;
    }
}

} // verus!
