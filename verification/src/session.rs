//! Per-connection session logic: the one-shot authentication handshake
//! followed by the command loop, as a state machine over the bytes read.
//! The surrounding I/O loop performs each returned action and hands the
//! next chunk back in.
//!
//! The `exit` command is advisory text only: it is answered like any other
//! command and the connection stays open until the peer closes it.

use vstd::prelude::*;
use crate::store::InMemoryDB;
use crate::command::{step, process_command};
use crate::text::{tokens, trimmed, trim, str_eq};

verus! {

/// What the connection loop must do after handing one read to the session.
pub enum SessionAction {
    /// Terminate the connection silently (peer closed).
    Close,
    /// Send nothing and keep reading (successful handshake).
    Continue,
    /// Send the response and keep reading.
    Reply(String),
    /// Send the message, then terminate the connection (failed handshake).
    ReplyClose(String),
}

/// The response sent on a failed handshake.
pub open spec fn resp_invalid_token() -> Seq<char> {
    "Invalid authentication token.\n"@
}

/// A client connection's state: whether the shared token has been
/// presented. No command is processed before it has.
pub struct Session {
    pub authenticated: bool,
}

impl Session {
    /// A fresh, unauthenticated session.
    pub fn new() -> (r: Self)
        ensures
            !r.authenticated,
    {
        Session { authenticated: false }
    }

    /// Feeds one read chunk (`None` for end of stream) into the session.
    /// Before authentication the chunk, trimmed, must equal the shared
    /// token byte for byte; a mismatch is answered and ends the
    /// connection, a match silently authenticates. Afterwards every chunk
    /// is one command line for the interpreter.
    pub fn on_read(
        &mut self,
        chunk: Option<&str>,
        token: &str,
        db: &mut InMemoryDB,
        now: u64,
    ) -> (r: SessionAction)
        requires
            old(db).wf(),
        ensures
            final(db).wf(),
            match chunk {
                None => {
                    &&& r is Close
                    &&& *final(self) == *old(self)
                    &&& final(db)@ == old(db)@
                },
                Some(line) => {
                    if !old(self).authenticated {
                        if trimmed(line@) == token@ {
                            &&& r is Continue
                            &&& final(self).authenticated
                            &&& final(db)@ == old(db)@
                        } else {
                            &&& (r matches SessionAction::ReplyClose(m)
                                && m@ == resp_invalid_token())
                            &&& !final(self).authenticated
                            &&& final(db)@ == old(db)@
                        }
                    } else {
                        &&& (r matches SessionAction::Reply(m)
                            && m@ == step(tokens(line@), old(db)@, now).0)
                        &&& final(db)@ == step(tokens(line@), old(db)@, now).1
                        &&& final(self).authenticated
                    }
                },
            },
    {
        match chunk {
            None => SessionAction::Close,
            Some(line) => {
                if !self.authenticated {
                    let presented = trim(line);
                    if str_eq(presented, token) {
                        self.authenticated = true;
                        SessionAction::Continue
                    } else {
                        SessionAction::ReplyClose("Invalid authentication token.\n".to_owned())
                    }
                } else {
                    let response = process_command(line, db, now);
                    SessionAction::Reply(response)
                }
            },
        }
    }
}

} // verus!
