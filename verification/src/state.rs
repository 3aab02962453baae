//! The per-host connection state machine: one observable state per remote
//! host, driven through connect attempts, live sessions and the backoff
//! policy until attempts are exhausted.

use vstd::prelude::*;
use crate::policy::ReconnectConfig;
use crate::text::{chars_to_string, push_str_chars, spec_decimal, u32_to_decimal};

verus! {

/// The observable state of one host's connection, written only by that
/// host's connection loop.
#[derive(Clone, Debug, PartialEq)]
pub enum ConnectionState {
    Disconnected,
    Connecting,
    Connected,
    Reconnecting { attempt: u32 },
    Failed { reason: String },
}

impl ConnectionState {
    pub fn is_connected(&self) -> (r: bool)
        ensures
            r == (self is Connected),
    {
        matches!(self, ConnectionState::Connected)
    }

    pub fn is_connecting(&self) -> (r: bool)
        ensures
            r == (self is Connecting || self is Reconnecting),
    {
        matches!(self, ConnectionState::Connecting | ConnectionState::Reconnecting { .. })
    }

    /// An exact copy of this state.
    pub fn duplicate(&self) -> (r: ConnectionState)
        ensures
            r == *self,
    {
        match self {
            ConnectionState::Disconnected => ConnectionState::Disconnected,
            ConnectionState::Connecting => ConnectionState::Connecting,
            ConnectionState::Connected => ConnectionState::Connected,
            ConnectionState::Reconnecting { attempt } => ConnectionState::Reconnecting {
                attempt: *attempt,
            },
            ConnectionState::Failed { reason } => ConnectionState::Failed {
                reason: reason.clone(),
            },
        }
    }
}

/// The terminal failure message for an exhausted attempt budget.
pub open spec fn spec_exhausted_reason(max_attempts: u32) -> Seq<char> {
    seq!['M', 'a', 'x', ' ', 'r', 'e', 'c', 'o', 'n', 'n', 'e', 'c', 't', ' ', 'a', 't', 't', 'e',
        'm', 'p', 't', 's', ' ', '('] + spec_decimal(max_attempts as int) + seq![')', ' ', 'e', 'x',
        'c', 'e', 'e', 'd', 'e', 'd']
}

fn exhausted_reason(max_attempts: u32) -> (r: String)
    ensures
        r@ == spec_exhausted_reason(max_attempts),
{
    let mut v: Vec<char> = Vec::new();
    push_str_chars(&mut v, "Max reconnect attempts (");
    let digits = u32_to_decimal(max_attempts);
    crate::text::push_all(&mut v, &digits);
    push_str_chars(&mut v, ") exceeded");
    proof {
        reveal_strlit("Max reconnect attempts (");
        reveal_strlit(") exceeded");
        assert("Max reconnect attempts ("@ =~= seq![
            'M', 'a', 'x', ' ', 'r', 'e', 'c', 'o', 'n', 'n', 'e', 'c', 't', ' ', 'a', 't', 't',
            'e', 'm', 'p', 't', 's', ' ', '(',
        ]);
        assert(") exceeded"@ =~= seq![')', ' ', 'e', 'x', 'c', 'e', 'e', 'd', 'e', 'd']);
        assert(v@ =~= spec_exhausted_reason(max_attempts));
    }
    chars_to_string(&v)
}

/// The decision core of one host's connection loop. The loop in front of
/// it performs the outside work — building the signed URL, opening the
/// socket, sleeping — and reports each outcome here; this machine decides
/// the next observable state and how long to wait.
pub struct ConnectionMachine {
    pub config: ReconnectConfig,
    pub attempt: u32,
    pub state: ConnectionState,
}

/// The fixed pause before retrying when no handshake URL can be built
/// (for example while the key id is missing), in milliseconds. Such a
/// retry does not count against the attempt budget.
pub const URL_RETRY_DELAY_MS: u64 = 1000;

impl ConnectionMachine {
    pub open spec fn wf(self) -> bool {
        self.config.wf()
    }

    pub fn new(config: ReconnectConfig) -> (r: ConnectionMachine)
        requires
            config.wf(),
        ensures
            r.wf(),
            r.config == config,
            r.attempt == 0,
            r.state is Disconnected,
    {
        ConnectionMachine { config, attempt: 0, state: ConnectionState::Disconnected }
    }

    /// No handshake URL could be built: fall back to `Disconnected` and
    /// retry after a fixed short delay, without spending an attempt.
    pub fn on_url_unavailable(&mut self) -> (delay_ms: u64)
        requires
            old(self).wf(),
        ensures
            final(self).wf(),
            final(self).state is Disconnected,
            final(self).attempt == old(self).attempt,
            final(self).config == old(self).config,
            delay_ms == URL_RETRY_DELAY_MS,
    {
        self.state = ConnectionState::Disconnected;
        URL_RETRY_DELAY_MS
    }

    /// A connect attempt starts: the first attempt shows `Connecting`,
    /// every later one `Reconnecting` with its attempt number.
    pub fn begin_attempt(&mut self)
        requires
            old(self).wf(),
        ensures
            final(self).wf(),
            final(self).attempt == old(self).attempt,
            final(self).config == old(self).config,
            old(self).attempt == 0 ==> final(self).state is Connecting,
            old(self).attempt > 0 ==> final(self).state == (ConnectionState::Reconnecting {
                attempt: old(self).attempt,
            }),
    {
        if self.attempt == 0 {
            self.state = ConnectionState::Connecting;
        } else {
            self.state = ConnectionState::Reconnecting { attempt: self.attempt };
        }
    }

    /// The socket opened: the host is `Connected` and the attempt counter
    /// resets, so later failures back off from the start again.
    pub fn on_socket_opened(&mut self)
        requires
            old(self).wf(),
        ensures
            final(self).wf(),
            final(self).state is Connected,
            final(self).attempt == 0,
            final(self).config == old(self).config,
    {
        self.state = ConnectionState::Connected;
        self.attempt = 0;
    }

    /// A live session ended — by a clean close or a read/write failure
    /// alike: back to `Disconnected`, and the loop will attempt again.
    pub fn on_session_closed(&mut self)
        requires
            old(self).wf(),
        ensures
            final(self).wf(),
            final(self).state is Disconnected,
            final(self).attempt == old(self).attempt,
            final(self).config == old(self).config,
    {
        self.state = ConnectionState::Disconnected;
    }

    /// The connect attempt failed. With budget left, returns the backoff
    /// delay before the next attempt; with the budget exhausted, enters
    /// the terminal `Failed` state and returns nothing — the loop must
    /// exit, and only a fresh `connect` call can revive the host.
    pub fn on_connect_failed(&mut self) -> (r: Option<u64>)
        requires
            old(self).wf(),
            old(self).attempt < u32::MAX,
        ensures
            final(self).wf(),
            final(self).config == old(self).config,
            if old(self).config.max_attempts > 0 && old(self).attempt
                >= old(self).config.max_attempts {
                &&& r is None
                &&& final(self).state matches ConnectionState::Failed { reason } && reason@
                    == spec_exhausted_reason(old(self).config.max_attempts)
                &&& final(self).attempt == old(self).attempt
            } else {
                &&& r == Some(old(self).config.spec_delay(old(self).attempt as nat) as u64)
                &&& final(self).state == old(self).state
                &&& final(self).attempt == old(self).attempt + 1
            },
    {
        if self.config.max_attempts > 0 && self.attempt >= self.config.max_attempts {
            self.state = ConnectionState::Failed {
                reason: exhausted_reason(self.config.max_attempts),
            };
            None
        } else {
            let delay = self.config.delay_for_attempt(self.attempt);
            self.attempt = self.attempt + 1;
            Some(delay)
        }
    }
}

} // verus!
