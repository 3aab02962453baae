//! The connection registry: one entry per normalized host, holding that
//! host's observable connection state, with idempotent connect semantics.

use vstd::prelude::*;
use crate::state::ConnectionState;
use crate::urls::{normalize_host, spec_normalize_host};

verus! {

/// Does `s` hold an entry keyed `key`?
pub open spec fn reg_contains(s: Seq<(String, ConnectionState)>, key: Seq<char>) -> bool {
    exists|i: int| 0 <= i < s.len() && s[i].0@ == key
}

/// The index of the entry keyed `key` in `s`.
pub open spec fn reg_index_of(s: Seq<(String, ConnectionState)>, key: Seq<char>) -> int {
    choose|i: int| 0 <= i < s.len() && s[i].0@ == key
}

/// The state stored under `key` in `s`.
pub open spec fn reg_value(s: Seq<(String, ConnectionState)>, key: Seq<char>) -> ConnectionState {
    s[reg_index_of(s, key)].1
}

/// Does `s` hold the string `key`?
pub open spec fn names_contain(s: Seq<String>, key: Seq<char>) -> bool {
    exists|i: int| 0 <= i < s.len() && s[i]@ == key
}

/// The registry of live connections, keyed by normalized host. The
/// registry tracks membership and each host's observable state; the
/// socket loops themselves live outside it and report state changes in.
pub struct ConnectionRegistry {
    pub entries: Vec<(String, ConnectionState)>,
    pub requested_hosts: Vec<String>,
}

impl ConnectionRegistry {
    /// Hosts are keyed at most once.
    pub open spec fn wf(self) -> bool {
        forall|i: int, j: int|
            0 <= i < j < self.entries@.len() ==> self.entries@[i].0@ != self.entries@[j].0@
    }

    /// Is a connection registered for this normalized key?
    pub open spec fn spec_contains(self, key: Seq<char>) -> bool {
        reg_contains(self.entries@, key)
    }

    /// The state registered for this normalized key.
    pub open spec fn spec_state(self, key: Seq<char>) -> ConnectionState {
        reg_value(self.entries@, key)
    }

    pub fn new() -> (r: ConnectionRegistry)
        ensures
            r.wf(),
            r.entries@.len() == 0,
            r.requested_hosts@.len() == 0,
    {
        ConnectionRegistry { entries: Vec::new(), requested_hosts: Vec::new() }
    }

    fn index_of(&self, key: &String) -> (r: Option<usize>)
        requires
            self.wf(),
        ensures
            match r {
                Some(i) => i < self.entries@.len() && self.entries@[i as int].0@ == key@
                    && i == reg_index_of(self.entries@, key@),
                None => !self.spec_contains(key@),
            },
    {
        let mut i: usize = 0;
        while i < self.entries.len()
            invariant
                self.wf(),
                i <= self.entries@.len(),
                forall|j: int| 0 <= j < i ==> self.entries@[j].0@ != key@,
            decreases self.entries@.len() - i,
        {
            if self.entries[i].0 == *key {
                proof {
                    let w = reg_index_of(self.entries@, key@);
                    assert(self.entries@[i as int].0@ == key@);
                    assert(0 <= w < self.entries@.len() && self.entries@[w].0@ == key@);
                }
                return Some(i);
            }
            i = i + 1;
        }
        None
    }

    /// Notes that the application wants a connection to this host; the
    /// list keeps each normalized host once, in request order.
    pub fn request_connection(&mut self, host: &str)
        ensures
            names_contain(final(self).requested_hosts@, spec_normalize_host(host@)),
            names_contain(old(self).requested_hosts@, spec_normalize_host(host@))
                ==> *final(self) == *old(self),
            !names_contain(old(self).requested_hosts@, spec_normalize_host(host@)) ==> {
                &&& final(self).requested_hosts@.len() == old(self).requested_hosts@.len() + 1
                &&& forall|j: int|
                    0 <= j < old(self).requested_hosts@.len() ==> final(self).requested_hosts@[j]
                        == old(self).requested_hosts@[j]
                &&& final(self).requested_hosts@.last()@ == spec_normalize_host(host@)
                &&& final(self).entries == old(self).entries
            },
    {
        let normalized = normalize_host(host);
        let mut i: usize = 0;
        while i < self.requested_hosts.len()
            invariant
                i <= self.requested_hosts@.len(),
                normalized@ == spec_normalize_host(host@),
                forall|j: int| 0 <= j < i ==> self.requested_hosts@[j]@ != normalized@,
            decreases self.requested_hosts@.len() - i,
        {
            if self.requested_hosts[i] == normalized {
                proof {
                    assert(self.requested_hosts@[i as int]@ == spec_normalize_host(host@));
                    assert(names_contain(self.requested_hosts@, spec_normalize_host(host@)));
                }
                return ;
            }
            i = i + 1;
        }
        let ghost pre = self.requested_hosts@;
        self.requested_hosts.push(normalized);
        proof {
            assert(self.requested_hosts@.last()@ == spec_normalize_host(host@));
            assert(names_contain(self.requested_hosts@, spec_normalize_host(host@)));
        }
    }

    /// Drops every tracked entry; used at sign-out. Socket loops are not
    /// signalled: their senders going away winds them down.
    pub fn clear_connections(&mut self)
        ensures
            final(self).wf(),
            final(self).entries@.len() == 0,
            final(self).requested_hosts@.len() == 0,
    {
        self.entries.clear();
        self.requested_hosts.clear();
    }

    /// The observable state for a host: `Disconnected` when untracked.
    pub fn get_state(&self, host: &str) -> (r: ConnectionState)
        requires
            self.wf(),
        ensures
            self.spec_contains(spec_normalize_host(host@)) ==> r == self.spec_state(
                spec_normalize_host(host@),
            ),
            !self.spec_contains(spec_normalize_host(host@)) ==> r is Disconnected,
    {
        let normalized = normalize_host(host);
        match self.index_of(&normalized) {
            Some(i) => self.entries[i].1.duplicate(),
            None => ConnectionState::Disconnected,
        }
    }

    /// Is the host's connection currently established?
    pub fn is_connected(&self, host: &str) -> (r: bool)
        requires
            self.wf(),
        ensures
            r == (self.spec_contains(spec_normalize_host(host@)) && self.spec_state(
                spec_normalize_host(host@),
            ) is Connected),
    {
        self.get_state(host).is_connected()
    }

    /// Registers a connection for the host if none exists. Returns true
    /// exactly when the host was new — only then must the caller start a
    /// connection loop; calling again for a live host is a no-op.
    pub fn connect_to_host(&mut self, host: &str) -> (started: bool)
        requires
            old(self).wf(),
        ensures
            final(self).wf(),
            final(self).requested_hosts == old(self).requested_hosts,
            old(self).spec_contains(spec_normalize_host(host@)) ==> {
                &&& !started
                &&& *final(self) == *old(self)
            },
            !old(self).spec_contains(spec_normalize_host(host@)) ==> {
                &&& started
                &&& final(self).entries@.len() == old(self).entries@.len() + 1
                &&& forall|j: int|
                    0 <= j < old(self).entries@.len() ==> final(self).entries@[j] == old(
                        self,
                    ).entries@[j]
                &&& final(self).entries@.last().0@ == spec_normalize_host(host@)
                &&& final(self).entries@.last().1 is Connecting
            },
    {
        let normalized = normalize_host(host);
        match self.index_of(&normalized) {
            Some(_) => false,
            None => {
                let ghost pre = self.entries@;
                self.entries.push((normalized, ConnectionState::Connecting));
                proof {
                    assert forall|i: int, j: int| 0 <= i < j < self.entries@.len()
                        implies self.entries@[i].0@ != self.entries@[j].0@ by {
                        if j < pre.len() {
                            assert(self.entries@[i] == pre[i] && self.entries@[j] == pre[j]);
                        } else {
                            assert(self.entries@[i] == pre[i]);
                        }
                    }
                }
                true
            },
        }
    }

    /// Records a host's new observable state, as reported by its loop;
    /// the host is tracked afterwards either way.
    pub fn set_state(&mut self, host: &str, state: ConnectionState)
        requires
            old(self).wf(),
        ensures
            final(self).wf(),
            final(self).requested_hosts == old(self).requested_hosts,
            final(self).spec_contains(spec_normalize_host(host@)),
            old(self).spec_contains(spec_normalize_host(host@)) ==> {
                &&& final(self).entries@.len() == old(self).entries@.len()
                &&& forall|j: int|
                    0 <= j < old(self).entries@.len() && j != reg_index_of(
                        old(self).entries@,
                        spec_normalize_host(host@),
                    ) ==> final(self).entries@[j] == old(self).entries@[j]
                &&& final(self).spec_state(spec_normalize_host(host@)) == state
            },
            !old(self).spec_contains(spec_normalize_host(host@)) ==> {
                &&& final(self).entries@.len() == old(self).entries@.len() + 1
                &&& forall|j: int|
                    0 <= j < old(self).entries@.len() ==> final(self).entries@[j] == old(
                        self,
                    ).entries@[j]
                &&& final(self).spec_state(spec_normalize_host(host@)) == state
            },
    {
        let normalized = normalize_host(host);
        match self.index_of(&normalized) {
            Some(i) => {
                let ghost pre = self.entries@;
                let e = self.entries.remove(i);
                self.entries.insert(i, (e.0, state));
                proof {
                    assert(self.entries@ =~= pre.update(i as int, (e.0, state)));
                    assert(self.entries@[i as int].0@ == normalized@);
                    let w = reg_index_of(self.entries@, normalized@);
                    assert(0 <= w < self.entries@.len() && self.entries@[w].0@ == normalized@);
                    assert(w == i);
                }
            },
            None => {
                let ghost pre = self.entries@;
                self.entries.push((normalized, state));
                proof {
                    assert forall|i: int, j: int| 0 <= i < j < self.entries@.len()
                        implies self.entries@[i].0@ != self.entries@[j].0@ by {
                        if j < pre.len() {
                            assert(self.entries@[i] == pre[i] && self.entries@[j] == pre[j]);
                        } else {
                            assert(self.entries@[i] == pre[i]);
                        }
                    }
                    let w = reg_index_of(self.entries@, spec_normalize_host(host@));
                    assert(self.entries@[pre.len() as int].0@ == spec_normalize_host(host@));
                    assert(0 <= w < self.entries@.len() && self.entries@[w].0@
                        == spec_normalize_host(host@));
                    assert(w == pre.len());
                }
            },
        }
    }
}

} // verus!
