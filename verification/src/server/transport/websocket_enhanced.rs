//! Configuration and client bookkeeping of the multi-client WebSocket
//! server: admission, heartbeats and the errors it answers with. Client ids
//! are the 128-bit values of their UUIDs; times are nanoseconds on a monotonic clock.
use vstd::prelude::*;
use crate::error::Error;
use crate::text::{extend_chars, string_of};

verus! {

/// Configuration for the WebSocket server. Durations are in milliseconds.
#[derive(Debug, Clone)]
pub struct EnhancedWebSocketConfig {
    /// Address to bind to
    pub bind_addr: String,
    /// Maximum concurrent connections
    pub max_connections: usize,
    /// Connection timeout
    pub connection_timeout_ms: u64,
    /// Heartbeat interval
    pub heartbeat_interval_ms: u64,
    /// Maximum frame size
    pub max_frame_size: Option<usize>,
    /// Maximum message size
    pub max_message_size: Option<usize>,
    /// Enable connection pooling
    pub enable_pooling: bool,
    /// Enable broadcast mode
    pub enable_broadcast: bool,
}

impl Default for EnhancedWebSocketConfig {
    fn default() -> (c: EnhancedWebSocketConfig)
        ensures
            c.bind_addr@ == "127.0.0.1:9001"@,
            c.max_connections == 100,
            c.connection_timeout_ms == 30000,
            c.heartbeat_interval_ms == 15000,
            c.max_frame_size == Some(67108864usize),
            c.max_message_size == Some(67108864usize),
            c.enable_pooling,
            !c.enable_broadcast,
    {
        EnhancedWebSocketConfig {
            bind_addr: "127.0.0.1:9001".to_owned(),
            max_connections: 100,
            connection_timeout_ms: 30000,
            heartbeat_interval_ms: 15000,
            max_frame_size: Some(67108864),
            max_message_size: Some(67108864),
            enable_pooling: true,
            enable_broadcast: false,
        }
    }
}

/// A client goes unseen for longer than this, in nanoseconds, before it
/// counts as stale.
pub fn stale_after_ns() -> (ns: u64)
    ensures
        ns == 60_000_000_000,
{
    60_000_000_000
}

/// A new connection is accepted while fewer than the maximum are connected.
pub fn admit_connection(connected: usize, max_connections: usize) -> (b: bool)
    ensures
        b == (connected < max_connections),
{
    connected < max_connections
}

/// Broadcasting needs broadcast mode.
pub fn check_broadcast(config: &EnhancedWebSocketConfig) -> (r: Result<(), Error>)
    ensures
        config.enable_broadcast ==> r is Ok,
        !config.enable_broadcast ==> (r matches Err(Error::Internal(m)) && m@
            == "Broadcast mode not enabled"@),
{
    if config.enable_broadcast {
        Ok(())
    } else {
        Err(Error::internal("Broadcast mode not enabled"))
    }
}

/// The error for a message to an unknown client, named by its id's text.
pub fn client_not_found(client_id_text: &str) -> (e: Error)
    ensures
        e matches Error::Internal(m) && m@ == "Client "@ + client_id_text@ + " not found"@,
{
    let mut v: Vec<char> = Vec::new();
    extend_chars(&mut v, "Client ");
    extend_chars(&mut v, client_id_text);
    extend_chars(&mut v, " not found");
    let m = string_of(v.as_slice());
    Error::internal(m.as_str())
}

/// Time from `from` to `now`, zero when `now` is earlier.
pub open spec fn elapsed_ns(from: u64, now: u64) -> int {
    if now >= from {
        now - from
    } else {
        0
    }
}

/// The position of a client.
pub open spec fn client_index(s: Seq<(u128, u64)>, id: u128) -> Option<int>
    decreases s.len(),
{
    if s.len() == 0 {
        None
    } else if s.last().0 == id {
        Some(s.len() - 1)
    } else {
        client_index(s.drop_last(), id)
    }
}

/// No two entries share an id.
pub open spec fn distinct_ids(s: Seq<(u128, u64)>) -> bool {
    forall|i: int, j: int| 0 <= i < j < s.len() ==> s[i].0 != s[j].0
}

/// The clients seen within `timeout` of `now`, in order.
pub open spec fn fresh(s: Seq<(u128, u64)>, now: u64, timeout: u64) -> Seq<(u128, u64)>
    decreases s.len(),
{
    if s.len() == 0 {
        s
    } else if elapsed_ns(s.last().1, now) > timeout {
        fresh(s.drop_last(), now, timeout)
    } else {
        fresh(s.drop_last(), now, timeout).push(s.last())
    }
}

/// The ids of the clients not seen within `timeout` of `now`, in order.
pub open spec fn stale_ids(s: Seq<(u128, u64)>, now: u64, timeout: u64) -> Seq<u128>
    decreases s.len(),
{
    if s.len() == 0 {
        Seq::empty()
    } else if elapsed_ns(s.last().1, now) > timeout {
        stale_ids(s.drop_last(), now, timeout).push(s.last().0)
    } else {
        stale_ids(s.drop_last(), now, timeout)
    }
}

proof fn lemma_client_index(s: Seq<(u128, u64)>, id: u128)
    ensures
        match client_index(s, id) {
            Some(i) => 0 <= i < s.len() && s[i].0 == id,
            None => forall|j: int| 0 <= j < s.len() ==> s[j].0 != id,
        },
    decreases s.len(),
{
    if s.len() > 0 {
        lemma_client_index(s.drop_last(), id);
        assert forall|j: int| 0 <= j < s.drop_last().len() implies s.drop_last()[j] == s[j] by {}
        assert(s[s.len() - 1] == s.last());
    }
}

/// What `fresh` keeps is a part of the entries, in order, all of them seen
/// within the timeout.
pub proof fn lemma_fresh(s: Seq<(u128, u64)>, now: u64, timeout: u64)
    ensures
        forall|i: int| 0 <= i < fresh(s, now, timeout).len() ==> elapsed_ns(
            #[trigger] fresh(s, now, timeout)[i].1,
            now,
        ) <= timeout,
        forall|i: int| 0 <= i < fresh(s, now, timeout).len() ==> s.contains(
            #[trigger] fresh(s, now, timeout)[i],
        ),
        distinct_ids(s) ==> distinct_ids(fresh(s, now, timeout)),
        forall|i: int| 0 <= i < s.len() && elapsed_ns(s[i].1, now) <= timeout ==> fresh(
            s,
            now,
            timeout,
        ).contains(#[trigger] s[i]),
    decreases s.len(),
{
    if s.len() > 0 {
        let t = s.drop_last();
        lemma_fresh(t, now, timeout);
        let f = fresh(t, now, timeout);
        assert forall|i: int| 0 <= i < t.len() implies s[i] == t[i] by {}
        assert forall|i: int| 0 <= i < f.len() implies s.contains(#[trigger] f[i]) by {
            assert(t.contains(f[i]));
            let j = choose|j: int| 0 <= j < t.len() && t[j] == f[i];
            assert(s[j] == f[i]);
        }
        if elapsed_ns(s.last().1, now) <= timeout {
            let g = f.push(s.last());
            assert forall|i: int| 0 <= i < g.len() implies s.contains(#[trigger] g[i]) by {
                if i < f.len() {
                    assert(g[i] == f[i]);
                } else {
                    assert(s[s.len() - 1] == g[i]);
                }
            }
            assert forall|i: int| 0 <= i < s.len() && elapsed_ns(s[i].1, now) <= timeout implies g.contains(
                #[trigger] s[i],
            ) by {
                if i < t.len() {
                    assert(s[i] == t[i]);
                    assert(f.contains(t[i]));
                    let j = choose|j: int| 0 <= j < f.len() && f[j] == t[i];
                    assert(g[j] == s[i]);
                } else {
                    assert(g[f.len() as int] == s[i]);
                }
            }
            if distinct_ids(s) {
                assert forall|i: int, j: int| 0 <= i < j < g.len() implies g[i].0 != g[j].0 by {
                    if j == f.len() {
                        assert(t.contains(f[i]));
                        let k = choose|k: int| 0 <= k < t.len() && t[k] == f[i];
                        assert(s[k].0 != s[s.len() - 1].0);
                    }
                }
            }
        } else {
            assert forall|i: int| 0 <= i < s.len() && elapsed_ns(s[i].1, now) <= timeout implies f.contains(
                #[trigger] s[i],
            ) by {
                assert(i < t.len());
                assert(s[i] == t[i]);
            }
        }
    }
}

/// The connected clients and when each was last seen.
#[derive(Debug)]
pub struct ClientTable {
    entries: Vec<(u128, u64)>,
}

impl ClientTable {
    /// The clients with the time each was last seen, in order of arrival.
    pub closed spec fn clients(&self) -> Seq<(u128, u64)> {
        self.entries@
    }

    /// No clients.
    pub fn new() -> (t: ClientTable)
        ensures
            t.clients() == Seq::<(u128, u64)>::empty(),
    {
        ClientTable { entries: Vec::new() }
    }

    fn position(&self, id: u128) -> (r: Option<usize>)
        ensures
            match r {
                Some(i) => client_index(self.clients(), id) == Some(i as int) && i < self.clients().len(),
                None => client_index(self.clients(), id) is None,
            },
    {
        proof {
            lemma_client_index(self.entries@, id);
        }
        let mut i = self.entries.len();
        assert(self.entries@.subrange(0, i as int) == self.entries@);
        while i > 0
            invariant
                i <= self.entries@.len(),
                forall|j: int| i <= j < self.entries@.len() ==> self.entries@[j].0 != id,
                client_index(self.entries@, id) == client_index(self.entries@.subrange(0, i as int), id),
            decreases i,
        {
            let ghost p = self.entries@.subrange(0, i as int);
            assert(p.drop_last() == self.entries@.subrange(0, i - 1));
            if self.entries[i - 1].0 == id {
                return Some(i - 1);
            }
            i = i - 1;
        }
        None
    }

    /// Register a client seen at `now_ns`; a known client is seen again.
    pub fn register(&mut self, id: u128, now_ns: u64)
        ensures
            final(self).clients() == match client_index(old(self).clients(), id) {
                Some(i) => old(self).clients().update(i, (id, now_ns)),
                None => old(self).clients().push((id, now_ns)),
            },
    {
        proof {
            lemma_client_index(self.entries@, id);
        }
        match self.position(id) {
            Some(i) => {
                self.entries.set(i, (id, now_ns));
            },
            None => {
                self.entries.push((id, now_ns));
            },
        }
    }

    /// A known client was seen at `now_ns`; an unknown one is ignored.
    pub fn touch(&mut self, id: u128, now_ns: u64)
        ensures
            final(self).clients() == match client_index(old(self).clients(), id) {
                Some(i) => old(self).clients().update(i, (id, now_ns)),
                None => old(self).clients(),
            },
    {
        if let Some(i) = self.position(id) {
            proof {
                lemma_client_index(self.entries@, id);
            }
            self.entries.set(i, (id, now_ns));
        }
    }

    /// Remove a client.
    pub fn remove(&mut self, id: u128)
        ensures
            final(self).clients() == match client_index(old(self).clients(), id) {
                Some(i) => old(self).clients().remove(i),
                None => old(self).clients(),
            },
    {
        if let Some(i) = self.position(id) {
            self.entries.remove(i);
        }
    }

    /// Whether a client is connected.
    pub fn contains(&self, id: u128) -> (b: bool)
        ensures
            b == (client_index(self.clients(), id) is Some),
    {
        self.position(id).is_some()
    }

    /// Number of connected clients.
    pub fn len(&self) -> (n: usize)
        ensures
            n == self.clients().len(),
    {
        self.entries.len()
    }

    /// The ids of the connected clients, in order of arrival.
    pub fn ids(&self) -> (v: Vec<u128>)
        ensures
            v@ == self.clients().map_values(|e: (u128, u64)| e.0),
    {
        let mut v: Vec<u128> = Vec::new();
        let mut i: usize = 0;
        while i < self.entries.len()
            invariant
                i <= self.entries@.len(),
                v@ == self.entries@.subrange(0, i as int).map_values(|e: (u128, u64)| e.0),
            decreases self.entries@.len() - i,
        {
            v.push(self.entries[i].0);
            i = i + 1;
            assert(self.entries@.subrange(0, i as int).map_values(|e: (u128, u64)| e.0) =~= self.entries@.subrange(
                0,
                i - 1,
            ).map_values(|e: (u128, u64)| e.0).push(self.entries@[i - 1].0));
        }
        assert(self.entries@.subrange(0, self.entries@.len() as int) == self.entries@);
        v
    }

    /// Disconnect every client.
    pub fn clear(&mut self)
        ensures
            final(self).clients() == Seq::<(u128, u64)>::empty(),
    {
        self.entries = Vec::new();
    }

    /// The heartbeat sweep: remove the clients not seen within the last
    /// minute before `now_ns`, and return their ids.
    pub fn check_heartbeats(&mut self, now_ns: u64) -> (removed: Vec<u128>)
        ensures
            final(self).clients() == fresh(old(self).clients(), now_ns, 60_000_000_000),
            removed@ == stale_ids(old(self).clients(), now_ns, 60_000_000_000),
    {
        self.remove_stale(now_ns, stale_after_ns())
    }

    /// Remove the clients not seen within `timeout_ns` of `now_ns`, and
    /// return their ids.
    pub fn remove_stale(&mut self, now_ns: u64, timeout_ns: u64) -> (removed: Vec<u128>)
        ensures
            final(self).clients() == fresh(old(self).clients(), now_ns, timeout_ns),
            removed@ == stale_ids(old(self).clients(), now_ns, timeout_ns),
    {
        let ghost s = self.entries@;
        let mut kept: Vec<(u128, u64)> = Vec::new();
        let mut removed: Vec<u128> = Vec::new();
        let mut i: usize = 0;
        while i < self.entries.len()
            invariant
                i <= self.entries@.len(),
                self.entries@ == s,
                kept@ == fresh(s.subrange(0, i as int), now_ns, timeout_ns),
                removed@ == stale_ids(s.subrange(0, i as int), now_ns, timeout_ns),
            decreases self.entries@.len() - i,
        {
            let (id, seen) = self.entries[i];
            assert(s.subrange(0, i + 1).drop_last() == s.subrange(0, i as int));
            assert(s.subrange(0, i + 1).last() == (id, seen));
            let passed = if now_ns >= seen {
                now_ns - seen
            } else {
                0
            };
            if passed > timeout_ns {
                removed.push(id);
            } else {
                kept.push((id, seen));
            }
            i = i + 1;
        }
        assert(s.subrange(0, s.len() as int) == s);
        proof {
            lemma_fresh(s, now_ns, timeout_ns);
        }
        self.entries = kept;
        removed
    }
}

/// Registering keeps client ids distinct.
pub proof fn lemma_register_distinct(s: Seq<(u128, u64)>, id: u128, now: u64)
    requires
        distinct_ids(s),
    ensures
        distinct_ids(
            match client_index(s, id) {
                Some(i) => s.update(i, (id, now)),
                None => s.push((id, now)),
            },
        ),
{
    lemma_client_index(s, id);
}

/// After stale clients are removed, every client left was seen within the
/// timeout, and every client that was seen within it is still there.
pub proof fn lemma_heartbeat_sweep(s: Seq<(u128, u64)>, now: u64, timeout: u64)
    ensures
        forall|i: int| 0 <= i < fresh(s, now, timeout).len() ==> elapsed_ns(
            #[trigger] fresh(s, now, timeout)[i].1,
            now,
        ) <= timeout,
        forall|i: int| 0 <= i < s.len() && elapsed_ns(s[i].1, now) <= timeout ==> fresh(
            s,
            now,
            timeout,
        ).contains(#[trigger] s[i]),
{
    lemma_fresh(s, now, timeout);
}

} // verus!
