//! A pool of connections to remote hosts, kept per host key.
//!
//! The pool does the bookkeeping: which connection of a host is on loan, which
//! may be lent again, which has been idle for too long, and whether another
//! may be opened. The connections themselves stay with whoever opens them,
//! under the number that the pool gave each.
//!
//! Time is a count of milliseconds read from a monotonic clock by the caller.

use crate::remote::{exec_outcome, outcome_view, ExecEvent, RemoteError, RemoteErrorView};
use vstd::prelude::*;

verus! {

/// The partition key of the pool: host, port and user.
#[derive(Debug, PartialEq, Eq, Hash)]
pub struct HostKey {
    pub host: String,
    pub port: u16,
    pub user: String,
}

/// What a host key holds.
pub ghost struct HostKeyView {
    pub host: Seq<char>,
    pub port: u16,
    pub user: Seq<char>,
}

impl View for HostKey {
    type V = HostKeyView;

    open spec fn view(&self) -> HostKeyView {
        HostKeyView { host: self.host@, port: self.port, user: self.user@ }
    }
}

impl Clone for HostKey {
    fn clone(&self) -> (copy: Self)
        ensures
            copy@ == self@,
    {
        HostKey { host: self.host.clone(), port: self.port, user: self.user.clone() }
    }
}

impl HostKey {
    pub fn new(host: String, port: u16, user: String) -> (key: Self)
        ensures
            key@ == (HostKeyView { host: host@, port, user: user@ }),
    {
        HostKey { host, port, user }
    }

    /// The error of a request that found every connection of this key on
    /// loan and no room for another.
    pub fn exhausted(&self) -> (error: RemoteError)
        ensures
            error@ == (RemoteErrorView::PoolFull {
                user: self@.user,
                host: self@.host,
                port: self@.port,
            }),
    {
        RemoteError::PoolFull {
            user: self.user.clone(),
            host: self.host.clone(),
            port: self.port,
        }
    }

    /// Whether two keys name the same host, port and user.
    pub fn same_as(&self, other: &HostKey) -> (same: bool)
        ensures
            same == (self@ == other@),
    {
        self.port == other.port && self.host == other.host && self.user == other.user
    }
}

/// The private key file to authenticate with: the one that the environment
/// names, else `.ssh/id_rsa` under the user's home directory, and none where
/// neither is known.
pub open spec fn credential_path_of(env_path: Option<Seq<char>>, home: Option<Seq<char>>) -> Option<
    Seq<char>,
> {
    match env_path {
        Some(path) => Some(path),
        None => match home {
            Some(home) => Some(home + "/.ssh/id_rsa"@),
            None => None,
        },
    }
}

/// What text, or none, holds.
pub open spec fn text_view(text: Option<String>) -> Option<Seq<char>> {
    match text {
        Some(text) => Some(text@),
        None => None,
    }
}

/// The private key file to authenticate with.
pub fn credential_path(env_path: Option<String>, home: Option<String>) -> (path: Option<String>)
    ensures
        text_view(path) == credential_path_of(text_view(env_path), text_view(home)),
{
    match env_path {
        Some(path) => Some(path),
        None => match home {
            Some(home) => {
                let mut path = home;
                path.append("/.ssh/id_rsa");
                Some(path)
            },
            None => None,
        },
    }
}

/// Limits of the pool.
#[derive(Debug, Clone, Copy, PartialEq, Eq, Structural)]
pub struct PoolConfig {
    /// Connections that one host key may have at a time.
    pub max_connections_per_host: usize,
    /// Milliseconds after its last use at which a connection expires.
    pub idle_timeout_ms: u64,
    /// Milliseconds allowed for opening a connection.
    pub connection_timeout_ms: u64,
}

impl Default for PoolConfig {
    fn default() -> (config: Self)
        ensures
            config.max_connections_per_host == 10,
            config.idle_timeout_ms == 300_000,
            config.connection_timeout_ms == 10_000,
    {
        PoolConfig {
            max_connections_per_host: 10,
            idle_timeout_ms: 300_000,
            connection_timeout_ms: 10_000,
        }
    }
}

/// One pooled connection, as the pool knows it.
#[derive(Debug, Clone, Copy, PartialEq, Eq, Structural)]
pub struct SSHConnection {
    /// The number under which the connection is held.
    pub id: u64,
    /// When it was last lent or returned.
    pub last_used: u64,
    /// Whether it is on loan.
    pub in_use: bool,
}

/// Whether a connection last used at `last_used` has expired at `now`.
pub open spec fn expired(connection: SSHConnection, now: u64, idle_timeout_ms: u64) -> bool {
    now - connection.last_used > idle_timeout_ms
}

/// The connections of `connections` that have not expired at `now`, in order.
pub open spec fn live(connections: Seq<SSHConnection>, now: u64, idle_timeout_ms: u64) -> Seq<
    SSHConnection,
> {
    connections.filter(|c: SSHConnection| !expired(c, now, idle_timeout_ms))
}

/// The connections of `connections` that have expired at `now`, in order.
pub open spec fn lapsed(connections: Seq<SSHConnection>, now: u64, idle_timeout_ms: u64) -> Seq<
    SSHConnection,
> {
    connections.filter(|c: SSHConnection| expired(c, now, idle_timeout_ms))
}

/// The numbers of `connections`, in order.
pub open spec fn ids(connections: Seq<SSHConnection>) -> Seq<u64> {
    connections.map_values(|c: SSHConnection| c.id)
}

/// The first index at or after `from` of a connection that is not on loan.
pub open spec fn first_idle(connections: Seq<SSHConnection>, from: int) -> int
    decreases connections.len() - from,
{
    if 0 <= from < connections.len() && connections[from].in_use {
        first_idle(connections, from + 1)
    } else {
        from
    }
}

/// The first index at or after `from` of the connection numbered `id`.
pub open spec fn index_of_id(connections: Seq<SSHConnection>, id: u64, from: int) -> int
    decreases connections.len() - from,
{
    if 0 <= from < connections.len() && connections[from].id != id {
        index_of_id(connections, id, from + 1)
    } else {
        from
    }
}

/// `connection` as it is once lent at `now`.
pub open spec fn lent(connection: SSHConnection, now: u64) -> SSHConnection {
    SSHConnection { id: connection.id, last_used: now, in_use: true }
}

/// `connection` as it is once returned at `now`.
pub open spec fn returned(connection: SSHConnection, now: u64) -> SSHConnection {
    SSHConnection { id: connection.id, last_used: now, in_use: false }
}

/// `connections` once the one numbered `id`, if there is one, is returned.
pub open spec fn released(connections: Seq<SSHConnection>, id: u64, now: u64) -> Seq<
    SSHConnection,
> {
    let index = index_of_id(connections, id, 0);
    if index < connections.len() {
        connections.update(index, returned(connections[index], now))
    } else {
        connections
    }
}

/// `connections` without the one numbered `id`, if there is one.
pub open spec fn discarded(connections: Seq<SSHConnection>, id: u64) -> Seq<SSHConnection> {
    let index = index_of_id(connections, id, 0);
    if index < connections.len() {
        connections.remove(index)
    } else {
        connections
    }
}

/// The numbers of the connections that are on loan.
pub open spec fn on_loan(connections: Seq<SSHConnection>) -> Set<u64> {
    Set::new(
        |id: u64|
            exists|i: int|
                0 <= i < connections.len() && (#[trigger] connections[i]).id == id
                    && connections[i].in_use,
    )
}

/// How many connections are on loan.
pub open spec fn in_use_count(connections: Seq<SSHConnection>) -> nat
    decreases connections.len(),
{
    if connections.len() == 0 {
        0
    } else {
        in_use_count(connections.drop_last()) + if connections.last().in_use {
            1nat
        } else {
            0nat
        }
    }
}

/// The list of one host key is within bounds: no longer than `max`, and its
/// connections carry numbers below `minted`, no two the same.
pub open spec fn within_bounds(connections: Seq<SSHConnection>, max: usize, minted: u64) -> bool {
    &&& connections.len() <= max
    &&& forall|i: int| 0 <= i < connections.len() ==> (#[trigger] connections[i]).id < minted
    &&& distinct_ids(connections)
}

/// No two connections carry the same number.
pub open spec fn distinct_ids(connections: Seq<SSHConnection>) -> bool {
    forall|i: int, j: int|
        0 <= i < j < connections.len() ==> (#[trigger] connections[i]).id != (
        #[trigger] connections[j]).id
}

/// An exclusive loan of one pooled connection.
#[derive(Debug)]
pub struct PooledConnection {
    key: HostKey,
    id: u64,
}

impl PooledConnection {
    /// The host key that the connection belongs to.
    pub closed spec fn host_key(&self) -> HostKeyView {
        self.key@
    }

    /// The number of the connection on loan.
    pub closed spec fn connection_id(&self) -> u64 {
        self.id
    }

    /// The host key that the connection belongs to.
    pub fn key(&self) -> (key: &HostKey)
        ensures
            key@ == self.host_key(),
    {
        &self.key
    }

    /// The number of the connection on loan.
    pub fn id(&self) -> (id: u64)
        ensures
            id == self.connection_id(),
    {
        self.id
    }

    /// What a command run on this connection under a time limit came to:
    /// its output where it ended with status zero, and an error otherwise.
    pub fn exec_with_timeout(&self, event: ExecEvent) -> (outcome: Result<String, RemoteError>)
        ensures
            outcome_view(outcome) == exec_outcome(event@),
    {
        event.outcome()
    }
}

/// What the pool decided on a request for a connection.
#[derive(Debug)]
pub enum Acquired {
    /// A connection that was idle is lent again.
    Lease(PooledConnection),
    /// None is idle and the host has room: open one, then add it.
    Connect,
    /// None is idle and the host has no room.
    PoolFull,
}

/// The answer to a request for a connection.
#[derive(Debug)]
pub struct Acquisition {
    /// What to do.
    pub outcome: Acquired,
    /// The numbers of the connections that had expired and were dropped.
    pub evicted: Vec<u64>,
}

struct HostConnections {
    key: HostKey,
    connections: Vec<SSHConnection>,
}

spec fn holds_key(hosts: Seq<HostConnections>, key: HostKeyView, i: int) -> bool {
    0 <= i < hosts.len() && hosts[i].key@ == key
}

spec fn lookup(hosts: Seq<HostConnections>, key: HostKeyView) -> Seq<SSHConnection> {
    if exists|i: int| holds_key(hosts, key, i) {
        hosts[choose|i: int| holds_key(hosts, key, i)].connections@
    } else {
        Seq::empty()
    }
}

spec fn distinct_keys(hosts: Seq<HostConnections>) -> bool {
    forall|i: int, j: int|
        0 <= i < j < hosts.len() ==> (#[trigger] hosts[i]).key@ != (#[trigger] hosts[j]).key@
}

proof fn lemma_lookup_at(hosts: Seq<HostConnections>, i: int)
    requires
        distinct_keys(hosts),
        0 <= i < hosts.len(),
    ensures
        lookup(hosts, hosts[i].key@) == hosts[i].connections@,
{
    let key = hosts[i].key@;
    assert(holds_key(hosts, key, i));
    let chosen = choose|j: int| holds_key(hosts, key, j);
    assert(holds_key(hosts, key, chosen));
    if chosen < i {
        assert(hosts[chosen].key@ != hosts[i].key@);
    } else if i < chosen {
        assert(hosts[i].key@ != hosts[chosen].key@);
    }
}

proof fn lemma_lookup_absent(hosts: Seq<HostConnections>, key: HostKeyView)
    requires
        forall|i: int| 0 <= i < hosts.len() ==> (#[trigger] hosts[i]).key@ != key,
    ensures
        lookup(hosts, key) == Seq::<SSHConnection>::empty(),
{
    assert forall|i: int| !holds_key(hosts, key, i) by {
        if 0 <= i < hosts.len() {
            assert(hosts[i].key@ != key);
        }
    }
}

/// Changing the list of one host leaves the lists of all others as they were.
proof fn lemma_lookup_frame(before: Seq<HostConnections>, after: Seq<HostConnections>, slot: int)
    requires
        distinct_keys(before),
        0 <= slot < before.len(),
        after.len() == before.len(),
        forall|i: int| 0 <= i < before.len() ==> (#[trigger] after[i]).key@ == before[i].key@,
        forall|i: int|
            0 <= i < before.len() && i != slot ==> (#[trigger] after[i]).connections@
                == before[i].connections@,
    ensures
        distinct_keys(after),
        lookup(after, before[slot].key@) == after[slot].connections@,
        forall|key: HostKeyView|
            key != before[slot].key@ ==> lookup(after, key) == lookup(before, key),
{
    assert forall|i: int, j: int| 0 <= i < j < after.len() implies (#[trigger] after[i]).key@ != (
    #[trigger] after[j]).key@ by {
        assert(before[i].key@ != before[j].key@);
    }
    lemma_lookup_at(after, slot);
    assert forall|key: HostKeyView| key != before[slot].key@ implies lookup(after, key) == lookup(
        before,
        key,
    ) by {
        if exists|i: int| holds_key(before, key, i) {
            let i = choose|i: int| holds_key(before, key, i);
            assert(holds_key(before, key, i));
            assert(after[i].key@ == before[i].key@);
            lemma_lookup_at(before, i);
            lemma_lookup_at(after, i);
        } else {
            assert forall|i: int| 0 <= i < before.len() implies (#[trigger] before[i]).key@
                != key by {
                assert(!holds_key(before, key, i));
            }
            assert forall|i: int| 0 <= i < after.len() implies (#[trigger] after[i]).key@
                != key by {
                assert(after[i].key@ == before[i].key@);
            }
            lemma_lookup_absent(before, key);
            lemma_lookup_absent(after, key);
        }
    }
}

/// A list for a host that had none leaves the lists of all others as they
/// were.
proof fn lemma_lookup_push(before: Seq<HostConnections>, entry: HostConnections)
    requires
        distinct_keys(before),
        forall|i: int| 0 <= i < before.len() ==> (#[trigger] before[i]).key@ != entry.key@,
    ensures
        distinct_keys(before.push(entry)),
        lookup(before.push(entry), entry.key@) == entry.connections@,
        forall|key: HostKeyView| key != entry.key@ ==> lookup(before.push(entry), key) == lookup(
            before,
            key,
        ),
{
    let after = before.push(entry);
    assert forall|i: int, j: int| 0 <= i < j < after.len() implies (#[trigger] after[i]).key@ != (
    #[trigger] after[j]).key@ by {
        if j < before.len() {
            assert(before[i].key@ != before[j].key@);
        } else {
            assert(before[i].key@ != entry.key@);
        }
    }
    lemma_lookup_at(after, before.len() as int);
    assert forall|key: HostKeyView| key != entry.key@ implies lookup(after, key) == lookup(
        before,
        key,
    ) by {
        if exists|i: int| holds_key(before, key, i) {
            let i = choose|i: int| holds_key(before, key, i);
            assert(holds_key(before, key, i));
            assert(after[i] == before[i]);
            lemma_lookup_at(before, i);
            lemma_lookup_at(after, i);
        } else {
            assert forall|i: int| 0 <= i < before.len() implies (#[trigger] before[i]).key@
                != key by {
                assert(!holds_key(before, key, i));
            }
            assert forall|i: int| 0 <= i < after.len() implies (#[trigger] after[i]).key@
                != key by {
                if i < before.len() {
                    assert(after[i] == before[i]);
                }
            }
            lemma_lookup_absent(before, key);
            lemma_lookup_absent(after, key);
        }
    }
}

/// Every connection that is kept was there before.
proof fn lemma_filter_members(connections: Seq<SSHConnection>, keep: spec_fn(SSHConnection) -> bool)
    ensures
        forall|a: int|
            0 <= a < connections.filter(keep).len() ==> keep(#[trigger] connections.filter(keep)[a])
                && exists|i: int|
                0 <= i < connections.len() && connections[i] == connections.filter(keep)[a],
    decreases connections.len(),
{
    reveal(Seq::filter);
    if connections.len() > 0 {
        let front = connections.drop_last();
        lemma_filter_members(front, keep);
        assert forall|a: int| 0 <= a < connections.filter(keep).len() implies keep(
            #[trigger] connections.filter(keep)[a],
        ) && exists|i: int|
            0 <= i < connections.len() && connections[i] == connections.filter(keep)[a] by {
            if a < front.filter(keep).len() {
                assert(connections.filter(keep)[a] == front.filter(keep)[a]);
                let i = choose|i: int| 0 <= i < front.len() && front[i] == front.filter(keep)[a];
                assert(connections[i] == connections.filter(keep)[a]);
            } else {
                assert(connections[connections.len() - 1] == connections.filter(keep)[a]);
            }
        }
    }
}

/// Dropping connections from a list within bounds leaves it within bounds.
proof fn lemma_filter_within_bounds(
    connections: Seq<SSHConnection>,
    keep: spec_fn(SSHConnection) -> bool,
    max: usize,
    minted: u64,
)
    requires
        within_bounds(connections, max, minted),
    ensures
        within_bounds(connections.filter(keep), max, minted),
    decreases connections.len(),
{
    reveal(Seq::filter);
    if connections.len() > 0 {
        let front = connections.drop_last();
        assert(within_bounds(front, max, minted)) by {
            assert forall|i: int| 0 <= i < front.len() implies (#[trigger] front[i]).id < minted by {
                assert(front[i] == connections[i]);
            }
            assert forall|i: int, j: int| 0 <= i < j < front.len() implies (#[trigger] front[i]).id
                != (#[trigger] front[j]).id by {
                assert(front[i] == connections[i]);
                assert(front[j] == connections[j]);
            }
        }
        lemma_filter_within_bounds(front, keep, max, minted);
        lemma_filter_members(front, keep);
        connections.lemma_filter_len(keep);
        let kept = connections.filter(keep);
        assert forall|i: int, j: int| 0 <= i < j < kept.len() implies (#[trigger] kept[i]).id != (
        #[trigger] kept[j]).id by {
            if j < front.filter(keep).len() {
                assert(kept[i] == front.filter(keep)[i]);
                assert(kept[j] == front.filter(keep)[j]);
            } else {
                assert(kept[i] == front.filter(keep)[i]);
                let k = choose|k: int| 0 <= k < front.len() && front[k] == front.filter(keep)[i];
                assert(connections[k] == kept[i]);
                assert(connections[connections.len() - 1] == kept[j]);
            }
        }
        assert forall|i: int| 0 <= i < kept.len() implies (#[trigger] kept[i]).id < minted by {
            if i < front.filter(keep).len() {
                assert(kept[i] == front.filter(keep)[i]);
            } else {
                assert(connections[connections.len() - 1] == kept[i]);
            }
        }
    }
}

proof fn lemma_first_idle(connections: Seq<SSHConnection>, from: int)
    requires
        0 <= from <= connections.len(),
    ensures
        from <= first_idle(connections, from) <= connections.len(),
        first_idle(connections, from) < connections.len() ==> !connections[first_idle(
            connections,
            from,
        )].in_use,
    decreases connections.len() - from,
{
    if from < connections.len() && connections[from].in_use {
        lemma_first_idle(connections, from + 1);
    }
}

proof fn lemma_index_of_id(connections: Seq<SSHConnection>, id: u64, from: int)
    requires
        0 <= from <= connections.len(),
    ensures
        from <= index_of_id(connections, id, from) <= connections.len(),
        index_of_id(connections, id, from) < connections.len() ==> connections[index_of_id(
            connections,
            id,
            from,
        )].id == id,
        forall|i: int|
            from <= i < index_of_id(connections, id, from) ==> (#[trigger] connections[i]).id
                != id,
    decreases connections.len() - from,
{
    if from < connections.len() && connections[from].id != id {
        lemma_index_of_id(connections, id, from + 1);
    }
}

/// The connections on loan are as many as the numbers on loan.
pub proof fn lemma_count_is_number_of_loans(connections: Seq<SSHConnection>)
    requires
        distinct_ids(connections),
    ensures
        on_loan(connections).finite(),
        on_loan(connections).len() == in_use_count(connections),
    decreases connections.len(),
{
    if connections.len() == 0 {
        assert(on_loan(connections) =~= Set::<u64>::empty());
    } else {
        let front = connections.drop_last();
        let last = connections.last();
        assert(distinct_ids(front)) by {
            assert forall|i: int, j: int| 0 <= i < j < front.len() implies (#[trigger] front[i]).id
                != (#[trigger] front[j]).id by {
                assert(front[i] == connections[i]);
                assert(front[j] == connections[j]);
            }
        }
        lemma_count_is_number_of_loans(front);
        assert(!on_loan(front).contains(last.id)) by {
            if on_loan(front).contains(last.id) {
                let i = choose|i: int|
                    0 <= i < front.len() && (#[trigger] front[i]).id == last.id && front[i].in_use;
                assert(connections[i].id != connections[connections.len() - 1].id);
            }
        }
        if last.in_use {
            assert(on_loan(connections) =~= on_loan(front).insert(last.id)) by {
                assert forall|id: u64| on_loan(front).insert(last.id).contains(id) implies on_loan(
                    connections,
                ).contains(id) by {
                    if id == last.id {
                        assert(connections[connections.len() - 1].id == id);
                    } else {
                        let i = choose|i: int|
                            0 <= i < front.len() && (#[trigger] front[i]).id == id
                                && front[i].in_use;
                        assert(connections[i].id == id);
                    }
                }
                assert forall|id: u64| on_loan(connections).contains(id) implies on_loan(
                    front,
                ).insert(last.id).contains(id) by {
                    let i = choose|i: int|
                        0 <= i < connections.len() && (#[trigger] connections[i]).id == id
                            && connections[i].in_use;
                    if i < front.len() {
                        assert(front[i].id == id);
                    }
                }
            }
        } else {
            assert(on_loan(connections) =~= on_loan(front)) by {
                assert forall|id: u64| on_loan(front).contains(id) implies on_loan(
                    connections,
                ).contains(id) by {
                    let i = choose|i: int|
                        0 <= i < front.len() && (#[trigger] front[i]).id == id && front[i].in_use;
                    assert(connections[i].id == id);
                }
                assert forall|id: u64| on_loan(connections).contains(id) implies on_loan(
                    front,
                ).contains(id) by {
                    let i = choose|i: int|
                        0 <= i < connections.len() && (#[trigger] connections[i]).id == id
                            && connections[i].in_use;
                    assert(front[i].id == id);
                }
            }
        }
    }
}

/// A connection that is lent again had not expired, was not on loan, and
/// was among the connections of its host key.
pub proof fn lemma_expired_connection_is_never_lent(
    connections: Seq<SSHConnection>,
    now: u64,
    idle_timeout_ms: u64,
)
    requires
        first_idle(live(connections, now, idle_timeout_ms), 0) < live(
            connections,
            now,
            idle_timeout_ms,
        ).len(),
    ensures
        ({
            let kept = live(connections, now, idle_timeout_ms);
            let chosen = kept[first_idle(kept, 0)];
            &&& !expired(chosen, now, idle_timeout_ms)
            &&& !chosen.in_use
            &&& connections.contains(chosen)
        }),
{
    let kept = live(connections, now, idle_timeout_ms);
    lemma_first_idle(kept, 0);
    lemma_filter_members(
        connections,
        |c: SSHConnection| !expired(c, now, idle_timeout_ms),
    );
    let chosen = kept[first_idle(kept, 0)];
    let i = choose|i: int| 0 <= i < connections.len() && connections[i] == chosen;
    assert(connections[i] == chosen);
}

/// Lending the oldest idle connection puts exactly one more on loan: the
/// one that the lease names.
pub proof fn lemma_lease_is_one_more_loan(connections: Seq<SSHConnection>, now: u64)
    requires
        distinct_ids(connections),
        first_idle(connections, 0) < connections.len(),
    ensures
        ({
            let idle = first_idle(connections, 0);
            let after = connections.update(idle, lent(connections[idle], now));
            &&& distinct_ids(after)
            &&& !on_loan(connections).contains(connections[idle].id)
            &&& on_loan(after) == on_loan(connections).insert(connections[idle].id)
            &&& in_use_count(after) == in_use_count(connections) + 1
        }),
{
    lemma_first_idle(connections, 0);
    let idle = first_idle(connections, 0);
    let id = connections[idle].id;
    let after = connections.update(idle, lent(connections[idle], now));
    assert forall|i: int, j: int| 0 <= i < j < after.len() implies (#[trigger] after[i]).id != (
    #[trigger] after[j]).id by {
        assert(after[i].id == connections[i].id);
        assert(after[j].id == connections[j].id);
    }
    assert(!on_loan(connections).contains(id)) by {
        if on_loan(connections).contains(id) {
            let i = choose|i: int|
                0 <= i < connections.len() && (#[trigger] connections[i]).id == id
                    && connections[i].in_use;
            if i < idle {
                assert(connections[i].id != connections[idle].id);
            } else if idle < i {
                assert(connections[idle].id != connections[i].id);
            }
        }
    }
    assert(on_loan(after) =~= on_loan(connections).insert(id)) by {
        assert forall|x: u64| on_loan(connections).insert(id).contains(x) implies on_loan(
            after,
        ).contains(x) by {
            if x == id {
                assert(after[idle].id == x && after[idle].in_use);
            } else {
                let i = choose|i: int|
                    0 <= i < connections.len() && (#[trigger] connections[i]).id == x
                        && connections[i].in_use;
                assert(after[i].id == x && after[i].in_use);
            }
        }
        assert forall|x: u64| on_loan(after).contains(x) implies on_loan(connections).insert(
            id,
        ).contains(x) by {
            let i = choose|i: int|
                0 <= i < after.len() && (#[trigger] after[i]).id == x && after[i].in_use;
            if i != idle {
                assert(connections[i].id == x && connections[i].in_use);
            }
        }
    }
    lemma_count_is_number_of_loans(connections);
    lemma_count_is_number_of_loans(after);
}

/// A connection that was just opened and added is exactly one more on loan.
pub proof fn lemma_new_connection_is_one_more_loan(
    connections: Seq<SSHConnection>,
    id: u64,
    now: u64,
)
    requires
        distinct_ids(connections),
        forall|i: int| 0 <= i < connections.len() ==> (#[trigger] connections[i]).id != id,
    ensures
        ({
            let after = connections.push(SSHConnection { id, last_used: now, in_use: true });
            &&& distinct_ids(after)
            &&& !on_loan(connections).contains(id)
            &&& on_loan(after) == on_loan(connections).insert(id)
            &&& in_use_count(after) == in_use_count(connections) + 1
        }),
{
    let after = connections.push(SSHConnection { id, last_used: now, in_use: true });
    assert forall|i: int, j: int| 0 <= i < j < after.len() implies (#[trigger] after[i]).id != (
    #[trigger] after[j]).id by {
        assert(after[i] == connections[i]);
        if j < connections.len() {
            assert(after[j] == connections[j]);
        }
    }
    assert(on_loan(after) =~= on_loan(connections).insert(id)) by {
        assert forall|x: u64| on_loan(connections).insert(id).contains(x) implies on_loan(
            after,
        ).contains(x) by {
            if x == id {
                assert(after[connections.len() as int].id == x);
            } else {
                let i = choose|i: int|
                    0 <= i < connections.len() && (#[trigger] connections[i]).id == x
                        && connections[i].in_use;
                assert(after[i].id == x && after[i].in_use);
            }
        }
        assert forall|x: u64| on_loan(after).contains(x) implies on_loan(connections).insert(
            id,
        ).contains(x) by {
            let i = choose|i: int|
                0 <= i < after.len() && (#[trigger] after[i]).id == x && after[i].in_use;
            if i < connections.len() {
                assert(connections[i].id == x && connections[i].in_use);
            }
        }
    }
    assert(after.drop_last() =~= connections);
}

/// Returning a connection that is on loan leaves exactly one fewer on loan:
/// all but the one that the lease named.
pub proof fn lemma_release_is_one_loan_fewer(connections: Seq<SSHConnection>, id: u64, now: u64)
    requires
        distinct_ids(connections),
        on_loan(connections).contains(id),
    ensures
        ({
            let after = released(connections, id, now);
            &&& distinct_ids(after)
            &&& on_loan(after) == on_loan(connections).remove(id)
            &&& in_use_count(after) == in_use_count(connections) - 1
        }),
{
    lemma_index_of_id(connections, id, 0);
    let held = choose|i: int|
        0 <= i < connections.len() && (#[trigger] connections[i]).id == id
            && connections[i].in_use;
    let index = index_of_id(connections, id, 0);
    assert(index < connections.len()) by {
        if index >= connections.len() {
            assert(connections[held].id != id);
        }
    }
    let after = released(connections, id, now);
    assert forall|i: int, j: int| 0 <= i < j < after.len() implies (#[trigger] after[i]).id != (
    #[trigger] after[j]).id by {
        assert(after[i].id == connections[i].id);
        assert(after[j].id == connections[j].id);
    }
    assert(on_loan(after) =~= on_loan(connections).remove(id)) by {
        assert forall|x: u64| on_loan(connections).remove(id).contains(x) implies on_loan(
            after,
        ).contains(x) by {
            let i = choose|i: int|
                0 <= i < connections.len() && (#[trigger] connections[i]).id == x
                    && connections[i].in_use;
            assert(after[i].id == x && after[i].in_use);
        }
        assert forall|x: u64| on_loan(after).contains(x) implies on_loan(connections).remove(
            id,
        ).contains(x) by {
            let i = choose|i: int|
                0 <= i < after.len() && (#[trigger] after[i]).id == x && after[i].in_use;
            if i != index {
                assert(connections[i].id == x && connections[i].in_use);
                if x == id {
                    if i < index {
                        assert(connections[i].id != connections[index].id);
                    } else {
                        assert(connections[index].id != connections[i].id);
                    }
                }
            }
        }
    }
    lemma_count_is_number_of_loans(connections);
    lemma_count_is_number_of_loans(after);
}

/// Whether the connection has expired at `now`.
fn is_expired_at(connection: &SSHConnection, now: u64, idle_timeout_ms: u64) -> (gone: bool)
    ensures
        gone == expired(*connection, now, idle_timeout_ms),
{
    now > connection.last_used && now - connection.last_used > idle_timeout_ms
}

/// The connections that have not expired, and the numbers of those that have.
fn split_expired(connections: &Vec<SSHConnection>, now: u64, idle_timeout_ms: u64) -> (parts: (
    Vec<SSHConnection>,
    Vec<u64>,
))
    ensures
        parts.0@ == live(connections@, now, idle_timeout_ms),
        parts.1@ == ids(lapsed(connections@, now, idle_timeout_ms)),
{
    let mut kept: Vec<SSHConnection> = Vec::new();
    let mut evicted: Vec<u64> = Vec::new();
    let mut index: usize = 0;
    proof {
        reveal(Seq::filter);
        assert(ids(lapsed(connections@.take(0), now, idle_timeout_ms)) =~= evicted@);
    }
    while index < connections.len()
        invariant
            index <= connections.len(),
            kept@ == live(connections@.take(index as int), now, idle_timeout_ms),
            evicted@ == ids(lapsed(connections@.take(index as int), now, idle_timeout_ms)),
        decreases connections.len() - index,
    {
        let connection = connections[index];
        proof {
            reveal(Seq::filter);
            assert(connections@.take(index + 1).drop_last() == connections@.take(index as int));
        }
        if is_expired_at(&connection, now, idle_timeout_ms) {
            evicted.push(connection.id);
        } else {
            kept.push(connection);
        }
        index += 1;
        assert(evicted@ =~= ids(lapsed(connections@.take(index as int), now, idle_timeout_ms)));
    }
    assert(connections@.take(index as int) == connections@);
    (kept, evicted)
}

/// How many of the connections are on loan.
fn count_in_use(connections: &Vec<SSHConnection>) -> (count: usize)
    ensures
        count == in_use_count(connections@),
{
    let mut count: usize = 0;
    let mut index: usize = 0;
    while index < connections.len()
        invariant
            index <= connections.len(),
            count <= index,
            count == in_use_count(connections@.take(index as int)),
        decreases connections.len() - index,
    {
        assert(connections@.take(index + 1).drop_last() == connections@.take(index as int));
        if connections[index].in_use {
            count += 1;
        }
        index += 1;
    }
    assert(connections@.take(index as int) == connections@);
    count
}

/// The first index of the connection numbered `id`.
fn find_id(connections: &Vec<SSHConnection>, id: u64) -> (index: usize)
    ensures
        index == index_of_id(connections@, id, 0),
        index <= connections.len(),
        index < connections.len() ==> connections[index as int].id == id,
{
    let mut index: usize = 0;
    while index < connections.len() && connections[index].id != id
        invariant
            index <= connections.len(),
            index_of_id(connections@, id, 0) == index_of_id(connections@, id, index as int),
        decreases connections.len() - index,
    {
        index += 1;
    }
    index
}

spec fn row_matches(row: HostStats, host: HostConnections) -> bool {
    &&& row.key@ == host.key@
    &&& row.total == host.connections@.len()
    &&& row.total > 0
    &&& row.in_use == in_use_count(host.connections@)
}

/// Connection counts of one host key.
#[derive(Debug)]
pub struct HostStats {
    pub key: HostKey,
    /// Connections held for the key.
    pub total: usize,
    /// Connections of the key that are on loan.
    pub in_use: usize,
}

/// The pool: for each host key the list of its connections, oldest first.
pub struct SSHPool {
    hosts: Vec<HostConnections>,
    config: PoolConfig,
    minted: u64,
}

impl SSHPool {
    /// The connections held for `key`, oldest first.
    pub closed spec fn connections(&self, key: HostKeyView) -> Seq<SSHConnection> {
        lookup(self.hosts@, key)
    }

    /// The limits that the pool was made with.
    pub closed spec fn config(&self) -> PoolConfig {
        self.config
    }

    /// How many connection numbers the pool has given out.
    pub closed spec fn minted(&self) -> u64 {
        self.minted
    }

    /// The pool is well-formed: every list is within bounds.
    pub closed spec fn wf(&self) -> bool {
        &&& distinct_keys(self.hosts@)
        &&& forall|i: int|
            0 <= i < self.hosts@.len() ==> within_bounds(
                (#[trigger] self.hosts@[i]).connections@,
                self.config.max_connections_per_host,
                self.minted,
            )
    }

    /// In a well-formed pool no host key has more connections than the limit,
    /// and no two connections of a key carry the same number.
    pub proof fn lemma_within_bounds(&self, key: HostKeyView)
        requires
            self.wf(),
        ensures
            within_bounds(
                self.connections(key),
                self.config().max_connections_per_host,
                self.minted(),
            ),
    {
        if exists|i: int| holds_key(self.hosts@, key, i) {
            let i = choose|i: int| holds_key(self.hosts@, key, i);
            assert(holds_key(self.hosts@, key, i));
            lemma_lookup_at(self.hosts@, i);
            assert(within_bounds(
                self.hosts@[i].connections@,
                self.config.max_connections_per_host,
                self.minted,
            ));
        }
    }

    /// An empty pool.
    pub fn new(config: PoolConfig) -> (pool: Self)
        ensures
            pool.wf(),
            pool.config() == config,
            pool.minted() == 0,
            forall|key: HostKeyView| pool.connections(key) == Seq::<SSHConnection>::empty(),
    {
        let pool = SSHPool { hosts: Vec::new(), config, minted: 0 };
        assert forall|key: HostKeyView| pool.connections(key) == Seq::<SSHConnection>::empty() by {
            lemma_lookup_absent(pool.hosts@, key);
        }
        pool
    }

    /// The limits that the pool was made with.
    pub fn configuration(&self) -> (config: PoolConfig)
        ensures
            config == self.config(),
    {
        self.config
    }

    fn find_host(&self, key: &HostKey) -> (slot: usize)
        ensures
            slot <= self.hosts@.len(),
            slot < self.hosts@.len() ==> self.hosts@[slot as int].key@ == key@,
            slot == self.hosts@.len() ==> forall|i: int|
                0 <= i < self.hosts@.len() ==> (#[trigger] self.hosts@[i]).key@ != key@,
    {
        let mut slot: usize = 0;
        while slot < self.hosts.len()
            invariant
                slot <= self.hosts@.len(),
                forall|i: int| 0 <= i < slot ==> (#[trigger] self.hosts@[i]).key@ != key@,
            decreases self.hosts@.len() - slot,
        {
            if self.hosts[slot].key.same_as(key) {
                return slot;
            }
            slot += 1;
        }
        slot
    }

    /// Asks for a connection to `key` at `now`.
    ///
    /// First the connections of `key` that have expired are dropped. Then the
    /// oldest one that is not on loan is lent. Where all are on loan, the
    /// caller is told to open another if the host has room for one, and that
    /// the pool is full if it has none.
    pub fn acquire(&mut self, key: &HostKey, now: u64) -> (answer: Acquisition)
        requires
            old(self).wf(),
        ensures
            final(self).wf(),
            final(self).config() == old(self).config(),
            final(self).minted() == old(self).minted(),
            forall|other: HostKeyView|
                other != key@ ==> final(self).connections(other) == old(self).connections(other),
            answer.evicted@ == ids(
                lapsed(old(self).connections(key@), now, old(self).config().idle_timeout_ms),
            ),
            ({
                let kept = live(
                    old(self).connections(key@),
                    now,
                    old(self).config().idle_timeout_ms,
                );
                let idle = first_idle(kept, 0);
                if idle < kept.len() {
                    &&& answer.outcome matches Acquired::Lease(lease) && lease.host_key() == key@
                        && lease.connection_id() == kept[idle].id
                    &&& final(self).connections(key@) == kept.update(idle, lent(kept[idle], now))
                } else {
                    &&& final(self).connections(key@) == kept
                    &&& if kept.len() < old(self).config().max_connections_per_host {
                        answer.outcome is Connect
                    } else {
                        answer.outcome is PoolFull
                    }
                }
            }),
    {
        let slot = self.find_host(key);
        if slot == self.hosts.len() {
            proof {
                lemma_lookup_absent(self.hosts@, key@);
                reveal(Seq::filter);
            }
            let evicted: Vec<u64> = Vec::new();
            assert(evicted@ =~= ids(
                lapsed(Seq::<SSHConnection>::empty(), now, self.config.idle_timeout_ms),
            ));
            let outcome = if 0 < self.config.max_connections_per_host {
                Acquired::Connect
            } else {
                Acquired::PoolFull
            };
            return Acquisition { outcome, evicted };
        }
        let ghost before = self.hosts@[slot as int].connections@;
        let ghost keep = |c: SSHConnection| !expired(c, now, self.config.idle_timeout_ms);
        proof {
            lemma_lookup_at(self.hosts@, slot as int);
            lemma_filter_within_bounds(
                before,
                keep,
                self.config.max_connections_per_host,
                self.minted,
            );
        }
        let (mut kept, evicted) = split_expired(
            &self.hosts[slot].connections,
            now,
            self.config.idle_timeout_ms,
        );
        let ghost live_ones = kept@;
        let mut idle: usize = 0;
        while idle < kept.len() && kept[idle].in_use
            invariant
                idle <= kept.len(),
                first_idle(kept@, 0) == first_idle(kept@, idle as int),
            decreases kept.len() - idle,
        {
            idle += 1;
        }
        let outcome = if idle < kept.len() {
            let id = kept[idle].id;
            kept[idle] = SSHConnection { id, last_used: now, in_use: true };
            Acquired::Lease(PooledConnection { key: key.clone(), id })
        } else if kept.len() < self.config.max_connections_per_host {
            Acquired::Connect
        } else {
            Acquired::PoolFull
        };
        proof {
            assert(within_bounds(kept@, self.config.max_connections_per_host, self.minted)) by {
                assert forall|i: int| 0 <= i < kept@.len() implies (#[trigger] kept@[i]).id
                    < self.minted by {
                    assert(kept@[i].id == live_ones[i].id);
                }
                assert forall|i: int, j: int| 0 <= i < j < kept@.len() implies (
                #[trigger] kept@[i]).id != (#[trigger] kept@[j]).id by {
                    assert(kept@[i].id == live_ones[i].id);
                    assert(kept@[j].id == live_ones[j].id);
                }
            }
        }
        self.hosts[slot].connections = kept;
        proof {
            lemma_lookup_frame(old(self).hosts@, self.hosts@, slot as int);
        }
        Acquisition { outcome, evicted }
    }

    /// Adds a connection to `key` that the caller has just opened, and lends
    /// it to the caller. Refused where the host has no room, or where the
    /// pool has run out of numbers.
    pub fn add_connection(&mut self, key: &HostKey, now: u64) -> (lease: Result<
        PooledConnection,
        RemoteError,
    >)
        requires
            old(self).wf(),
        ensures
            final(self).wf(),
            final(self).config() == old(self).config(),
            forall|other: HostKeyView|
                other != key@ ==> final(self).connections(other) == old(self).connections(other),
            lease is Ok <==> old(self).connections(key@).len() < old(
                self,
            ).config().max_connections_per_host && old(self).minted() < u64::MAX,
            match lease {
                Ok(lease) => {
                    &&& lease.host_key() == key@
                    &&& lease.connection_id() == old(self).minted()
                    &&& final(self).minted() == old(self).minted() + 1
                    &&& final(self).connections(key@) == old(self).connections(key@).push(
                        SSHConnection { id: old(self).minted(), last_used: now, in_use: true },
                    )
                },
                Err(error) => {
                    &&& error@ == (RemoteErrorView::PoolFull {
                        user: key@.user,
                        host: key@.host,
                        port: key@.port,
                    })
                    &&& final(self).minted() == old(self).minted()
                    &&& final(self).connections(key@) == old(self).connections(key@)
                },
            },
    {
        let slot = self.find_host(key);
        proof {
            if slot < self.hosts.len() {
                lemma_lookup_at(self.hosts@, slot as int);
            } else {
                lemma_lookup_absent(self.hosts@, key@);
            }
        }
        let held: usize = if slot < self.hosts.len() {
            self.hosts[slot].connections.len()
        } else {
            0
        };
        if held >= self.config.max_connections_per_host || self.minted == u64::MAX {
            return Err(
                RemoteError::PoolFull {
                    user: key.user.clone(),
                    host: key.host.clone(),
                    port: key.port,
                },
            );
        }
        let id = self.minted;
        let connection = SSHConnection { id, last_used: now, in_use: true };
        self.minted = id + 1;
        if slot < self.hosts.len() {
            self.hosts[slot].connections.push(connection);
            proof {
                lemma_lookup_frame(old(self).hosts@, self.hosts@, slot as int);
                let grown = self.hosts@[slot as int].connections@;
                let was = old(self).hosts@[slot as int].connections@;
                assert(within_bounds(was, self.config.max_connections_per_host, id));
                assert forall|i: int, j: int| 0 <= i < j < grown.len() implies (
                #[trigger] grown[i]).id != (#[trigger] grown[j]).id by {
                    assert(grown[i] == was[i]);
                    if j < was.len() {
                        assert(grown[j] == was[j]);
                    }
                }
                assert forall|i: int| 0 <= i < grown.len() implies (#[trigger] grown[i]).id
                    < self.minted by {
                    if i < was.len() {
                        assert(grown[i] == was[i]);
                    }
                }
            }
        } else {
            let mut connections: Vec<SSHConnection> = Vec::new();
            connections.push(connection);
            let entry = HostConnections { key: key.clone(), connections };
            proof {
                lemma_lookup_push(self.hosts@, entry);
                assert(Seq::<SSHConnection>::empty().push(connection) =~= entry.connections@);
            }
            self.hosts.push(entry);
        }
        proof {
            assert forall|i: int| 0 <= i < self.hosts@.len() implies within_bounds(
                (#[trigger] self.hosts@[i]).connections@,
                self.config.max_connections_per_host,
                self.minted,
            ) by {
                if i != slot {
                    assert(self.hosts@[i] == old(self).hosts@[i]);
                    assert(within_bounds(
                        old(self).hosts@[i].connections@,
                        self.config.max_connections_per_host,
                        id,
                    ));
                }
            }
        }
        Ok(PooledConnection { key: key.clone(), id })
    }

    /// Takes back the connection that `lease` lent: it is no longer on loan,
    /// and counts as used at `now`. Nothing changes where the pool no longer
    /// holds the connection.
    pub fn release(&mut self, lease: PooledConnection, now: u64)
        requires
            old(self).wf(),
        ensures
            final(self).wf(),
            final(self).config() == old(self).config(),
            final(self).minted() == old(self).minted(),
            forall|other: HostKeyView|
                other != lease.host_key() ==> final(self).connections(other) == old(
                    self,
                ).connections(other),
            final(self).connections(lease.host_key()) == released(
                old(self).connections(lease.host_key()),
                lease.connection_id(),
                now,
            ),
    {
        let slot = self.find_host(&lease.key);
        if slot == self.hosts.len() {
            proof {
                lemma_lookup_absent(self.hosts@, lease.key@);
            }
            return;
        }
        proof {
            lemma_lookup_at(self.hosts@, slot as int);
        }
        let index = find_id(&self.hosts[slot].connections, lease.id);
        if index < self.hosts[slot].connections.len() {
            let ghost was = self.hosts@[slot as int].connections@;
            self.hosts[slot].connections[index] = SSHConnection {
                id: lease.id,
                last_used: now,
                in_use: false,
            };
            proof {
                lemma_lookup_frame(old(self).hosts@, self.hosts@, slot as int);
                let now_is = self.hosts@[slot as int].connections@;
                assert(within_bounds(was, self.config.max_connections_per_host, self.minted));
                assert forall|i: int, j: int| 0 <= i < j < now_is.len() implies (
                #[trigger] now_is[i]).id != (#[trigger] now_is[j]).id by {
                    assert(now_is[i].id == was[i].id);
                    assert(now_is[j].id == was[j].id);
                }
                assert forall|i: int| 0 <= i < now_is.len() implies (#[trigger] now_is[i]).id
                    < self.minted by {
                    assert(now_is[i].id == was[i].id);
                }
                assert forall|i: int| 0 <= i < self.hosts@.len() implies within_bounds(
                    (#[trigger] self.hosts@[i]).connections@,
                    self.config.max_connections_per_host,
                    self.minted,
                ) by {
                    if i != slot {
                        assert(self.hosts@[i] == old(self).hosts@[i]);
                    }
                }
            }
        }
    }

    /// Drops the connection that `lease` lent, so that it is never lent
    /// again, and says whether the pool still held it.
    pub fn discard(&mut self, lease: PooledConnection) -> (dropped: bool)
        requires
            old(self).wf(),
        ensures
            final(self).wf(),
            final(self).config() == old(self).config(),
            final(self).minted() == old(self).minted(),
            forall|other: HostKeyView|
                other != lease.host_key() ==> final(self).connections(other) == old(
                    self,
                ).connections(other),
            final(self).connections(lease.host_key()) == discarded(
                old(self).connections(lease.host_key()),
                lease.connection_id(),
            ),
            dropped == (index_of_id(
                old(self).connections(lease.host_key()),
                lease.connection_id(),
                0,
            ) < old(self).connections(lease.host_key()).len()),
    {
        let slot = self.find_host(&lease.key);
        if slot == self.hosts.len() {
            proof {
                lemma_lookup_absent(self.hosts@, lease.key@);
            }
            return false;
        }
        proof {
            lemma_lookup_at(self.hosts@, slot as int);
        }
        let index = find_id(&self.hosts[slot].connections, lease.id);
        if index >= self.hosts[slot].connections.len() {
            return false;
        }
        let ghost was = self.hosts@[slot as int].connections@;
        let _ = self.hosts[slot].connections.remove(index);
        proof {
            lemma_lookup_frame(old(self).hosts@, self.hosts@, slot as int);
            let now_is = self.hosts@[slot as int].connections@;
            assert(within_bounds(was, self.config.max_connections_per_host, self.minted));
            assert forall|i: int, j: int| 0 <= i < j < now_is.len() implies (
            #[trigger] now_is[i]).id != (#[trigger] now_is[j]).id by {
                let a = if i < index { i } else { i + 1 };
                let b = if j < index { j } else { j + 1 };
                assert(now_is[i] == was[a]);
                assert(now_is[j] == was[b]);
            }
            assert forall|i: int| 0 <= i < now_is.len() implies (#[trigger] now_is[i]).id
                < self.minted by {
                let a = if i < index { i } else { i + 1 };
                assert(now_is[i] == was[a]);
            }
            assert forall|i: int| 0 <= i < self.hosts@.len() implies within_bounds(
                (#[trigger] self.hosts@[i]).connections@,
                self.config.max_connections_per_host,
                self.minted,
            ) by {
                if i != slot {
                    assert(self.hosts@[i] == old(self).hosts@[i]);
                }
            }
        }
        true
    }

    /// Ends the loan of `lease` at `now`, given what the command that ran on
    /// it came to. A connection whose command ran out of time is dropped,
    /// for it may be left in disorder; any other is taken back. Returns what
    /// the command came to, and whether the connection was dropped.
    pub fn complete(&mut self, lease: PooledConnection, event: ExecEvent, now: u64) -> (ended: (
        Result<String, RemoteError>,
        bool,
    ))
        requires
            old(self).wf(),
        ensures
            final(self).wf(),
            final(self).config() == old(self).config(),
            final(self).minted() == old(self).minted(),
            outcome_view(ended.0) == exec_outcome(event@),
            forall|other: HostKeyView|
                other != lease.host_key() ==> final(self).connections(other) == old(
                    self,
                ).connections(other),
            final(self).connections(lease.host_key()) == if event is TimedOut {
                discarded(old(self).connections(lease.host_key()), lease.connection_id())
            } else {
                released(old(self).connections(lease.host_key()), lease.connection_id(), now)
            },
            ended.1 == (event is TimedOut && index_of_id(
                old(self).connections(lease.host_key()),
                lease.connection_id(),
                0,
            ) < old(self).connections(lease.host_key()).len()),
    {
        let dropped = match &event {
            ExecEvent::TimedOut => self.discard(lease),
            _ => {
                self.release(lease, now);
                false
            },
        };
        (event.outcome(), dropped)
    }

    /// The connections held for `key`, oldest first.
    pub fn connections_of(&self, key: &HostKey) -> (connections: Vec<SSHConnection>)
        requires
            self.wf(),
        ensures
            connections@ == self.connections(key@),
    {
        let slot = self.find_host(key);
        if slot == self.hosts.len() {
            proof {
                lemma_lookup_absent(self.hosts@, key@);
            }
            return Vec::new();
        }
        proof {
            lemma_lookup_at(self.hosts@, slot as int);
        }
        let mut connections: Vec<SSHConnection> = Vec::new();
        let mut index: usize = 0;
        while index < self.hosts[slot as usize].connections.len()
            invariant
                slot < self.hosts@.len(),
                index <= self.hosts@[slot as int].connections@.len(),
                connections@ == self.hosts@[slot as int].connections@.take(index as int),
            decreases self.hosts@[slot as int].connections@.len() - index,
        {
            connections.push(self.hosts[slot].connections[index]);
            index += 1;
            assert(connections@ =~= self.hosts@[slot as int].connections@.take(index as int));
        }
        assert(self.hosts@[slot as int].connections@.take(index as int)
            == self.hosts@[slot as int].connections@);
        connections
    }

    /// For every host key that has connections: how many, and how many of
    /// them are on loan.
    pub fn stats(&self) -> (stats: Vec<HostStats>)
        requires
            self.wf(),
        ensures
            forall|i: int|
                0 <= i < stats@.len() ==> {
                    let row = #[trigger] stats@[i];
                    &&& row.total == self.connections(row.key@).len()
                    &&& row.total > 0
                    &&& row.in_use == in_use_count(self.connections(row.key@))
                },
            forall|i: int, j: int|
                0 <= i < j < stats@.len() ==> (#[trigger] stats@[i]).key@ != (
                #[trigger] stats@[j]).key@,
            forall|key: HostKeyView|
                self.connections(key).len() > 0 ==> exists|i: int|
                    0 <= i < stats@.len() && (#[trigger] stats@[i]).key@ == key,
    {
        let mut stats: Vec<HostStats> = Vec::new();
        let ghost mut origin: Seq<int> = Seq::empty();
        let mut slot: usize = 0;
        while slot < self.hosts.len()
            invariant
                self.wf(),
                slot <= self.hosts@.len(),
                origin.len() == stats@.len(),
                forall|i: int|
                    0 <= i < stats@.len() ==> 0 <= #[trigger] origin[i] < slot && row_matches(
                        stats@[i],
                        self.hosts@[origin[i]],
                    ),
                forall|i: int, j: int|
                    0 <= i < j < stats@.len() ==> #[trigger] origin[i] < #[trigger] origin[j],
                forall|h: int|
                    0 <= h < slot && (#[trigger] self.hosts@[h]).connections@.len() > 0
                        ==> exists|i: int| 0 <= i < stats@.len() && origin[i] == h,
            decreases self.hosts@.len() - slot,
        {
            let total = self.hosts[slot].connections.len();
            if total > 0 {
                let in_use = count_in_use(&self.hosts[slot].connections);
                let ghost rows = stats@;
                let ghost from = origin;
                stats.push(HostStats { key: self.hosts[slot].key.clone(), total, in_use });
                proof {
                    origin = origin.push(slot as int);
                    assert forall|i: int| 0 <= i < stats@.len() implies 0 <= #[trigger] origin[i]
                        < slot + 1 && row_matches(stats@[i], self.hosts@[origin[i]]) by {
                        if i < rows.len() {
                            assert(stats@[i] == rows[i]);
                            assert(origin[i] == from[i]);
                        }
                    }
                    assert forall|i: int, j: int| 0 <= i < j < stats@.len() implies #[trigger] origin[i]
                        < #[trigger] origin[j] by {
                        assert(origin[i] == from[i]);
                        if j < rows.len() {
                            assert(origin[j] == from[j]);
                        }
                    }
                    assert forall|h: int|
                        0 <= h < slot + 1 && (#[trigger] self.hosts@[h]).connections@.len()
                            > 0 implies exists|i: int|
                        0 <= i < stats@.len() && origin[i] == h by {
                        if h < slot {
                            let i = choose|i: int| 0 <= i < rows.len() && from[i] == h;
                            assert(origin[i] == h);
                        } else {
                            assert(origin[rows.len() as int] == h);
                        }
                    }
                }
            }
            slot += 1;
        }
        proof {
            assert forall|i: int| 0 <= i < stats@.len() implies {
                let row = #[trigger] stats@[i];
                &&& row.total == self.connections(row.key@).len()
                &&& row.total > 0
                &&& row.in_use == in_use_count(self.connections(row.key@))
            } by {
                assert(0 <= origin[i] < slot);
                lemma_lookup_at(self.hosts@, origin[i]);
            }
            assert forall|i: int, j: int| 0 <= i < j < stats@.len() implies (
            #[trigger] stats@[i]).key@ != (#[trigger] stats@[j]).key@ by {
                assert(0 <= origin[i] < origin[j] < slot);
                assert(self.hosts@[origin[i]].key@ != self.hosts@[origin[j]].key@);
            }
            assert forall|key: HostKeyView| self.connections(key).len() > 0 implies exists|i: int|

                0 <= i < stats@.len() && (#[trigger] stats@[i]).key@ == key by {
                let h = choose|h: int| holds_key(self.hosts@, key, h);
                assert(holds_key(self.hosts@, key, h));
                lemma_lookup_at(self.hosts@, h);
                assert(self.hosts@[h].connections@.len() > 0);
                let i = choose|i: int| 0 <= i < stats@.len() && origin[i] == h;
                assert(0 <= origin[i] < slot);
                assert(stats@[i].key@ == key);
            }
        }
        stats
    }
}

impl SSHConnection {
    /// Whether the connection has been idle for more than `idle_timeout_ms`
    /// at `now`.
    pub fn is_expired(&self, now: u64, idle_timeout_ms: u64) -> (gone: bool)
        ensures
            gone == expired(*self, now, idle_timeout_ms),
    {
        is_expired_at(self, now, idle_timeout_ms)
    }
}

} // verus!
