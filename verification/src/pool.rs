//! Connection pool for the Responses WebSocket transport.
//!
//! One connection per `(base_url, account, session)` so that each
//! conversation chain keeps its server-side warm cache while the agent
//! alternates between conversations. The pool holds at most `max`
//! connections; when a new key arrives at a full pool the least recently
//! used connection is evicted. A connection whose bearer token no longer
//! matches, or that is close to the server's hard age limit, is dropped on
//! checkout instead of being handed out.
//!
//! Entries are kept in one vector ordered by recency (front = most recent);
//! the keys in it are pairwise distinct.

use vstd::prelude::*;

use crate::text::{contains_str, has_substring, str_eq};

verus! {

/// Default soft cap on simultaneously cached connections.
pub const DEFAULT_POOL_MAX: usize = 10;

/// Environment variable that overrides [`DEFAULT_POOL_MAX`].
pub const POOL_MAX_ENV: &'static str = "TAU_WS_POOL_MAX";

/// Age (in milliseconds) at which a cached connection is reopened instead
/// of reused: five minutes under the server's sixty-minute hard cap.
pub const MAX_CONNECTION_AGE_MS: u64 = 3_300_000;

/// Error of a Responses request.
#[derive(Debug)]
pub enum LlmError {
    /// An HTTP status with its body; status 0 marks a transport failure.
    HttpStatus(u16, String),
}

/// Connection settings of a Responses backend.
#[derive(Debug)]
pub struct ResponsesConfig {
    pub base_url: String,
    pub api_key: String,
    pub model_id: String,
    pub account_id: Option<String>,
    pub supports_reasoning_effort: bool,
    pub supports_reasoning_summary: bool,
    pub supports_verbosity: bool,
    pub supports_phase: bool,
    pub supports_websocket: bool,
    pub prompt_cache_key: Option<String>,
    pub prompt_cache_retention: Option<String>,
}

/// The view of an optional string.
pub open spec fn opt_view(o: Option<String>) -> Option<Seq<char>> {
    match o {
        Some(s) => Some(s@),
        None => None,
    }
}

/// A copy of an optional string.
pub fn clone_opt(o: &Option<String>) -> (res: Option<String>)
    ensures
        opt_view(res) == opt_view(*o),
{
    match o {
        Some(s) => Some(s.clone()),
        None => None,
    }
}

/// Whether two optional strings hold the same text.
pub fn opt_str_eq(a: &Option<String>, b: &Option<String>) -> (res: bool)
    ensures
        res == (opt_view(*a) == opt_view(*b)),
{
    match (a, b) {
        (Some(x), Some(y)) => str_eq(x.as_str(), y.as_str()),
        (None, None) => true,
        _ => false,
    }
}

/// Pool key: the socket realm (`base_url`, `account_id`) and the
/// conversation (`session_id`).
#[derive(Clone, Debug, PartialEq, Eq, Hash)]
pub struct PoolKey {
    pub base_url: String,
    pub account_id: Option<String>,
    pub session_id: String,
}

impl View for PoolKey {
    type V = (Seq<char>, Option<Seq<char>>, Seq<char>);

    open spec fn view(&self) -> Self::V {
        (self.base_url@, opt_view(self.account_id), self.session_id@)
    }
}

impl PoolKey {
    /// The key of a request on `session_id` under `config`'s realm.
    pub fn for_request(config: &ResponsesConfig, session_id: &str) -> (res: Self)
        ensures
            res@ == (config.base_url@, opt_view(config.account_id), session_id@),
    {
        PoolKey {
            base_url: config.base_url.clone(),
            account_id: clone_opt(&config.account_id),
            session_id: session_id.to_owned(),
        }
    }

    /// Whether two keys name the same realm and session.
    pub fn same_as(&self, other: &PoolKey) -> (res: bool)
        ensures
            res == (self@ == other@),
    {
        str_eq(self.base_url.as_str(), other.base_url.as_str())
            && opt_str_eq(&self.account_id, &other.account_id)
            && str_eq(self.session_id.as_str(), other.session_id.as_str())
    }
}

/// One cached connection with what checkout validates it against.
pub struct PoolEntry<C> {
    pub key: PoolKey,
    pub conn: C,
    /// Bearer token the connection was opened with.
    pub bearer: String,
    /// Monotonic time of the upgrade, in milliseconds.
    pub opened_at_ms: u64,
}

/// Some entry has key `k`.
pub open spec fn has_key<C>(s: Seq<PoolEntry<C>>, k: (Seq<char>, Option<Seq<char>>, Seq<char>)) -> bool {
    exists|i: int| 0 <= i < s.len() && #[trigger] s[i].key@ == k
}

/// The position of the entry with key `k` (meaningful when there is one).
pub open spec fn key_index<C>(s: Seq<PoolEntry<C>>, k: (Seq<char>, Option<Seq<char>>, Seq<char>)) -> int {
    choose|i: int| 0 <= i < s.len() && #[trigger] s[i].key@ == k
}

/// No two entries share a key.
pub open spec fn distinct_keys<C>(s: Seq<PoolEntry<C>>) -> bool {
    forall|i: int, j: int| 0 <= i < s.len() && 0 <= j < s.len() && i != j ==> #[trigger] s[i].key@ != #[trigger] s[j].key@
}

/// A valid pool state under capacity `max`.
pub open spec fn valid_pool<C>(s: Seq<PoolEntry<C>>, max: nat) -> bool {
    0 < max && s.len() <= max && distinct_keys(s)
}

/// The connection is at or past the age limit at `now_ms`.
pub open spec fn is_aged(opened_at_ms: u64, now_ms: u64) -> bool {
    now_ms >= opened_at_ms + MAX_CONNECTION_AGE_MS
}

/// A cached connection may serve a request carrying `bearer` at `now_ms`.
pub open spec fn usable<C>(e: PoolEntry<C>, bearer: Seq<char>, now_ms: u64) -> bool {
    e.bearer@ == bearer && !is_aged(e.opened_at_ms, now_ms)
}

/// The entries without the one keyed `k`.
pub open spec fn without_key<C>(s: Seq<PoolEntry<C>>, k: (Seq<char>, Option<Seq<char>>, Seq<char>)) -> Seq<PoolEntry<C>> {
    if has_key(s, k) {
        s.remove(key_index(s, k))
    } else {
        s
    }
}

/// What checkout hands out: the cached connection for `k` when it is usable.
pub open spec fn checkout_result<C>(
    s: Seq<PoolEntry<C>>,
    k: (Seq<char>, Option<Seq<char>>, Seq<char>),
    bearer: Seq<char>,
    now_ms: u64,
) -> Option<C> {
    if has_key(s, k) && usable(s[key_index(s, k)], bearer, now_ms) {
        Some(s[key_index(s, k)].conn)
    } else {
        None
    }
}

/// The entries left after an eviction that makes room for `k`: the least
/// recently used one goes when the pool is full and `k` is new.
pub open spec fn after_eviction<C>(
    s: Seq<PoolEntry<C>>,
    max: nat,
    k: (Seq<char>, Option<Seq<char>>, Seq<char>),
) -> Seq<PoolEntry<C>> {
    if s.len() >= max && !has_key(s, k) {
        s.drop_last()
    } else {
        s
    }
}

/// The entries after releasing `e`: `e` in front, followed by the others
/// in their order, minus an evicted one.
pub open spec fn release_result<C>(s: Seq<PoolEntry<C>>, max: nat, e: PoolEntry<C>) -> Seq<PoolEntry<C>> {
    seq![e] + without_key(after_eviction(s, max, e.key@), e.key@)
}

/// Distinct keys locate their entry uniquely.
pub proof fn lemma_key_index<C>(s: Seq<PoolEntry<C>>, i: int)
    requires
        distinct_keys(s),
        0 <= i < s.len(),
    ensures
        has_key(s, s[i].key@),
        key_index(s, s[i].key@) == i,
{
    assert(s[i].key@ == s[i].key@);
    let j = key_index(s, s[i].key@);
    if j != i {
        assert(s[j].key@ != s[i].key@);
    }
}

/// Removing an entry keeps the keys distinct and drops its key.
pub proof fn lemma_remove_distinct<C>(s: Seq<PoolEntry<C>>, i: int)
    requires
        distinct_keys(s),
        0 <= i < s.len(),
    ensures
        distinct_keys(s.remove(i)),
        !has_key(s.remove(i), s[i].key@),
        forall|k| k != s[i].key@ ==> (has_key(s.remove(i), k) <==> has_key(s, k)),
{
    let r = s.remove(i);
    assert forall|a: int, b: int| 0 <= a < r.len() && 0 <= b < r.len() && a != b implies #[trigger] r[a].key@ != #[trigger] r[b].key@ by {
        let a2 = if a < i { a } else { a + 1 };
        let b2 = if b < i { b } else { b + 1 };
        assert(r[a] == s[a2]);
        assert(r[b] == s[b2]);
    }
    if has_key(r, s[i].key@) {
        let a = key_index(r, s[i].key@);
        let a2 = if a < i { a } else { a + 1 };
        assert(r[a] == s[a2]);
    }
    assert forall|k| k != s[i].key@ implies (has_key(r, k) <==> has_key(s, k)) by {
        if has_key(s, k) {
            let j = key_index(s, k);
            let j2 = if j < i { j } else { j - 1 };
            assert(r[j2] == s[j]);
        }
        if has_key(r, k) {
            let a = key_index(r, k);
            let a2 = if a < i { a } else { a + 1 };
            assert(r[a] == s[a2]);
        }
    }
}

/// Dropping the last entry keeps the keys distinct and loses no other key
/// than the last one's.
pub proof fn lemma_drop_last_distinct<C>(s: Seq<PoolEntry<C>>)
    requires
        distinct_keys(s),
        s.len() > 0,
    ensures
        distinct_keys(s.drop_last()),
        forall|k| has_key(s.drop_last(), k) ==> has_key(s, k),
{
    let r = s.drop_last();
    assert forall|a: int, b: int| 0 <= a < r.len() && 0 <= b < r.len() && a != b implies #[trigger] r[a].key@ != #[trigger] r[b].key@ by {
        assert(r[a] == s[a]);
        assert(r[b] == s[b]);
    }
    assert forall|k| has_key(r, k) implies has_key(s, k) by {
        let a = key_index(r, k);
        assert(r[a] == s[a]);
    }
}

/// Single-threaded pool of connections, generic over the connection type.
pub struct WsPool<C> {
    entries: Vec<PoolEntry<C>>,
    max: usize,
}

impl<C> WsPool<C> {
    /// The cached entries, most recently used first.
    pub closed spec fn entries(&self) -> Seq<PoolEntry<C>> {
        self.entries@
    }

    /// The cap on cached connections.
    pub closed spec fn capacity(&self) -> nat {
        self.max as nat
    }

    /// The pool is well formed: within capacity and keyed uniquely.
    pub open spec fn wf(&self) -> bool {
        valid_pool(self.entries(), self.capacity())
    }

    /// An empty pool holding at most `max` connections.
    pub fn with_max(max: usize) -> (res: Self)
        requires
            max > 0,
        ensures
            res.wf(),
            res.entries() == Seq::<PoolEntry<C>>::empty(),
            res.capacity() == max,
    {
        WsPool { entries: Vec::new(), max }
    }

    /// Position of the entry keyed `key`, if any.
    fn find(&self, key: &PoolKey) -> (res: Option<usize>)
        requires
            self.wf(),
        ensures
            match res {
                Some(i) => i < self.entries().len() && self.entries()[i as int].key@ == key@
                    && key_index(self.entries(), key@) == i && has_key(self.entries(), key@),
                None => !has_key(self.entries(), key@),
            },
    {
        let mut i: usize = 0;
        while i < self.entries.len()
            invariant
                self.wf(),
                i <= self.entries@.len(),
                forall|j: int| 0 <= j < i ==> self.entries@[j].key@ != key@,
            decreases self.entries@.len() - i,
        {
            if self.entries[i].key.same_as(key) {
                proof {
                    lemma_key_index(self.entries@, i as int);
                }
                return Some(i);
            }
            i = i + 1;
        }
        None
    }

    /// The usable connection for `key` and when it was opened, taken out
    /// of the pool; the pool no longer holds an entry for `key`.
    fn take_usable(&mut self, key: &PoolKey, current_bearer: &str, now_ms: u64) -> (res: Option<(C, u64)>)
        requires
            old(self).wf(),
        ensures
            final(self).wf(),
            final(self).capacity() == old(self).capacity(),
            final(self).entries() == without_key(old(self).entries(), key@),
            match checkout_result(old(self).entries(), key@, current_bearer@, now_ms) {
                Some(c) => res == Some((c, old(self).entries()[key_index(old(self).entries(), key@)].opened_at_ms)),
                None => res is None,
            },
    {
        match self.find(key) {
            None => None,
            Some(i) => {
                proof {
                    lemma_remove_distinct(self.entries@, i as int);
                }
                let entry = self.entries.remove(i);
                let fresh = str_eq(entry.bearer.as_str(), current_bearer)
                    && !(now_ms >= entry.opened_at_ms && now_ms - entry.opened_at_ms >= MAX_CONNECTION_AGE_MS);
                if fresh {
                    Some((entry.conn, entry.opened_at_ms))
                } else {
                    None
                }
            },
        }
    }

    /// Takes the connection for `key` out of the pool when it was opened
    /// with `current_bearer` and is younger than the age limit at `now_ms`.
    /// Whatever the outcome, the pool no longer holds an entry for `key`:
    /// a stale or aged connection is dropped, a usable one is handed to
    /// the caller, who puts it back with [`Self::release`].
    pub fn checkout(&mut self, key: &PoolKey, current_bearer: &str, now_ms: u64) -> (res: Option<C>)
        requires
            old(self).wf(),
        ensures
            final(self).wf(),
            final(self).capacity() == old(self).capacity(),
            final(self).entries() == without_key(old(self).entries(), key@),
            res == checkout_result(old(self).entries(), key@, current_bearer@, now_ms),
    {
        match self.take_usable(key, current_bearer, now_ms) {
            Some((conn, _opened_at_ms)) => Some(conn),
            None => None,
        }
    }

    /// Runs one turn over the pooled connection for `key`: the cached
    /// connection when checkout hands it out, else one that `connect`
    /// opens (and reports the opening time of). After a successful turn
    /// the connection goes back into the pool as the most recently used;
    /// after a failed one it is dropped, so the next turn reopens.
    pub fn run_turn_through_pool<T, F, G>(
        &mut self,
        key: PoolKey,
        bearer: String,
        now_ms: u64,
        connect: F,
        run: G,
    ) -> (res: Result<T, LlmError>)
        where
            F: FnOnce() -> Result<(C, u64), LlmError>,
            G: FnOnce(C) -> (C, Result<T, LlmError>),
        requires
            old(self).wf(),
            connect.requires(()),
            forall|c: C| #[trigger] run.requires((c,)),
        ensures
            final(self).wf(),
            final(self).capacity() == old(self).capacity(),
            match res {
                Err(_) => final(self).entries() == without_key(old(self).entries(), key@),
                Ok(t) => exists|used: C, e: PoolEntry<C>| {
                    &&& e.key@ == key@
                    &&& e.bearer@ == bearer@
                    &&& final(self).entries() == release_result(without_key(old(self).entries(), key@), old(self).capacity(), e)
                    &&& #[trigger] run.ensures((used,), (e.conn, Ok::<T, LlmError>(t)))
                    &&& match checkout_result(old(self).entries(), key@, bearer@, now_ms) {
                        Some(c) => used == c && e.opened_at_ms == old(self).entries()[key_index(old(self).entries(), key@)].opened_at_ms,
                        None => connect.ensures((), Ok::<(C, u64), LlmError>((used, e.opened_at_ms))),
                    }
                },
            },
    {
        let ghost s0 = self.entries();
        let taken = self.take_usable(&key, bearer.as_str(), now_ms);
        let (conn, opened_at_ms) = match taken {
            Some(pair) => pair,
            None => match connect() {
                Ok(pair) => pair,
                Err(err) => {
                    return Err(err);
                },
            },
        };
        let ghost used = conn;
        let (conn, outcome) = run(conn);
        match outcome {
            Ok(t) => {
                let ghost kv = key@;
                let ghost bv = bearer@;
                let ghost c2 = conn;
                self.release(key, conn, bearer, opened_at_ms);
                proof {
                    let e = PoolEntry { key: key, conn: c2, bearer: bearer, opened_at_ms };
                    assert(run.ensures((used,), (e.conn, Ok::<T, LlmError>(t))));
                }
                Ok(t)
            },
            Err(err) => Err(err),
        }
    }

    /// Puts a connection (newly opened or just used) into the pool as the
    /// most recently used one, replacing any entry with the same key and
    /// evicting the least recently used entry when a new key arrives at a
    /// full pool.
    pub fn release(&mut self, key: PoolKey, conn: C, bearer: String, opened_at_ms: u64)
        requires
            old(self).wf(),
        ensures
            final(self).wf(),
            final(self).capacity() == old(self).capacity(),
            final(self).entries() == release_result(
                old(self).entries(),
                old(self).capacity(),
                (PoolEntry { key, conn, bearer, opened_at_ms }),
            ),
    {
        let ghost k = key@;
        let ghost s0 = self.entries@;
        if self.entries.len() >= self.max {
            match self.find(&key) {
                Some(_) => {},
                None => {
                    proof {
                        lemma_drop_last_distinct(self.entries@);
                    }
                    let _evicted = self.entries.pop();
                },
            }
        }
        let ghost s1 = self.entries@;
        assert(s1 == after_eviction(s0, self.max as nat, k));
        assert(distinct_keys(s1));
        match self.find(&key) {
            Some(i) => {
                proof {
                    lemma_remove_distinct(self.entries@, i as int);
                }
                let _replaced = self.entries.remove(i);
            },
            None => {},
        }
        let ghost s2 = self.entries@;
        assert(s2 == without_key(s1, k));
        assert(!has_key(s2, k));
        let entry = PoolEntry { key, conn, bearer, opened_at_ms };
        self.entries.insert(0, entry);
        assert(self.entries@ =~= seq![entry] + s2);
        assert forall|a: int, b: int|
            0 <= a < self.entries@.len() && 0 <= b < self.entries@.len() && a != b implies
            #[trigger] self.entries@[a].key@ != #[trigger] self.entries@[b].key@ by {
            if a == 0 {
                assert(self.entries@[b] == s2[b - 1]);
            } else if b == 0 {
                assert(self.entries@[a] == s2[a - 1]);
            } else {
                assert(self.entries@[a] == s2[a - 1]);
                assert(self.entries@[b] == s2[b - 1]);
            }
        }
        proof {
            if s0.len() >= self.max && !has_key(s0, k) {
                assert(s1.len() + 1 == s0.len());
            } else if has_key(s1, k) {
                assert(s2.len() + 1 == s1.len());
            }
        }
    }

    /// Drops every cached connection.
    pub fn flush(&mut self)
        requires
            old(self).wf(),
        ensures
            final(self).wf(),
            final(self).capacity() == old(self).capacity(),
            final(self).entries() == Seq::<PoolEntry<C>>::empty(),
    {
        self.entries.clear();
    }

    /// Number of cached connections.
    pub fn len(&self) -> (res: usize)
        ensures
            res == self.entries().len(),
    {
        self.entries.len()
    }
}

/// The pool size cap from the `TAU_WS_POOL_MAX` setting: its value when it
/// parses as a positive integer, [`DEFAULT_POOL_MAX`] otherwise.
pub fn pool_max_from_setting(value: Option<&str>) -> (res: usize)
    ensures
        res > 0,
        res == (match value {
            Some(v) => match crate::text::parse_bounded(v@, usize::MAX as nat) {
                Some(n) => if n > 0 { n as usize } else { DEFAULT_POOL_MAX },
                None => DEFAULT_POOL_MAX,
            },
            None => DEFAULT_POOL_MAX,
        }),
{
    match value {
        Some(v) => match crate::text::parse_unsigned(v, usize::MAX as u64) {
            Some(n) => if n > 0 { n as usize } else { DEFAULT_POOL_MAX },
            None => DEFAULT_POOL_MAX,
        },
        None => DEFAULT_POOL_MAX,
    }
}

// ---------------------------------------------------------------------------
// Laws
// ---------------------------------------------------------------------------

/// Every pool operation keeps the pool within its capacity and keyed
/// uniquely: checkout, release and flush map valid states to valid states.
pub proof fn law_operations_keep_pool_valid<C>(
    s: Seq<PoolEntry<C>>,
    max: nat,
    e: PoolEntry<C>,
    k: (Seq<char>, Option<Seq<char>>, Seq<char>),
)
    requires
        valid_pool(s, max),
    ensures
        valid_pool(without_key(s, k), max),
        valid_pool(release_result(s, max, e), max),
        valid_pool(Seq::<PoolEntry<C>>::empty(), max),
{
    if has_key(s, k) {
        let i = key_index(s, k);
        lemma_remove_distinct(s, i);
    }
    let s1 = after_eviction(s, max, e.key@);
    if s.len() >= max && !has_key(s, e.key@) {
        lemma_drop_last_distinct(s);
    }
    let s2 = without_key(s1, e.key@);
    if has_key(s1, e.key@) {
        lemma_remove_distinct(s1, key_index(s1, e.key@));
    }
    let r = release_result(s, max, e);
    assert(r =~= seq![e] + s2);
    assert forall|a: int, b: int| 0 <= a < r.len() && 0 <= b < r.len() && a != b implies
        #[trigger] r[a].key@ != #[trigger] r[b].key@ by {
        if a == 0 {
            assert(r[b] == s2[b - 1]);
        } else if b == 0 {
            assert(r[a] == s2[a - 1]);
        } else {
            assert(r[a] == s2[a - 1]);
            assert(r[b] == s2[b - 1]);
        }
    }
    if s.len() >= max && !has_key(s, e.key@) {
        assert(s1.len() + 1 == s.len());
    } else if has_key(s1, e.key@) {
        assert(s2.len() + 1 == s1.len());
    }
}

/// A connection released into the pool is handed back by the next
/// checkout of its key with the same bearer while it is younger than the
/// age limit, and that checkout leaves the pool as it was before the
/// release, minus the entry the release may have evicted.
pub proof fn law_release_then_checkout_returns_connection<C>(
    s: Seq<PoolEntry<C>>,
    max: nat,
    e: PoolEntry<C>,
    now_ms: u64,
)
    requires
        valid_pool(s, max),
        !is_aged(e.opened_at_ms, now_ms),
    ensures
        checkout_result(release_result(s, max, e), e.key@, e.bearer@, now_ms) == Some(e.conn),
        without_key(release_result(s, max, e), e.key@) == without_key(after_eviction(s, max, e.key@), e.key@),
{
    law_operations_keep_pool_valid(s, max, e, e.key@);
    let r = release_result(s, max, e);
    lemma_key_index(r, 0);
    assert(r.remove(0) =~= without_key(after_eviction(s, max, e.key@), e.key@));
}

/// Work on one conversation does not disturb another's connection: a
/// release or checkout for key `k2` keeps the entry of a different key
/// `k1` unless the release had to evict it as the least recently used
/// entry of a full pool.
pub proof fn law_other_keys_are_kept<C>(
    s: Seq<PoolEntry<C>>,
    max: nat,
    e: PoolEntry<C>,
    k1: (Seq<char>, Option<Seq<char>>, Seq<char>),
    k2: (Seq<char>, Option<Seq<char>>, Seq<char>),
    bearer: Seq<char>,
    now_ms: u64,
)
    requires
        valid_pool(s, max),
        has_key(s, k1),
        k1 != k2,
        k1 != e.key@,
    ensures
        has_key(without_key(s, k2), k1),
        without_key(s, k2)[key_index(without_key(s, k2), k1)] == s[key_index(s, k1)],
        (s.len() < max || has_key(s, e.key@) || key_index(s, k1) < s.len() - 1) ==> (
            has_key(release_result(s, max, e), k1)
            && release_result(s, max, e)[key_index(release_result(s, max, e), k1)] == s[key_index(s, k1)]),
{
    law_operations_keep_pool_valid(s, max, e, k2);
    let i = key_index(s, k1);
    assert(s[i].key@ == k1);
    // checkout of k2
    if has_key(s, k2) {
        let j = key_index(s, k2);
        lemma_remove_distinct(s, j);
        let r = s.remove(j);
        let i2 = if i < j { i } else { i - 1 };
        assert(r[i2] == s[i]);
        lemma_key_index(r, i2);
    }
    // release of e
    if s.len() < max || has_key(s, e.key@) || i < s.len() - 1 {
        let s1 = after_eviction(s, max, e.key@);
        if s.len() >= max && !has_key(s, e.key@) {
            lemma_drop_last_distinct(s);
            assert(s1[i] == s[i]);
        }
        assert(s1[i] == s[i]);
        let s2 = without_key(s1, e.key@);
        let i2 = if has_key(s1, e.key@) {
            let j = key_index(s1, e.key@);
            lemma_remove_distinct(s1, j);
            if i < j { i } else { i - 1 }
        } else {
            i
        };
        assert(s2[i2] == s[i]);
        let r = release_result(s, max, e);
        assert(r[i2 + 1] == s[i]);
        lemma_key_index(r, i2 + 1);
    }
}

/// A new key released into a full pool evicts exactly the least recently
/// used entry: the pool stays at capacity and no longer holds the key that
/// was last in recency order.
pub proof fn law_full_pool_evicts_least_recent<C>(s: Seq<PoolEntry<C>>, max: nat, e: PoolEntry<C>)
    requires
        valid_pool(s, max),
        s.len() == max,
        !has_key(s, e.key@),
    ensures
        release_result(s, max, e).len() == max,
        !has_key(release_result(s, max, e), s.last().key@),
{
    law_operations_keep_pool_valid(s, max, e, e.key@);
    lemma_drop_last_distinct(s);
    let s1 = s.drop_last();
    assert(!has_key(s1, e.key@));
    let r = release_result(s, max, e);
    assert(r =~= seq![e] + s1);
    lemma_key_index(s, s.len() - 1);
    if has_key(r, s.last().key@) {
        let a = key_index(r, s.last().key@);
        if a > 0 {
            assert(r[a] == s[a - 1]);
        } else {
            assert(e.key@ == s.last().key@);
            assert(has_key(s, e.key@));
        }
    }
}

// ---------------------------------------------------------------------------
// URL and error helpers
// ---------------------------------------------------------------------------

/// `s` without trailing `/` characters.
pub open spec fn trim_trailing_slashes(s: Seq<char>) -> Seq<char>
    decreases s.len(),
{
    if s.len() > 0 && s.last() == '/' {
        trim_trailing_slashes(s.drop_last())
    } else {
        s
    }
}

/// `s` starts with `p`.
pub open spec fn starts_with(s: Seq<char>, p: Seq<char>) -> bool {
    p.len() <= s.len() && s.subrange(0, p.len() as int) == p
}

/// The WebSocket endpoint for an HTTP base URL: the scheme becomes `wss`
/// or `ws`, the path gains `/codex/responses`.
pub open spec fn ws_url_spec(base_url: Seq<char>) -> Option<Seq<char>> {
    let base = trim_trailing_slashes(base_url);
    if starts_with(base, "https://"@) {
        Some("wss://"@ + base.skip(8) + "/codex/responses"@)
    } else if starts_with(base, "http://"@) {
        Some("ws://"@ + base.skip(7) + "/codex/responses"@)
    } else {
        None
    }
}

/// Characters of `s` with trailing `/` removed.
fn trim_slashes(s: &str) -> (res: Vec<char>)
    ensures
        res@ == trim_trailing_slashes(s@),
{
    let mut cs = crate::text::chars_of(s);
    while cs.len() > 0 && cs[cs.len() - 1] == '/'
        invariant
            trim_trailing_slashes(cs@) == trim_trailing_slashes(s@),
        decreases cs@.len(),
    {
        let _ = cs.pop();
    }
    cs
}

/// Whether `cs` starts with the characters of `p`.
fn chars_start_with(cs: &Vec<char>, p: &str) -> (res: bool)
    ensures
        res == starts_with(cs@, p@),
{
    let pc = crate::text::chars_of(p);
    if pc.len() > cs.len() {
        return false;
    }
    let mut i: usize = 0;
    while i < pc.len()
        invariant
            pc@ == p@,
            pc@.len() <= cs@.len(),
            i <= pc@.len(),
            forall|j: int| 0 <= j < i ==> cs@[j] == pc@[j],
        decreases pc@.len() - i,
    {
        if cs[i] != pc[i] {
            assert(cs@.subrange(0, pc@.len() as int)[i as int] != pc@[i as int]);
            return false;
        }
        i = i + 1;
    }
    assert(cs@.subrange(0, pc@.len() as int) =~= pc@);
    true
}

/// A string of the characters `cs[from..]`.
fn string_from(cs: &Vec<char>, from: usize) -> (res: String)
    requires
        from <= cs@.len(),
    ensures
        res@ == cs@.skip(from as int),
{
    let mut out = String::new();
    let mut i = from;
    while i < cs.len()
        invariant
            from <= i <= cs@.len(),
            out@ == cs@.subrange(from as int, i as int),
        decreases cs@.len() - i,
    {
        crate::text::push_char(&mut out, cs[i]);
        assert(out@ =~= cs@.subrange(from as int, i + 1));
        i = i + 1;
    }
    assert(out@ =~= cs@.skip(from as int));
    out
}

/// Maps the configured HTTP base URL to the `ws://` / `wss://` URL of the
/// WebSocket endpoint (same path, `/codex/responses`, other scheme). Any
/// other scheme is an error naming the base URL.
pub fn build_ws_url(base_url: &str) -> (res: Result<String, LlmError>)
    ensures
        match ws_url_spec(base_url@) {
            Some(u) => res matches Ok(s) && s@ == u,
            None => res matches Err(LlmError::HttpStatus(code, msg))
                && code == 0 && msg@ == "ws scheme unsupported in base_url: "@ + base_url@,
        },
{
    let base = trim_slashes(base_url);
    proof {
        reveal_strlit("https://");
        reveal_strlit("http://");
    }
    if chars_start_with(&base, "https://") {
        let rest = string_from(&base, 8);
        let mut out = crate::text::owned("wss://");
        crate::text::push_str(&mut out, rest.as_str());
        crate::text::push_str(&mut out, "/codex/responses");
        Ok(out)
    } else if chars_start_with(&base, "http://") {
        let rest = string_from(&base, 7);
        let mut out = crate::text::owned("ws://");
        crate::text::push_str(&mut out, rest.as_str());
        crate::text::push_str(&mut out, "/codex/responses");
        Ok(out)
    } else {
        let mut msg = crate::text::owned("ws scheme unsupported in base_url: ");
        crate::text::push_str(&mut msg, base_url);
        Err(LlmError::HttpStatus(0, msg))
    }
}

/// A 4xx status whose body mentions `previous_response`: the server no
/// longer holds the chain this request continued.
pub open spec fn stale_chain(status: u16, body: Seq<char>) -> bool {
    400 <= status && status < 500 && has_substring(body, "previous_response"@)
}

/// Whether `err` says that the server evicted the chained response state,
/// so the request should be re-sent with the full transcript.
pub fn is_stale_chain_error(err: &LlmError) -> (res: bool)
    ensures
        res == (match err {
            LlmError::HttpStatus(status, body) => stale_chain(*status, body@),
        }),
{
    match err {
        LlmError::HttpStatus(status, body) => {
            400 <= *status && *status < 500 && contains_str(body.as_str(), "previous_response")
        },
    }
}

// ---------------------------------------------------------------------------
// Pool statistics
// ---------------------------------------------------------------------------

/// Lifetime counters of the pool.
#[derive(Clone, Copy, Debug, Default, PartialEq, Eq, Structural)]
pub struct WsPoolStats {
    pub upgrades: u64,
    pub silent_reconnects: u64,
    pub chain_strips_on_fresh: u64,
}

/// Counter increments between two snapshots, as sent on the wire.
#[derive(Clone, Copy, Debug, Default, PartialEq, Eq, Structural)]
pub struct WsPoolDelta {
    pub upgrades: u32,
    pub silent_reconnects: u32,
    pub chain_strips_on_fresh: u32,
}

/// `after - before`, floored at zero and capped at `u32::MAX`.
pub open spec fn counter_delta(before: u64, after: u64) -> u32 {
    if after <= before {
        0
    } else if after - before > u32::MAX {
        u32::MAX
    } else {
        (after - before) as u32
    }
}

fn delta_u32(before: u64, after: u64) -> (res: u32)
    ensures
        res == counter_delta(before, after),
{
    let d = after.saturating_sub(before);
    if d > u32::MAX as u64 {
        u32::MAX
    } else {
        d as u32
    }
}

/// Per-counter difference between two snapshots, saturating at zero when a
/// counter went backwards and clamped to `u32::MAX`.
pub fn compute_ws_pool_delta(before: WsPoolStats, after: WsPoolStats) -> (res: WsPoolDelta)
    ensures
        res.upgrades == counter_delta(before.upgrades, after.upgrades),
        res.silent_reconnects == counter_delta(before.silent_reconnects, after.silent_reconnects),
        res.chain_strips_on_fresh == counter_delta(before.chain_strips_on_fresh, after.chain_strips_on_fresh),
{
    WsPoolDelta {
        upgrades: delta_u32(before.upgrades, after.upgrades),
        silent_reconnects: delta_u32(before.silent_reconnects, after.silent_reconnects),
        chain_strips_on_fresh: delta_u32(before.chain_strips_on_fresh, after.chain_strips_on_fresh),
    }
}

} // verus!
