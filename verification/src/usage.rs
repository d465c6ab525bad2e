//! Token usage accounting: session totals plus one bucket per model.
//!
//! Every counter saturates at `u64::MAX` instead of overflowing. The
//! per-model buckets are kept sorted by model name with no name twice, so
//! they serialize in a stable order.

use vstd::prelude::*;

use crate::text::{compare_text, seq_lt};

verus! {

/// Token usage bucket for one model or the session total.
#[derive(Clone, Copy, Debug, Default, PartialEq, Eq, Structural)]
pub struct TokenUsageCounts {
    /// Requests made to the LLM backend.
    pub requests: u64,
    /// Tokens sent to the LLM backend.
    pub sent_tokens: u64,
    /// Sent tokens reported as provider-cache hits.
    pub cached_tokens: u64,
    /// Completed tokens received from the LLM backend.
    pub received_tokens: u64,
    /// Tokens received for the currently streaming response.
    pub in_progress_received_tokens: u64,
}

/// `a + b`, saturated at `u64::MAX`.
pub open spec fn sat_add(a: u64, b: u64) -> u64 {
    if a + b > u64::MAX { u64::MAX } else { (a + b) as u64 }
}

/// A bucket with every counter at zero.
pub open spec fn zero_counts() -> TokenUsageCounts {
    TokenUsageCounts { requests: 0, sent_tokens: 0, cached_tokens: 0, received_tokens: 0, in_progress_received_tokens: 0 }
}

impl TokenUsageCounts {
    /// The same counts with the in-progress received tokens replaced.
    pub fn with_in_progress_received(self, in_progress_received_tokens: u64) -> (res: Self)
        ensures
            res == (TokenUsageCounts { in_progress_received_tokens, ..self }),
    {
        let mut c = self;
        c.in_progress_received_tokens = in_progress_received_tokens;
        c
    }
}

/// Model names in strictly increasing order.
pub open spec fn models_sorted(s: Seq<(String, TokenUsageCounts)>) -> bool {
    forall|i: int, j: int| 0 <= i < j < s.len() ==> seq_lt(#[trigger] s[i].0@, #[trigger] s[j].0@)
}

/// The bucket of `model`, if there is one.
pub open spec fn bucket(s: Seq<(String, TokenUsageCounts)>, model: Seq<char>) -> Option<TokenUsageCounts> {
    if exists|i: int| 0 <= i < s.len() && #[trigger] s[i].0@ == model {
        Some(s[choose|i: int| 0 <= i < s.len() && #[trigger] s[i].0@ == model].1)
    } else {
        None
    }
}

/// Session-scoped token usage totals, plus per-model buckets.
#[derive(Debug)]
pub struct TokenUsageStats {
    pub total: TokenUsageCounts,
    /// Buckets by model name, sorted by name.
    pub by_model: Vec<(String, TokenUsageCounts)>,
}

/// Sorted keys are distinct, so each name locates its bucket uniquely.
proof fn lemma_bucket_at(s: Seq<(String, TokenUsageCounts)>, i: int)
    requires
        models_sorted(s),
        0 <= i < s.len(),
    ensures
        bucket(s, s[i].0@) == Some(s[i].1),
{
    assert(s[i].0@ == s[i].0@);
    let j = choose|j: int| 0 <= j < s.len() && #[trigger] s[j].0@ == s[i].0@;
    if j < i {
        assert(seq_lt(s[j].0@, s[i].0@));
        crate::text::lemma_seq_lt_order(s[j].0@, s[i].0@, s[i].0@);
    } else if j > i {
        assert(seq_lt(s[i].0@, s[j].0@));
        crate::text::lemma_seq_lt_order(s[i].0@, s[j].0@, s[j].0@);
    }
}

/// A bucket after a request and token counts are added to it, each
/// counter saturating.
pub open spec fn bumped(c: TokenUsageCounts, inc_requests: bool, sent: u64, cached: u64, received: u64) -> TokenUsageCounts {
    TokenUsageCounts {
        requests: if inc_requests { sat_add(c.requests, 1) } else { c.requests },
        sent_tokens: sat_add(c.sent_tokens, sent),
        cached_tokens: sat_add(c.cached_tokens, cached),
        received_tokens: sat_add(c.received_tokens, received),
        ..c
    }
}

/// `new` is `old` with the bucket of `model` set to `c`: in place when
/// `model` had a bucket, else inserted at some position.
pub open spec fn bucket_replaced(old: Seq<(String, TokenUsageCounts)>, new: Seq<(String, TokenUsageCounts)>, model: Seq<char>, c: TokenUsageCounts) -> bool {
    ||| exists|i: int| {
        &&& 0 <= i < old.len()
        &&& #[trigger] old[i].0@ == model
        &&& new.len() == old.len()
        &&& new[i].0@ == model
        &&& new[i].1 == c
        &&& forall|j: int| 0 <= j < old.len() && j != i ==> new[j] == old[j]
    }
    ||| exists|i: int| {
        &&& 0 <= i <= old.len()
        &&& bucket(old, model) is None
        &&& new.len() == old.len() + 1
        &&& #[trigger] new[i].0@ == model
        &&& new[i].1 == c
        &&& forall|j: int| 0 <= j < i ==> new[j] == old[j]
        &&& forall|j: int| i < j < new.len() ==> new[j] == old[j - 1]
    }
}

impl TokenUsageStats {
    /// The buckets are sorted by model name.
    pub open spec fn wf(&self) -> bool {
        models_sorted(self.by_model@)
    }

    /// Adds a request (when `inc_requests`) and token counts to the bucket
    /// of `model`, created at zero when missing; other buckets and the order
    /// are kept.
    fn update_bucket(&mut self, model: &str, inc_requests: bool, sent: u64, cached: u64, received: u64)
        requires
            old(self).wf(),
        ensures
            final(self).wf(),
            final(self).total == old(self).total,
            ({
                let old_c = match bucket(old(self).by_model@, model@) {
                    Some(c) => c,
                    None => zero_counts(),
                };
                &&& bucket(final(self).by_model@, model@) == Some(bumped(old_c, inc_requests, sent, cached, received))
                &&& bucket_replaced(old(self).by_model@, final(self).by_model@, model@, bumped(old_c, inc_requests, sent, cached, received))
            }),
            forall|m: Seq<char>| m != model@ ==> bucket(final(self).by_model@, m) == bucket(old(self).by_model@, m),
    {
        let ghost s = self.by_model@;
        let mut i: usize = 0;
        let mut found = false;
        let mut stop = false;
        while i < self.by_model.len() && !stop
            invariant
                self.by_model@ == s,
                models_sorted(s),
                i <= s.len(),
                forall|j: int| 0 <= j < i ==> seq_lt(#[trigger] s[j].0@, model@),
                stop ==> i < s.len() && (found ==> s[i as int].0@ == model@) && (!found ==> seq_lt(model@, s[i as int].0@)),
                !stop ==> !found,
            decreases s.len() - i + (if stop { 0int } else { 1int }),
        {
            let c = compare_text(self.by_model[i].0.as_str(), model);
            if c == 0 {
                found = true;
                stop = true;
            } else if c > 0 {
                stop = true;
            } else {
                i = i + 1;
            }
        }
        if found {
            proof {
                lemma_bucket_at(s, i as int);
            }
            let old_c = self.by_model[i].1;
            let new_c = TokenUsageCounts {
                requests: if inc_requests { old_c.requests.saturating_add(1) } else { old_c.requests },
                sent_tokens: old_c.sent_tokens.saturating_add(sent),
                cached_tokens: old_c.cached_tokens.saturating_add(cached),
                received_tokens: old_c.received_tokens.saturating_add(received),
                in_progress_received_tokens: old_c.in_progress_received_tokens,
            };
            let name = self.by_model[i].0.clone();
            self.by_model.set(i, (name, new_c));
            let ghost t = self.by_model@;
            assert(models_sorted(t)) by {
                assert forall|a: int, b: int| 0 <= a < b < t.len() implies seq_lt(#[trigger] t[a].0@, #[trigger] t[b].0@) by {
                    assert(t[a].0@ == s[a].0@);
                    assert(t[b].0@ == s[b].0@);
                }
            }
            proof {
                lemma_bucket_at(t, i as int);
                assert(s[i as int].0@ == model@);
                assert(t[i as int].0@ == model@);
                assert(forall|j: int| 0 <= j < s.len() && j != i ==> t[j] == s[j]);
                assert forall|m: Seq<char>| m != model@ implies bucket(t, m) == bucket(s, m) by {
                    if exists|k: int| 0 <= k < s.len() && #[trigger] s[k].0@ == m {
                        let k = choose|k: int| 0 <= k < s.len() && #[trigger] s[k].0@ == m;
                        lemma_bucket_at(s, k);
                        assert(t[k].0@ == m);
                        lemma_bucket_at(t, k);
                    } else {
                        assert forall|k: int| 0 <= k < t.len() implies #[trigger] t[k].0@ != m by {
                            assert(t[k].0@ == s[k].0@);
                        }
                    }
                }
            }
        } else {
            let new_c = TokenUsageCounts {
                requests: if inc_requests { 1 } else { 0 },
                sent_tokens: sent,
                cached_tokens: cached,
                received_tokens: received,
                in_progress_received_tokens: 0,
            };
            proof {
                assert forall|j: int| 0 <= j < s.len() implies #[trigger] s[j].0@ != model@ by {
                    crate::text::lemma_seq_lt_order(s[j].0@, model@, model@);
                    if j > i {
                        assert(seq_lt(s[i as int].0@, s[j].0@));
                        crate::text::lemma_seq_lt_order(model@, s[i as int].0@, s[j].0@);
                    }
                }
            }
            let pos = i;
            self.by_model.insert(pos, (model.to_owned(), new_c));
            let ghost t = self.by_model@;
            assert(t =~= s.insert(pos as int, t[pos as int]));
            assert(models_sorted(t)) by {
                assert forall|a: int, b: int| 0 <= a < b < t.len() implies seq_lt(#[trigger] t[a].0@, #[trigger] t[b].0@) by {
                    if b < pos {
                        assert(t[a] == s[a] && t[b] == s[b]);
                    } else if b == pos {
                        assert(t[a] == s[a]);
                    } else if a == pos {
                        assert(t[b] == s[b - 1]);
                        if b - 1 > pos {
                            assert(seq_lt(s[pos as int].0@, s[b - 1].0@));
                            crate::text::lemma_seq_lt_order(model@, s[pos as int].0@, s[b - 1].0@);
                        }
                    } else if a < pos {
                        assert(t[a] == s[a] && t[b] == s[b - 1]);
                        assert(seq_lt(s[a].0@, model@));
                        if pos < s.len() {
                            assert(seq_lt(model@, s[pos as int].0@));
                            if b - 1 > pos {
                                assert(seq_lt(s[pos as int].0@, s[b - 1].0@));
                                crate::text::lemma_seq_lt_order(model@, s[pos as int].0@, s[b - 1].0@);
                            }
                        }
                        crate::text::lemma_seq_lt_order(s[a].0@, model@, s[b - 1].0@);
                    } else {
                        assert(t[a] == s[a - 1] && t[b] == s[b - 1]);
                    }
                }
            }
            proof {
                lemma_bucket_at(t, pos as int);
                assert(bucket(s, model@) is None);
                assert(t[pos as int].0@ == model@);
                assert(forall|j: int| 0 <= j < pos ==> t[j] == s[j]);
                assert(forall|j: int| pos < j < t.len() ==> t[j] == s[j - 1]);
                assert forall|m: Seq<char>| m != model@ implies bucket(t, m) == bucket(s, m) by {
                    if exists|k: int| 0 <= k < s.len() && #[trigger] s[k].0@ == m {
                        let k = choose|k: int| 0 <= k < s.len() && #[trigger] s[k].0@ == m;
                        lemma_bucket_at(s, k);
                        let k2 = if k < pos { k } else { k + 1 };
                        assert(t[k2] == s[k]);
                        lemma_bucket_at(t, k2);
                    } else {
                        assert forall|k: int| 0 <= k < t.len() implies #[trigger] t[k].0@ != m by {
                            if k < pos {
                                assert(t[k] == s[k]);
                            } else if k > pos {
                                assert(t[k] == s[k - 1]);
                            }
                        }
                    }
                }
            }
        }
    }

    /// Counts one request to `model`.
    pub fn start_request(&mut self, model: &str)
        requires
            old(self).wf(),
        ensures
            final(self).wf(),
            final(self).total == bumped(old(self).total, true, 0, 0, 0),
            bucket_replaced(old(self).by_model@, final(self).by_model@, model@, bumped(bucket_or_zero(old(self).by_model@, model@), true, 0, 0, 0)),
            final(self).total == (TokenUsageCounts { requests: sat_add(old(self).total.requests, 1), ..old(self).total }),
            bucket(final(self).by_model@, model@) == Some(match bucket(old(self).by_model@, model@) {
                Some(c) => TokenUsageCounts { requests: sat_add(c.requests, 1), ..c },
                None => TokenUsageCounts { requests: 1, ..zero_counts() },
            }),
            forall|m: Seq<char>| m != model@ ==> bucket(final(self).by_model@, m) == bucket(old(self).by_model@, m),
            forall|k: Counter|
                counter(old(self).total, k) == bucket_sum(old(self).by_model@, k)
                    && counter(old(self).total, k) + increment(k, true, 0, 0, 0) <= u64::MAX
                    ==> #[trigger] counter(final(self).total, k) == bucket_sum(final(self).by_model@, k),
    {
        self.total.requests = self.total.requests.saturating_add(1);
        self.update_bucket(model, true, 0, 0, 0);
        proof {
            assert forall|k: Counter|
                counter(old(self).total, k) == bucket_sum(old(self).by_model@, k)
                    && counter(old(self).total, k) + increment(k, true, 0, 0, 0) <= u64::MAX
                    implies #[trigger] counter(self.total, k) == bucket_sum(self.by_model@, k) by {
                law_counter_stays_bucket_sum(*old(self), *self, model@, true, 0, 0, 0, k);
            }
        }
    }

    /// Counts `sent_tokens` sent to `model`, `cached_tokens` of them cached.
    pub fn add_sent(&mut self, model: &str, sent_tokens: u64, cached_tokens: u64)
        requires
            old(self).wf(),
        ensures
            final(self).wf(),
            final(self).total == bumped(old(self).total, false, sent_tokens, cached_tokens, 0),
            bucket_replaced(old(self).by_model@, final(self).by_model@, model@, bumped(bucket_or_zero(old(self).by_model@, model@), false, sent_tokens, cached_tokens, 0)),
            final(self).total == (TokenUsageCounts {
                sent_tokens: sat_add(old(self).total.sent_tokens, sent_tokens),
                cached_tokens: sat_add(old(self).total.cached_tokens, cached_tokens),
                ..old(self).total
            }),
            bucket(final(self).by_model@, model@) == Some(match bucket(old(self).by_model@, model@) {
                Some(c) => TokenUsageCounts {
                    sent_tokens: sat_add(c.sent_tokens, sent_tokens),
                    cached_tokens: sat_add(c.cached_tokens, cached_tokens),
                    ..c
                },
                None => TokenUsageCounts { sent_tokens, cached_tokens, ..zero_counts() },
            }),
            forall|m: Seq<char>| m != model@ ==> bucket(final(self).by_model@, m) == bucket(old(self).by_model@, m),
            forall|k: Counter|
                counter(old(self).total, k) == bucket_sum(old(self).by_model@, k)
                    && counter(old(self).total, k) + increment(k, false, sent_tokens, cached_tokens, 0) <= u64::MAX
                    ==> #[trigger] counter(final(self).total, k) == bucket_sum(final(self).by_model@, k),
    {
        self.total.sent_tokens = self.total.sent_tokens.saturating_add(sent_tokens);
        self.total.cached_tokens = self.total.cached_tokens.saturating_add(cached_tokens);
        self.update_bucket(model, false, sent_tokens, cached_tokens, 0);
        proof {
            assert forall|k: Counter|
                counter(old(self).total, k) == bucket_sum(old(self).by_model@, k)
                    && counter(old(self).total, k) + increment(k, false, sent_tokens, cached_tokens, 0) <= u64::MAX
                    implies #[trigger] counter(self.total, k) == bucket_sum(self.by_model@, k) by {
                law_counter_stays_bucket_sum(*old(self), *self, model@, false, sent_tokens, cached_tokens, 0, k);
            }
        }
    }

    /// Counts `received_tokens` received from `model`.
    pub fn add_received(&mut self, model: &str, received_tokens: u64)
        requires
            old(self).wf(),
        ensures
            final(self).wf(),
            final(self).total == bumped(old(self).total, false, 0, 0, received_tokens),
            bucket_replaced(old(self).by_model@, final(self).by_model@, model@, bumped(bucket_or_zero(old(self).by_model@, model@), false, 0, 0, received_tokens)),
            final(self).total == (TokenUsageCounts {
                received_tokens: sat_add(old(self).total.received_tokens, received_tokens),
                ..old(self).total
            }),
            bucket(final(self).by_model@, model@) == Some(match bucket(old(self).by_model@, model@) {
                Some(c) => TokenUsageCounts { received_tokens: sat_add(c.received_tokens, received_tokens), ..c },
                None => TokenUsageCounts { received_tokens, ..zero_counts() },
            }),
            forall|m: Seq<char>| m != model@ ==> bucket(final(self).by_model@, m) == bucket(old(self).by_model@, m),
            forall|k: Counter|
                counter(old(self).total, k) == bucket_sum(old(self).by_model@, k)
                    && counter(old(self).total, k) + increment(k, false, 0, 0, received_tokens) <= u64::MAX
                    ==> #[trigger] counter(final(self).total, k) == bucket_sum(final(self).by_model@, k),
    {
        self.total.received_tokens = self.total.received_tokens.saturating_add(received_tokens);
        self.update_bucket(model, false, 0, 0, received_tokens);
        proof {
            assert forall|k: Counter|
                counter(old(self).total, k) == bucket_sum(old(self).by_model@, k)
                    && counter(old(self).total, k) + increment(k, false, 0, 0, received_tokens) <= u64::MAX
                    implies #[trigger] counter(self.total, k) == bucket_sum(self.by_model@, k) by {
                law_counter_stays_bucket_sum(*old(self), *self, model@, false, 0, 0, received_tokens, k);
            }
        }
    }
}

impl Default for TokenUsageStats {
    /// No usage: zero totals and no buckets.
    fn default() -> (res: Self)
        ensures
            res.wf(),
            totals_match(res),
            res.total == zero_counts(),
            res.by_model@ == Seq::<(String, TokenUsageCounts)>::empty(),
    {
        TokenUsageStats {
            total: TokenUsageCounts {
                requests: 0,
                sent_tokens: 0,
                cached_tokens: 0,
                received_tokens: 0,
                in_progress_received_tokens: 0,
            },
            by_model: Vec::new(),
        }
    }
}

/// The bucket of `model`, or a zero bucket when there is none.
pub open spec fn bucket_or_zero(s: Seq<(String, TokenUsageCounts)>, model: Seq<char>) -> TokenUsageCounts {
    match bucket(s, model) {
        Some(c) => c,
        None => zero_counts(),
    }
}

/// A counter that the session total sums over the buckets.
pub enum Counter {
    Requests,
    Sent,
    Cached,
    Received,
}

/// The value of counter `k` in `c`.
pub open spec fn counter(c: TokenUsageCounts, k: Counter) -> int {
    match k {
        Counter::Requests => c.requests as int,
        Counter::Sent => c.sent_tokens as int,
        Counter::Cached => c.cached_tokens as int,
        Counter::Received => c.received_tokens as int,
    }
}

/// The sum of counter `k` over the buckets.
pub open spec fn bucket_sum(s: Seq<(String, TokenUsageCounts)>, k: Counter) -> int
    decreases s.len(),
{
    if s.len() == 0 {
        0
    } else {
        bucket_sum(s.drop_last(), k) + counter(s.last().1, k)
    }
}

/// The session total of each counter is the sum of that counter over the
/// per-model buckets.
pub open spec fn totals_match(stats: TokenUsageStats) -> bool {
    forall|k: Counter| #[trigger] counter(stats.total, k) == bucket_sum(stats.by_model@, k)
}

proof fn lemma_sum_update(old: Seq<(String, TokenUsageCounts)>, new: Seq<(String, TokenUsageCounts)>, i: int, k: Counter)
    requires
        new.len() == old.len(),
        0 <= i < old.len(),
        forall|j: int| 0 <= j < old.len() && j != i ==> new[j] == old[j],
    ensures
        bucket_sum(new, k) == bucket_sum(old, k) - counter(old[i].1, k) + counter(new[i].1, k),
    decreases old.len(),
{
    if i == old.len() - 1 {
        assert(new.drop_last() =~= old.drop_last());
    } else {
        lemma_sum_update(old.drop_last(), new.drop_last(), i, k);
        assert(new.last() == old.last());
    }
}

proof fn lemma_sum_insert(old: Seq<(String, TokenUsageCounts)>, new: Seq<(String, TokenUsageCounts)>, i: int, k: Counter)
    requires
        new.len() == old.len() + 1,
        0 <= i <= old.len(),
        forall|j: int| 0 <= j < i ==> new[j] == old[j],
        forall|j: int| i < j < new.len() ==> new[j] == old[j - 1],
    ensures
        bucket_sum(new, k) == bucket_sum(old, k) + counter(new[i].1, k),
    decreases old.len(),
{
    if i == old.len() {
        assert(new.drop_last() =~= old);
    } else {
        lemma_sum_insert(old.drop_last(), new.drop_last(), i, k);
        assert(new.last() == old.last());
    }
}

proof fn lemma_bucket_le_sum(s: Seq<(String, TokenUsageCounts)>, i: int, k: Counter)
    requires
        0 <= i < s.len(),
    ensures
        counter(s[i].1, k) <= bucket_sum(s, k),
    decreases s.len(),
{
    if i < s.len() - 1 {
        lemma_bucket_le_sum(s.drop_last(), i, k);
        assert(s.drop_last()[i] == s[i]);
    }
    assert(bucket_sum(s.drop_last(), k) >= 0) by {
        lemma_sum_nonneg(s.drop_last(), k);
    }
}

proof fn lemma_sum_nonneg(s: Seq<(String, TokenUsageCounts)>, k: Counter)
    ensures
        bucket_sum(s, k) >= 0,
    decreases s.len(),
{
    if s.len() > 0 {
        lemma_sum_nonneg(s.drop_last(), k);
    }
}

/// What one call adds to counter `k`: one request when a request is
/// counted, else the tokens of that kind.
pub open spec fn increment(k: Counter, inc_requests: bool, sent: u64, cached: u64, received: u64) -> int {
    match k {
        Counter::Requests => if inc_requests { 1int } else { 0int },
        Counter::Sent => sent as int,
        Counter::Cached => cached as int,
        Counter::Received => received as int,
    }
}

/// Counter by counter, the session total is the sum of the per-model
/// buckets and stays so: when total `k` is the sum of counter `k` over the
/// buckets before `start_request`, `add_sent` or `add_received`, and total
/// `k` does not saturate, it is still that sum afterwards, whatever the
/// other counters hold.
pub proof fn law_counter_stays_bucket_sum(
    old: TokenUsageStats,
    new: TokenUsageStats,
    model: Seq<char>,
    inc_requests: bool,
    sent: u64,
    cached: u64,
    received: u64,
    k: Counter,
)
    requires
        old.wf(),
        counter(old.total, k) == bucket_sum(old.by_model@, k),
        new.total == bumped(old.total, inc_requests, sent, cached, received),
        bucket_replaced(old.by_model@, new.by_model@, model, bumped(bucket_or_zero(old.by_model@, model), inc_requests, sent, cached, received)),
        counter(old.total, k) + increment(k, inc_requests, sent, cached, received) <= u64::MAX,
    ensures
        counter(new.total, k) == bucket_sum(new.by_model@, k),
        counter(new.total, k) == counter(old.total, k) + increment(k, inc_requests, sent, cached, received),
{
    let s = old.by_model@;
    let t = new.by_model@;
    let oc = bucket_or_zero(s, model);
    let nc = bumped(oc, inc_requests, sent, cached, received);
    if exists|i: int| {
        &&& 0 <= i < s.len()
        &&& #[trigger] s[i].0@ == model
        &&& t.len() == s.len()
        &&& t[i].0@ == model
        &&& t[i].1 == nc
        &&& forall|j: int| 0 <= j < s.len() && j != i ==> t[j] == s[j]
    } {
        let i = choose|i: int| {
            &&& 0 <= i < s.len()
            &&& #[trigger] s[i].0@ == model
            &&& t.len() == s.len()
            &&& t[i].0@ == model
            &&& t[i].1 == nc
            &&& forall|j: int| 0 <= j < s.len() && j != i ==> t[j] == s[j]
        };
        lemma_bucket_at(s, i);
        assert(oc == s[i].1);
        lemma_sum_update(s, t, i, k);
        lemma_bucket_le_sum(s, i, k);
    } else {
        let i = choose|i: int| {
            &&& 0 <= i <= s.len()
            &&& bucket(s, model) is None
            &&& t.len() == s.len() + 1
            &&& #[trigger] t[i].0@ == model
            &&& t[i].1 == nc
            &&& forall|j: int| 0 <= j < i ==> t[j] == s[j]
            &&& forall|j: int| i < j < t.len() ==> t[j] == s[j - 1]
        };
        assert(oc == zero_counts());
        lemma_sum_insert(s, t, i, k);
    }
}

/// The session totals are the sums of the per-model buckets, and counting
/// a request or tokens for a model keeps them so while no total
/// saturates: the empty statistics start that way (see `default`), and
/// `start_request`, `add_sent` and `add_received` each change one total
/// and the same counter of one bucket by the same amount.
pub proof fn law_totals_stay_bucket_sums(
    old: TokenUsageStats,
    new: TokenUsageStats,
    model: Seq<char>,
    inc_requests: bool,
    sent: u64,
    cached: u64,
    received: u64,
)
    requires
        old.wf(),
        totals_match(old),
        new.total == bumped(old.total, inc_requests, sent, cached, received),
        bucket_replaced(old.by_model@, new.by_model@, model, bumped(bucket_or_zero(old.by_model@, model), inc_requests, sent, cached, received)),
        old.total.requests + (if inc_requests { 1int } else { 0int }) <= u64::MAX,
        old.total.sent_tokens + sent <= u64::MAX,
        old.total.cached_tokens + cached <= u64::MAX,
        old.total.received_tokens + received <= u64::MAX,
    ensures
        totals_match(new),
{
    assert forall|k: Counter| #[trigger] counter(new.total, k) == bucket_sum(new.by_model@, k) by {
        assert(counter(old.total, k) == bucket_sum(old.by_model@, k));
        law_counter_stays_bucket_sum(old, new, model, inc_requests, sent, cached, received, k);
    }
}

/// Usage stats attached to one completed agent response.
#[derive(Debug, Default)]
pub struct AgentTokenUsage {
    pub model: String,
    pub prompt_sent_tokens: u64,
    pub prompt_cached_tokens: u64,
    pub response_received_tokens: u64,
    pub stats: TokenUsageStats,
}

} // verus!
