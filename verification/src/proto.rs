//! Protocol value types: prompt fragments and hooks, interception
//! priorities, secrets, event-log sequencing, timestamps and the plain
//! control-plane message payloads.

use vstd::prelude::*;

use crate::cbor::CborValue;
pub use crate::priority::PromptPriority;
use crate::text::{compare_text, seq_lt};

verus! {

/// Text fragment inserted into a composed system prompt.
#[derive(Clone, Debug, Default, PartialEq, Eq, Hash, PartialOrd, Ord)]
pub struct PromptContent(pub String);

impl View for PromptContent {
    type V = Seq<char>;

    open spec fn view(&self) -> Seq<char> {
        self.0@
    }
}

impl PromptContent {
    /// Prompt content holding `s`.
    pub fn new(s: String) -> (res: Self)
        ensures
            res@ == s@,
    {
        PromptContent(s)
    }

    /// The prompt text.
    pub fn as_str(&self) -> (res: &str)
        ensures
            res@ == self@,
    {
        self.0.as_str()
    }

    /// The owned prompt text.
    pub fn into_string(self) -> (res: String)
        ensures
            res@ == self@,
    {
        self.0
    }

    /// Whether the prompt text is empty.
    pub fn is_empty(&self) -> (res: bool)
        ensures
            res == (self@.len() == 0),
    {
        self.0.as_str().unicode_len() == 0
    }

    /// A copy of this content.
    pub fn duplicate(&self) -> (res: Self)
        ensures
            res@ == self@,
    {
        PromptContent(self.0.clone())
    }
}

/// One prompt fragment template contributed by a tool or extension.
#[derive(Clone, Debug, PartialEq, Eq, Hash)]
pub struct PromptFragment {
    /// Stable fragment name, preferably namespaced by producer.
    pub name: String,
    /// Coarse placement among fragments; lower values render first.
    pub priority: PromptPriority,
    /// Template rendered into prompt text.
    pub template: PromptContent,
}

impl PromptFragment {
    /// One prompt fragment template.
    pub fn new(name: String, priority: PromptPriority, template: PromptContent) -> (res: Self)
        ensures
            res.name@ == name@,
            res.priority == priority,
            res.template@ == template@,
    {
        PromptFragment { name, priority, template }
    }
}

/// Order of hook entries: by priority, then by content.
pub open spec fn hook_lt(a: (u16, Seq<char>), b: (u16, Seq<char>)) -> bool {
    a.0 < b.0 || (a.0 == b.0 && seq_lt(a.1, b.1))
}

/// Entries in strictly increasing hook order.
pub open spec fn hook_sorted(s: Seq<(u16, Seq<char>)>) -> bool {
    forall|i: int, j: int| 0 <= i < j < s.len() ==> hook_lt(#[trigger] s[i], #[trigger] s[j])
}

/// In a hook, lower priority values come first: of two entries, the one
/// with the lower priority stands earlier, and hook contents are rendered
/// in hook order.
pub proof fn law_hook_lists_lower_priorities_first(h: Seq<(u16, Seq<char>)>, i: int, j: int)
    requires
        hook_sorted(h),
        0 <= i < h.len(),
        0 <= j < h.len(),
        h[i].0 < h[j].0,
    ensures
        i < j,
{
    if j < i {
        assert(hook_lt(h[j], h[i]));
    }
}

/// Ordered set of prompt contents keyed by priority, as a system-prompt
/// hook collects them; iteration yields them in priority order, equal
/// priorities by content.
#[derive(Debug)]
pub struct PromptHook {
    entries: Vec<(PromptPriority, PromptContent)>,
}

/// The view of hook entries.
pub open spec fn hook_view(s: Seq<(PromptPriority, PromptContent)>) -> Seq<(u16, Seq<char>)> {
    Seq::new(s.len(), |i: int| (s[i].0.0, s[i].1@))
}

impl View for PromptHook {
    type V = Seq<(u16, Seq<char>)>;

    closed spec fn view(&self) -> Seq<(u16, Seq<char>)> {
        hook_view(self.entries@)
    }
}

impl PromptHook {
    /// The hook is kept in strictly increasing order.
    pub open spec fn wf(&self) -> bool {
        hook_sorted(self@)
    }

    /// An empty hook.
    pub fn new() -> (res: Self)
        ensures
            res.wf(),
            res@ == Seq::<(u16, Seq<char>)>::empty(),
    {
        let res = PromptHook { entries: Vec::new() };
        assert(res@ =~= Seq::<(u16, Seq<char>)>::empty());
        res
    }

    /// Adds an entry; returns whether it was not present yet. The hook stays
    /// ordered and holds exactly the old entries and the new one.
    pub fn insert(&mut self, entry: (PromptPriority, PromptContent)) -> (res: bool)
        requires
            old(self).wf(),
        ensures
            final(self).wf(),
            final(self)@.to_set() == old(self)@.to_set().insert((entry.0.0, entry.1@)),
            res == !old(self)@.contains((entry.0.0, entry.1@)),
    {
        let ghost e = (entry.0.0, entry.1@);
        let ghost s = self@;
        let mut i: usize = 0;
        let mut stop = false;
        while i < self.entries.len() && !stop
            invariant
                self@ == s,
                e == (entry.0.0, entry.1@),
                hook_sorted(s),
                i <= s.len(),
                forall|j: int| 0 <= j < i ==> hook_lt(#[trigger] s[j], e),
                stop ==> i < s.len() && hook_lt(e, s[i as int]),
            decreases s.len() - i + (if stop { 0int } else { 1int }),
        {
            let c = compare_text(self.entries[i].1.as_str(), entry.1.as_str());
            let p = self.entries[i].0.0;
            assert(s[i as int] == (p, self.entries@[i as int].1@));
            proof {
                crate::text::lemma_seq_lt_order(s[i as int].1, e.1, e.1);
            }
            if p == entry.0.0 && c == 0 {
                assert(s[i as int] == e);
                assert(s.contains(e));
                assert(s.to_set().insert(e) =~= s.to_set());
                return false;
            }
            if p > entry.0.0 || (p == entry.0.0 && c > 0) {
                stop = true;
            } else {
                i = i + 1;
            }
        }
        proof {
            assert forall|j: int| 0 <= j < s.len() implies s[j] != e by {
                if j < i {
                    crate::text::lemma_seq_lt_order(s[j].1, e.1, e.1);
                } else {
                    if i < s.len() {
                        assert(hook_lt(e, s[i as int]));
                        if j > i {
                            assert(hook_lt(s[i as int], s[j]));
                            crate::text::lemma_seq_lt_order(e.1, s[i as int].1, s[j].1);
                        }
                        crate::text::lemma_seq_lt_order(e.1, s[j].1, s[j].1);
                    }
                }
            }
        }
        let ghost pos = i as int;
        self.entries.insert(i, entry);
        assert(self@ =~= s.insert(pos, e));
        assert forall|a: int, b: int| 0 <= a < b < self@.len() implies hook_lt(#[trigger] self@[a], #[trigger] self@[b]) by {
            let t = self@;
            if b < pos {
                assert(t[a] == s[a] && t[b] == s[b]);
            } else if b == pos {
                assert(t[a] == s[a]);
            } else if a == pos {
                assert(t[b] == s[b - 1]);
                if b - 1 > pos {
                    assert(hook_lt(s[pos], s[b - 1]));
                    crate::text::lemma_seq_lt_order(e.1, s[pos].1, s[b - 1].1);
                }
            } else if a < pos {
                assert(t[a] == s[a] && t[b] == s[b - 1]);
                if b - 1 > a {
                } else {
                }
                assert(hook_lt(s[a], e));
                if pos < s.len() {
                    assert(hook_lt(e, s[pos]));
                }
                crate::text::lemma_seq_lt_order(s[a].1, s[b - 1].1, s[b - 1].1);
            } else {
                assert(t[a] == s[a - 1] && t[b] == s[b - 1]);
            }
        }
        assert(self@.to_set() =~= s.to_set().insert(e)) by {
            assert forall|x| self@.to_set().contains(x) <==> s.to_set().insert(e).contains(x) by {
                if self@.contains(x) {
                    let k = choose|k: int| 0 <= k < self@.len() && self@[k] == x;
                    if k < pos {
                        assert(s[k] == x);
                    } else if k > pos {
                        assert(s[k - 1] == x);
                    }
                }
                if s.contains(x) {
                    let k = choose|k: int| 0 <= k < s.len() && s[k] == x;
                    if k < pos {
                        assert(self@[k] == x);
                    } else {
                        assert(self@[k + 1] == x);
                    }
                }
                if x == e {
                    assert(self@[pos] == e);
                }
            }
        }
        true
    }

    /// The entries in iteration order.
    pub fn entries(&self) -> (res: &Vec<(PromptPriority, PromptContent)>)
        ensures
            hook_view(res@) == self@,
    {
        &self.entries
    }
}

/// Interception priority. Lower values run first.
#[derive(Clone, Copy, Debug, Default, PartialEq, Eq, Structural, Hash, PartialOrd, Ord)]
pub struct InterceptionPriority(pub i64);

impl InterceptionPriority {
    /// A priority with numeric ordering value `v`.
    pub fn new(v: i64) -> (res: Self)
        ensures
            res.0 == v,
    {
        InterceptionPriority(v)
    }

    /// The numeric ordering value.
    pub fn get(self) -> (res: i64)
        ensures
            res == self.0,
    {
        self.0
    }
}

/// Secret text passed from the harness to one authorized extension.
#[derive(Clone, PartialEq, Eq)]
pub struct SecretValue(String);

impl View for SecretValue {
    type V = Seq<char>;

    closed spec fn view(&self) -> Seq<char> {
        self.0@
    }
}

impl SecretValue {
    /// Wraps a resolved secret value for transport.
    pub fn new(value: String) -> (res: Self)
        ensures
            res@ == value@,
    {
        SecretValue(value)
    }

    /// The underlying secret text.
    pub fn expose_secret(&self) -> (res: &str)
        ensures
            res@ == self@,
    {
        self.0.as_str()
    }

    /// The debug rendering, which never shows the secret.
    pub fn redacted(&self) -> (res: &'static str)
        ensures
            res@ == "<redacted>"@,
    {
        "<redacted>"
    }
}

/// Monotonic sequence assigned by the harness runtime event stream.
#[derive(Clone, Copy, Debug, Default, PartialEq, Eq, Structural, PartialOrd, Ord, Hash)]
pub struct EventLogSeq(pub u64);

impl EventLogSeq {
    /// The sequence number `v`.
    pub fn new(v: u64) -> (res: Self)
        ensures
            res.0 == v,
    {
        EventLogSeq(v)
    }

    /// The numeric value.
    pub fn get(self) -> (res: u64)
        ensures
            res == self.0,
    {
        self.0
    }

    /// The following sequence number.
    pub fn next(self) -> (res: Self)
        requires
            self.0 < u64::MAX,
        ensures
            res.0 == self.0 + 1,
    {
        EventLogSeq(self.0 + 1)
    }
}

/// Wall-clock time as microseconds since the UNIX epoch.
#[derive(Clone, Copy, Debug, Default, PartialEq, Eq, Structural, PartialOrd, Ord, Hash)]
pub struct UnixMicros(pub u64);

#[verifier::external_type_specification]
#[verifier::external_body]
pub struct ExSystemTime(std::time::SystemTime);

/// The current time on the system clock.
///
/// Trusted wrapper around `SystemTime::now`; nothing is claimed of the
/// reading, which depends on the clock.
#[verifier::external_body]
pub(crate) fn system_time_now() -> (res: std::time::SystemTime) {
    std::time::SystemTime::now()
}

/// The time elapsed from the UNIX epoch to `t`, or `None` when `t` is
/// before the epoch.
///
/// Trusted wrapper around `SystemTime::duration_since` with `UNIX_EPOCH`;
/// a system time is opaque here, so nothing is claimed of the duration.
#[verifier::external_body]
pub(crate) fn since_unix_epoch(t: &std::time::SystemTime) -> (res: Option<core::time::Duration>) {
    t.duration_since(std::time::UNIX_EPOCH).ok()
}

/// The whole seconds of a duration.
///
/// Trusted wrapper around `Duration::as_secs`; a duration is opaque here,
/// so nothing is claimed of the number.
#[verifier::external_body]
pub(crate) fn whole_seconds(d: &core::time::Duration) -> (res: u64) {
    d.as_secs()
}

/// The whole microseconds of a duration.
///
/// Trusted wrapper around `Duration::as_micros`; a duration is opaque here,
/// so nothing is claimed of the number.
#[verifier::external_body]
fn whole_micros(d: &core::time::Duration) -> (res: u128) {
    d.as_micros()
}

/// A clock reading as `UnixMicros`: saturated at `u64::MAX`, zero for a
/// clock before the epoch.
pub fn micros_from_reading(reading: Option<u128>) -> (res: UnixMicros)
    ensures
        res.0 == (match reading {
            Some(m) => if m > u64::MAX { u64::MAX as int } else { m as int },
            None => 0int,
        }),
{
    match reading {
        Some(m) => if m > u64::MAX as u128 { UnixMicros(u64::MAX) } else { UnixMicros(m as u64) },
        None => UnixMicros(0),
    }
}

impl UnixMicros {
    /// The timestamp `v`.
    pub fn new(v: u64) -> (res: Self)
        ensures
            res.0 == v,
    {
        UnixMicros(v)
    }

    /// The numeric value.
    pub fn get(self) -> (res: u64)
        ensures
            res == self.0,
    {
        self.0
    }

    /// Reads the current wall clock, saturating on bogus clocks instead of
    /// failing.
    pub fn now() -> (res: Self) {
        let reading = match since_unix_epoch(&system_time_now()) {
            Some(elapsed) => Some(whole_micros(&elapsed)),
            None => None,
        };
        micros_from_reading(reading)
    }
}

// ---------------------------------------------------------------------------
// Plain control-plane payloads
// ---------------------------------------------------------------------------

/// Readiness notification emitted after startup or handshake.
#[derive(Debug, Default)]
pub struct Ready {
    pub message: Option<String>,
}

/// Disconnect notification with an optional reason.
#[derive(Debug, Default)]
pub struct Disconnect {
    pub reason: Option<String>,
}

/// Configuration handed to an extension at startup.
pub struct Configure {
    /// Free-form extension configuration from harness settings.
    pub config: CborValue,
    /// Persistent directory reserved for this extension's runtime state.
    pub state_dir: Option<String>,
    /// Secret values authorized for this extension, by name.
    pub secrets: Vec<(String, SecretValue)>,
}

/// Reported by an extension whose configuration is unusable.
#[derive(Debug)]
pub struct ConfigError {
    pub message: String,
}

/// Request to render the effective system prompt for one role.
#[derive(Debug)]
pub struct GetRenderedSystemPrompt {
    pub request_id: String,
    pub role: String,
}

/// Response to [`GetRenderedSystemPrompt`].
#[derive(Debug)]
pub struct RenderedSystemPromptResult {
    pub request_id: String,
    pub prompt: Option<String>,
    pub error: Option<String>,
}

/// Request to report the effective tools for one role.
#[derive(Debug)]
pub struct GetRenderedToolDefinitions {
    pub request_id: String,
    pub role: String,
}

/// Storage scope of an extension data request.
#[derive(Clone, Copy, Debug, PartialEq, Eq, Structural)]
pub enum ExtensionDataScope {
    Session,
    User,
    Cache,
}

/// Extension request for harness-mediated file access.
#[derive(Debug)]
pub struct ExtensionDataRequest {
    pub request_id: String,
    pub scope: ExtensionDataScope,
    pub op: ExtensionDataRequestOp,
}

/// File operation of an extension data request.
#[derive(Debug)]
pub enum ExtensionDataRequestOp {
    ReadFile { path: String },
    WriteFile { path: String, contents: Vec<u8> },
    ListFiles { path: String },
}

/// Harness response to an [`ExtensionDataRequest`].
#[derive(Debug)]
pub struct ExtensionDataResult {
    pub request_id: String,
    pub result: ExtensionDataResultPayload,
}

/// Result payload of an extension data request.
#[derive(Debug)]
pub enum ExtensionDataResultPayload {
    Succeeded { value: ExtensionDataValue },
    Error { message: String },
}

/// Successful value of an extension data request.
#[derive(Debug)]
pub enum ExtensionDataValue {
    ReadFile { contents: Vec<u8> },
    WriteFile,
    ListFiles { entries: Vec<ExtensionDataEntry> },
}

/// One direct child returned by a list request.
#[derive(Debug)]
pub struct ExtensionDataEntry {
    pub path: String,
    pub is_dir: bool,
    pub len: Option<u64>,
}

/// Acknowledgement that all log events up to `up_to` were processed.
#[derive(Clone, Copy, Debug, PartialEq, Eq, Structural)]
pub struct Ack {
    pub up_to: EventLogSeq,
}

} // verus!
