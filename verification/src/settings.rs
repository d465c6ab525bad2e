//! Resolving configured extension entries into processes the harness can
//! spawn.

use vstd::prelude::*;

use crate::cbor::{CborValue, CborView};
use crate::text::{owned, push_str, seq_lt, views};

verus! {

/// Core harness mode selection.
#[derive(Clone, Copy, Debug, PartialEq, Eq, Structural)]
pub enum CoreMode {
    /// Run the harness in-process.
    Embedded,
    /// Connect to a long-running daemon.
    Daemon,
}

/// Resolved core configuration values.
#[derive(Clone, Copy, Debug, PartialEq, Eq, Structural)]
pub struct CoreConfig {
    pub mode: CoreMode,
}

impl CoreConfig {
    /// The default: the harness runs embedded.
    pub fn embedded() -> (res: Self)
        ensures
            res.mode == CoreMode::Embedded,
    {
        CoreConfig { mode: CoreMode::Embedded }
    }
}

/// One configured extension entry, after settings layering.
#[derive(Debug, Default)]
pub struct ExtensionEntry {
    /// Whether the extension runs; absent means enabled.
    pub enable: Option<bool>,
    /// Executable and arguments.
    pub command: Option<Vec<String>>,
    /// Subcommand of the running tau executable, when there is no command.
    pub suffix: Option<Vec<String>>,
    /// Wrapper argv put before the command.
    pub prefix: Option<Vec<String>>,
    /// Optional role tag, such as `provider` or `tool`.
    pub role: Option<String>,
    /// Configuration object handed to the extension.
    pub config: Option<CborValue>,
}

/// Harness settings: the extension entries by name, in no particular
/// order, no name twice.
pub struct HarnessSettings {
    pub extensions: Vec<(String, ExtensionEntry)>,
}

impl HarnessSettings {
    /// Each extension name names one entry.
    pub open spec fn wf(&self) -> bool {
        entry_names_unique(self.extensions@)
    }
}

/// One configured extension process, ready to spawn.
#[derive(Debug)]
pub struct ExtensionConfig {
    pub name: String,
    /// Executable to spawn.
    pub command: String,
    /// Arguments passed to the executable.
    pub args: Vec<String>,
    pub role: Option<String>,
    /// Configuration object; an empty map when none was configured.
    pub config: CborValue,
}

/// The resolved harness configuration.
pub struct Config {
    pub core: CoreConfig,
    /// Resolved extensions by name, in name order.
    pub extensions: Vec<(String, ExtensionConfig)>,
}

/// Error of [`resolve_extensions`].
#[derive(Debug)]
pub enum ResolveExtensionsError {
    /// An enabled entry has no command and no suffix.
    EmptyCommand(String),
}

impl ResolveExtensionsError {
    /// The human-readable message.
    pub fn message(&self) -> (res: String)
        ensures
            match self {
                ResolveExtensionsError::EmptyCommand(name) => res@ == "extension \""@ + name@
                    + "\" has no `command` set; entries must specify an executable or a tau subcommand suffix"@,
            },
    {
        match self {
            ResolveExtensionsError::EmptyCommand(name) => {
                let mut s = owned("extension \"");
                push_str(&mut s, name.as_str());
                push_str(&mut s, "\" has no `command` set; entries must specify an executable or a tau subcommand suffix");
                s
            },
        }
    }
}

/// An optional argv, empty when absent.
pub open spec fn argv_of(o: Option<Vec<String>>) -> Seq<Seq<char>> {
    match o {
        Some(v) => views(v@),
        None => Seq::empty(),
    }
}

/// The argv an enabled entry spawns, or `None` when it has nothing to run:
/// the prefix, then the command; without a command, the prefix, the tau
/// executable and the suffix, provided the suffix is not empty.
pub open spec fn entry_argv(e: ExtensionEntry, tau_binary: Seq<char>) -> Option<Seq<Seq<char>>> {
    match e.command {
        Some(c) => {
            let argv = argv_of(e.prefix) + views(c@);
            if argv.len() == 0 { None } else { Some(argv) }
        },
        None => {
            if argv_of(e.suffix).len() == 0 {
                None
            } else {
                Some(argv_of(e.prefix) + seq![tau_binary] + argv_of(e.suffix))
            }
        },
    }
}

/// Whether an entry is enabled; absent means enabled.
pub open spec fn enabled(e: ExtensionEntry) -> bool {
    match e.enable {
        Some(b) => b,
        None => true,
    }
}

/// The configuration object an extension gets.
pub open spec fn config_view(e: ExtensionEntry) -> CborView {
    match e.config {
        Some(c) => c@,
        None => CborView::Dict(Seq::empty()),
    }
}

/// A resolved extension matches the entry it came from.
pub open spec fn resolved_from(x: ExtensionConfig, name: Seq<char>, e: ExtensionEntry, tau_binary: Seq<char>) -> bool {
    entry_argv(e, tau_binary) matches Some(argv)
        && x.name@ == name
        && x.command@ == argv[0]
        && views(x.args@) == argv.drop_first()
        && match (x.role, e.role) {
            (Some(a), Some(b)) => a@ == b@,
            (None, None) => true,
            _ => false,
        }
        && x.config@ == config_view(e)
}

/// A resolved extension runs under its entry's prefix: its argv (command
/// followed by arguments) starts with the prefix, then holds the entry's
/// command; without a command, the tau executable and then the suffix.
pub proof fn law_resolved_argv_starts_with_prefix(x: ExtensionConfig, name: Seq<char>, e: ExtensionEntry, tau_binary: Seq<char>)
    requires
        resolved_from(x, name, e, tau_binary),
    ensures
        ({
            let argv = seq![x.command@] + views(x.args@);
            let p = argv_of(e.prefix).len();
            &&& p <= argv.len()
            &&& argv.take(p as int) == argv_of(e.prefix)
            &&& match e.command {
                Some(c) => argv.skip(p as int) == views(c@),
                None => argv.skip(p as int) == seq![tau_binary] + argv_of(e.suffix),
            }
        }),
{
    let full = entry_argv(e, tau_binary)->0;
    let argv = seq![x.command@] + views(x.args@);
    assert(argv =~= full);
    let p = argv_of(e.prefix).len();
    match e.command {
        Some(c) => {
            assert(full.take(p as int) =~= argv_of(e.prefix));
            assert(full.skip(p as int) =~= views(c@));
        },
        None => {
            assert(full.take(p as int) =~= argv_of(e.prefix));
            assert(full.skip(p as int) =~= seq![tau_binary] + argv_of(e.suffix));
        },
    }
}

/// The enabled entries of a list, in order.
pub open spec fn enabled_entries(s: Seq<(String, ExtensionEntry)>) -> Seq<(String, ExtensionEntry)>
    decreases s.len(),
{
    if s.len() == 0 {
        Seq::empty()
    } else if enabled(s.last().1) {
        enabled_entries(s.drop_last()).push(s.last())
    } else {
        enabled_entries(s.drop_last())
    }
}

/// The name of the first enabled entry, in order, with nothing to run.
pub open spec fn first_empty_command(s: Seq<(String, ExtensionEntry)>, tau_binary: Seq<char>) -> Option<Seq<char>>
    decreases s.len(),
{
    if s.len() == 0 {
        None
    } else if first_empty_command(s.drop_last(), tau_binary) is Some {
        first_empty_command(s.drop_last(), tau_binary)
    } else if enabled(s.last().1) && entry_argv(s.last().1, tau_binary) is None {
        Some(s.last().0@)
    } else {
        None
    }
}

fn clone_strings(v: &Vec<String>) -> (res: Vec<String>)
    ensures
        views(res@) == views(v@),
{
    let mut out: Vec<String> = Vec::new();
    let mut i: usize = 0;
    while i < v.len()
        invariant
            i <= v@.len(),
            out@.len() == i,
            views(out@) == views(v@.take(i as int)),
        decreases v@.len() - i,
    {
        let c = v[i].clone();
        assert(c@ == v@[i as int]@);
        let ghost before = out@;
        out.push(c);
        assert(out@[i as int]@ == v@.take(i + 1)[i as int]@);
        assert forall|k: int| 0 <= k < i implies out@[k]@ == v@.take(i + 1)[k]@ by {
            assert(out@[k] == before[k]);
            assert(views(before)[k] == views(v@.take(i as int))[k]);
        }
        assert(views(out@) =~= views(v@.take(i + 1)));
        i = i + 1;
    }
    assert(v@.take(v@.len() as int) =~= v@);
    out
}

fn append_strings(out: &mut Vec<String>, v: &Vec<String>)
    ensures
        views(final(out)@) == views(old(out)@) + views(v@),
{
    let mut i: usize = 0;
    while i < v.len()
        invariant
            i <= v@.len(),
            views(out@) == views(old(out)@) + views(v@.take(i as int)),
        decreases v@.len() - i,
    {
        let c = v[i].clone();
        assert(c@ == v@[i as int]@);
        let ghost before = out@;
        out.push(c);
        assert(views(out@) =~= views(before).push(c@));
        assert(views(v@.take(i + 1)) =~= views(v@.take(i as int)).push(v@[i as int]@));
        assert(views(out@) =~= views(old(out)@) + views(v@.take(i + 1)));
        i = i + 1;
    }
    assert(v@.take(v@.len() as int) =~= v@);
}

fn opt_argv(o: &Option<Vec<String>>) -> (res: Vec<String>)
    ensures
        views(res@) == argv_of(*o),
{
    match o {
        Some(v) => clone_strings(v),
        None => {
            let r: Vec<String> = Vec::new();
            assert(views(r@) =~= Seq::<Seq<char>>::empty());
            r
        },
    }
}

/// Resolves one enabled entry, or `None` when it has nothing to run.
fn resolve_entry(name: &String, entry: &ExtensionEntry, tau_binary: &str) -> (res: Option<ExtensionConfig>)
    ensures
        match res {
            Some(x) => resolved_from(x, name@, *entry, tau_binary@),
            None => entry_argv(*entry, tau_binary@) is None,
        },
{
    let mut argv = opt_argv(&entry.prefix);
    match &entry.command {
        Some(command) => {
            append_strings(&mut argv, command);
        },
        None => {
            let suffix = opt_argv(&entry.suffix);
            if suffix.len() == 0 {
                return None;
            }
            argv.push(owned(tau_binary));
            append_strings(&mut argv, &suffix);
            assert(views(argv@) =~= argv_of(entry.prefix) + seq![tau_binary@] + argv_of(entry.suffix));
        },
    }
    if argv.len() == 0 {
        return None;
    }
    let ghost full = views(argv@);
    let program = argv.remove(0);
    assert(views(argv@) =~= full.drop_first());
    let role = match &entry.role {
        Some(r) => Some(r.clone()),
        None => None,
    };
    let config = match &entry.config {
        Some(c) => c.deep_clone(),
        None => CborValue::Dict(Vec::new()),
    };
    assert(config@ == config_view(*entry)) by {
        if entry.config is None {
            assert(config@ =~= CborView::Dict(Seq::empty())) by {
                assert(crate::cbor::view_entries(Seq::<(CborValue, CborValue)>::empty()) =~= Seq::<(CborView, CborView)>::empty());
            }
        }
    }
    Some(ExtensionConfig { name: name.clone(), command: program, args: argv, role, config })
}

/// The result of resolving entries already in name order.
pub open spec fn resolution_of(sorted: Seq<(String, ExtensionEntry)>, tau_binary: Seq<char>, res: Result<Vec<ExtensionConfig>, ResolveExtensionsError>) -> bool {
    match first_empty_command(sorted, tau_binary) {
        Some(name) => res matches Err(ResolveExtensionsError::EmptyCommand(n)) && n@ == name,
        None => res matches Ok(v) && v@.len() == enabled_entries(sorted).len()
            && (forall|k: int| 0 <= k < v@.len() ==> resolved_from(#[trigger] v@[k],
                enabled_entries(sorted)[k].0@, enabled_entries(sorted)[k].1, tau_binary))
            && forall|i: int, j: int| 0 <= i < j < v@.len() ==> !seq_lt(#[trigger] v@[j].name@, #[trigger] v@[i].name@),
    }
}

/// Resolves entries that are already in name order.
fn resolve_sorted(sorted: &Vec<(String, ExtensionEntry)>, tau_binary: &str) -> (res: Result<Vec<ExtensionConfig>, ResolveExtensionsError>)
    requires
        names_sorted(sorted@),
    ensures
        resolution_of(sorted@, tau_binary@, res),
{
    let ghost all = sorted@;
    let mut out: Vec<ExtensionConfig> = Vec::new();
    let mut i: usize = 0;
    while i < sorted.len()
        invariant
            all == sorted@,
            i <= all.len(),
            first_empty_command(all.take(i as int), tau_binary@) is None,
            out@.len() == enabled_entries(all.take(i as int)).len(),
            forall|k: int| 0 <= k < out@.len() ==> resolved_from(#[trigger] out@[k],
                enabled_entries(all.take(i as int))[k].0@, enabled_entries(all.take(i as int))[k].1, tau_binary@),
        decreases all.len() - i,
    {
        let (name, entry) = &sorted[i];
        assert(all.take(i + 1).drop_last() =~= all.take(i as int));
        assert(all.take(i + 1).last() == all[i as int]);
        let enable = match entry.enable {
            Some(b) => b,
            None => true,
        };
        if enable {
            match resolve_entry(name, entry, tau_binary) {
                Some(x) => {
                    let ghost before = out@;
                    out.push(x);
                    assert forall|k: int| 0 <= k < out@.len() implies resolved_from(#[trigger] out@[k],
                        enabled_entries(all.take(i + 1))[k].0@, enabled_entries(all.take(i + 1))[k].1, tau_binary@) by {
                        if k < before.len() {
                            assert(out@[k] == before[k]);
                        }
                    }
                },
                None => {
                    proof {
                        lemma_first_empty_command_prefix(all, i + 1, tau_binary@);
                    }
                    return Err(ResolveExtensionsError::EmptyCommand(name.clone()));
                },
            }
        }
        i = i + 1;
    }
    assert(all.take(all.len() as int) =~= all);
    proof {
        lemma_enabled_entries_sorted(all);
        let e = enabled_entries(all);
        assert forall|a: int, b: int| 0 <= a < b < out@.len() implies !seq_lt(#[trigger] out@[b].name@, #[trigger] out@[a].name@) by {
            assert(resolved_from(out@[a], e[a].0@, e[a].1, tau_binary@));
            assert(resolved_from(out@[b], e[b].0@, e[b].1, tau_binary@));
        }
    }
    Ok(out)
}

/// Entries in non-decreasing name order.
pub open spec fn names_sorted(s: Seq<(String, ExtensionEntry)>) -> bool {
    forall|i: int, j: int| 0 <= i < j < s.len() ==> !seq_lt(#[trigger] s[j].0@, #[trigger] s[i].0@)
}

/// Dropping disabled entries keeps name order, and keeps only entries of
/// the list.
proof fn lemma_enabled_entries_sorted(s: Seq<(String, ExtensionEntry)>)
    requires
        names_sorted(s),
    ensures
        names_sorted(enabled_entries(s)),
        forall|k: int| 0 <= k < enabled_entries(s).len() ==> s.contains(#[trigger] enabled_entries(s)[k]),
    decreases s.len(),
{
    if s.len() > 0 {
        let d = s.drop_last();
        assert(names_sorted(d)) by {
            assert forall|i: int, j: int| 0 <= i < j < d.len() implies !seq_lt(#[trigger] d[j].0@, #[trigger] d[i].0@) by {
                assert(d[i] == s[i] && d[j] == s[j]);
            }
        }
        lemma_enabled_entries_sorted(d);
        let e = enabled_entries(d);
        assert forall|k: int| 0 <= k < e.len() implies !seq_lt(s.last().0@, #[trigger] e[k].0@) by {
            assert(d.contains(e[k]));
            let j = choose|j: int| 0 <= j < d.len() && d[j] == e[k];
            assert(s[j] == d[j]);
            assert(!seq_lt(s[s.len() - 1].0@, s[j].0@));
        }
        if enabled(s.last().1) {
            let r = e.push(s.last());
            assert forall|i: int, j: int| 0 <= i < j < r.len() implies !seq_lt(#[trigger] r[j].0@, #[trigger] r[i].0@) by {
                if j < e.len() {
                    assert(r[i] == e[i] && r[j] == e[j]);
                } else {
                    assert(r[i] == e[i]);
                }
            }
            assert forall|k: int| 0 <= k < r.len() implies s.contains(#[trigger] r[k]) by {
                if k < e.len() {
                    assert(r[k] == e[k]);
                    assert(d.contains(e[k]));
                    let j = choose|j: int| 0 <= j < d.len() && d[j] == e[k];
                    assert(s[j] == d[j]);
                } else {
                    assert(s[s.len() - 1] == r[k]);
                }
            }
        } else {
            assert forall|k: int| 0 <= k < e.len() implies s.contains(#[trigger] e[k]) by {
                assert(d.contains(e[k]));
                let j = choose|j: int| 0 <= j < d.len() && d[j] == e[k];
                assert(s[j] == d[j]);
            }
        }
    }
}

/// An empty-command error in a prefix is the error of the whole list.
proof fn lemma_first_empty_command_prefix(s: Seq<(String, ExtensionEntry)>, k: int, tau_binary: Seq<char>)
    requires
        0 <= k <= s.len(),
        first_empty_command(s.take(k), tau_binary) is Some,
    ensures
        first_empty_command(s, tau_binary) == first_empty_command(s.take(k), tau_binary),
    decreases s.len() - k,
{
    if k < s.len() {
        assert(s.take(k + 1).drop_last() =~= s.take(k));
        lemma_first_empty_command_prefix(s, k + 1, tau_binary);
    } else {
        assert(s.take(k) =~= s);
    }
}

/// The entries sorted by name, stably.
fn sort_by_name(entries: Vec<(String, ExtensionEntry)>) -> (res: Vec<(String, ExtensionEntry)>)
    ensures
        names_sorted(res@),
        res@.to_multiset() == entries@.to_multiset(),
{
    let ghost all = entries@;
    let total = entries.len();
    let mut rest = entries;
    let mut out: Vec<(String, ExtensionEntry)> = Vec::new();
    let mut done: usize = 0;
    assert(all.take(0) =~= Seq::<(String, ExtensionEntry)>::empty());
    while rest.len() > 0
        invariant
            total == all.len(),
            done <= all.len(),
            rest@ == all.skip(done as int),
            names_sorted(out@),
            out@.to_multiset() == all.take(done as int).to_multiset(),
        decreases rest@.len(),
    {
        let item = rest.remove(0);
        assert(all.take(done + 1) =~= all.take(done as int).push(item));
        assert(all.skip(done as int).drop_first() =~= all.skip(done + 1));
        let ghost before = out@;
        let mut i: usize = out.len();
        while i > 0 && crate::text::compare_text(out[i - 1].0.as_str(), item.0.as_str()) > 0
            invariant
                out@ == before,
                i <= before.len(),
                forall|j: int| i <= j < before.len() ==> seq_lt(item.0@, #[trigger] before[j].0@),
            decreases i,
        {
            i = i - 1;
        }
        let ghost pos = i as int;
        out.insert(i, item);
        assert(out@ =~= before.insert(pos, item));
        assert(names_sorted(out@)) by {
            assert forall|a: int, b: int| 0 <= a < b < out@.len() implies !seq_lt(#[trigger] out@[b].0@, #[trigger] out@[a].0@) by {
                let t = out@;
                if b < pos {
                    assert(t[a] == before[a] && t[b] == before[b]);
                } else if b == pos {
                    assert(t[a] == before[a]);
                    assert(!seq_lt(item.0@, before[pos - 1].0@));
                    if a < pos - 1 {
                        assert(!seq_lt(before[pos - 1].0@, before[a].0@));
                        crate::text::lemma_seq_lt_order(item.0@, before[a].0@, before[pos - 1].0@);
                        crate::text::lemma_seq_lt_order(before[a].0@, before[pos - 1].0@, item.0@);
                        crate::text::lemma_seq_lt_order(item.0@, before[pos - 1].0@, before[a].0@);
                    }
                } else if a == pos {
                    assert(t[b] == before[b - 1]);
                    crate::text::lemma_seq_lt_order(item.0@, before[b - 1].0@, item.0@);
                } else if a < pos {
                    assert(t[a] == before[a] && t[b] == before[b - 1]);
                    assert(seq_lt(item.0@, before[b - 1].0@));
                    assert(!seq_lt(item.0@, before[pos - 1].0@));
                    if a < pos - 1 {
                        assert(!seq_lt(before[pos - 1].0@, before[a].0@));
                    }
                    crate::text::lemma_seq_lt_order(before[b - 1].0@, before[a].0@, before[pos - 1].0@);
                    crate::text::lemma_seq_lt_order(before[b - 1].0@, before[pos - 1].0@, item.0@);
                    crate::text::lemma_seq_lt_order(before[a].0@, before[pos - 1].0@, item.0@);
                    crate::text::lemma_seq_lt_order(item.0@, before[b - 1].0@, before[a].0@);
                    crate::text::lemma_seq_lt_order(before[b - 1].0@, before[a].0@, item.0@);
                } else {
                    assert(t[a] == before[a - 1] && t[b] == before[b - 1]);
                }
            }
        }
        proof {
            out@.to_multiset_ensures();
            all.take(done as int).to_multiset_ensures();
            assert(out@.remove(pos) =~= before);
            assert(out@[pos] == item);
            assert(out@.contains(item));
        }
        assert(out@.to_multiset() =~= before.to_multiset().insert(item));
        done = done + 1;
    }
    assert(all.take(done as int) =~= all);
    out
}

/// No two entries share a name.
pub open spec fn entry_names_unique(s: Seq<(String, ExtensionEntry)>) -> bool {
    forall|i: int, j: int| 0 <= i < s.len() && 0 <= j < s.len() && i != j ==> #[trigger] s[i].0@ != #[trigger] s[j].0@
}

proof fn lemma_entry_names_unique_by_multiset(s1: Seq<(String, ExtensionEntry)>, s2: Seq<(String, ExtensionEntry)>)
    requires
        s1.to_multiset() == s2.to_multiset(),
        entry_names_unique(s2),
    ensures
        entry_names_unique(s1),
{
    broadcast use vstd::seq_lib::group_to_multiset_ensures;
    assert(s2.no_duplicates()) by {
        assert forall|i: int, j: int| 0 <= i < s2.len() && 0 <= j < s2.len() && i != j implies s2[i] != s2[j] by {
            assert(s2[i].0@ != s2[j].0@);
        }
    }
    s2.lemma_multiset_has_no_duplicates();
    s1.lemma_multiset_has_no_duplicates_conv();
    assert forall|i: int, j: int| 0 <= i < s1.len() && 0 <= j < s1.len() && i != j implies #[trigger] s1[i].0@ != #[trigger] s1[j].0@ by {
        assert(s1[i] != s1[j]);
        assert(s1.contains(s1[i]) && s1.contains(s1[j]));
        assert(s1.to_multiset().count(s1[i]) > 0 && s1.to_multiset().count(s1[j]) > 0);
        assert(s2.contains(s1[i]) && s2.contains(s1[j]));
        let p = choose|p: int| 0 <= p < s2.len() && s2[p] == s1[i];
        let q = choose|q: int| 0 <= q < s2.len() && s2[q] == s1[j];
        assert(p != q);
        assert(s2[p].0@ != s2[q].0@);
    }
}

proof fn lemma_names_sorted_unique(x: Seq<(String, ExtensionEntry)>, y: Seq<(String, ExtensionEntry)>)
    requires
        names_sorted(x),
        names_sorted(y),
        x.to_multiset() == y.to_multiset(),
        entry_names_unique(x),
    ensures
        x == y,
    decreases x.len(),
{
    broadcast use vstd::seq_lib::group_to_multiset_ensures, vstd::multiset::group_multiset_axioms;
    if x.len() == 0 {
        assert(y.len() == x.to_multiset().len());
        assert(x =~= y);
    } else if y.len() == 0 {
        assert(x.len() == y.to_multiset().len());
    } else {
        assert(x.contains(x[0]));
        assert(y.to_multiset().count(x[0]) > 0);
        assert(y.contains(x[0]));
        assert(y.contains(y[0]));
        assert(x.to_multiset().count(y[0]) > 0);
        assert(x.contains(y[0]));
        let i = choose|i: int| 0 <= i < x.len() && x[i] == y[0];
        let j = choose|j: int| 0 <= j < y.len() && y[j] == x[0];
        if i > 0 {
            assert(!seq_lt(x[i].0@, x[0].0@));
        }
        if j > 0 {
            assert(!seq_lt(y[j].0@, y[0].0@));
        }
        crate::text::lemma_seq_lt_order(x[0].0@, y[0].0@, y[0].0@);
        assert(x[0].0@ == y[0].0@);
        assert(i == 0);
        let x1 = x.drop_first();
        let y1 = y.drop_first();
        assert(x.remove(0) =~= x1);
        assert(y.remove(0) =~= y1);
        assert(x1.to_multiset() == x.to_multiset().remove(x[0]));
        assert(y1.to_multiset() == y.to_multiset().remove(y[0]));
        assert(names_sorted(x1)) by {
            assert forall|a: int, b: int| 0 <= a < b < x1.len() implies !seq_lt(#[trigger] x1[b].0@, #[trigger] x1[a].0@) by {
                assert(x1[a] == x[a + 1] && x1[b] == x[b + 1]);
            }
        }
        assert(names_sorted(y1)) by {
            assert forall|a: int, b: int| 0 <= a < b < y1.len() implies !seq_lt(#[trigger] y1[b].0@, #[trigger] y1[a].0@) by {
                assert(y1[a] == y[a + 1] && y1[b] == y[b + 1]);
            }
        }
        assert(entry_names_unique(x1)) by {
            assert forall|a: int, b: int| 0 <= a < x1.len() && 0 <= b < x1.len() && a != b implies #[trigger] x1[a].0@ != #[trigger] x1[b].0@ by {
                assert(x1[a] == x[a + 1] && x1[b] == x[b + 1]);
            }
        }
        lemma_names_sorted_unique(x1, y1);
        assert(x =~= y) by {
            assert forall|k: int| 0 <= k < x.len() implies x[k] == y[k] by {
                if k > 0 {
                    assert(x[k] == x1[k - 1] && y[k] == y1[k - 1]);
                }
            }
        }
    }
}

/// Resolution does not depend on the order the entries are stored in:
/// two listings of the same entries, no two sharing a name, are resolved
/// from the same name order and so give the same outcome.
pub proof fn law_resolution_ignores_entry_order(
    a: Seq<(String, ExtensionEntry)>,
    b: Seq<(String, ExtensionEntry)>,
    sorted_a: Seq<(String, ExtensionEntry)>,
    sorted_b: Seq<(String, ExtensionEntry)>,
)
    requires
        entry_names_unique(a),
        a.to_multiset() == b.to_multiset(),
        names_sorted(sorted_a),
        sorted_a.to_multiset() == a.to_multiset(),
        names_sorted(sorted_b),
        sorted_b.to_multiset() == b.to_multiset(),
    ensures
        sorted_a == sorted_b,
        forall|tau_binary: Seq<char>, res: Result<Vec<ExtensionConfig>, ResolveExtensionsError>|
            resolution_of(sorted_a, tau_binary, res) == resolution_of(sorted_b, tau_binary, res),
{
    lemma_entry_names_unique_by_multiset(sorted_a, a);
    lemma_names_sorted_unique(sorted_a, sorted_b);
}

/// Resolves the configured extension entries, in name order, into the
/// processes to spawn. Disabled entries are dropped. An entry with a
/// command runs its prefix then its command; one without runs its prefix,
/// the tau executable at `tau_binary`, then its suffix. The first enabled
/// entry, in name order, with nothing to run is an error. The resolved
/// extensions come in name order.
pub fn resolve_extensions(settings: HarnessSettings, tau_binary: &str) -> (res: Result<Vec<ExtensionConfig>, ResolveExtensionsError>)
    requires
        settings.wf(),
    ensures
        exists|sorted: Seq<(String, ExtensionEntry)>|
            #[trigger] names_sorted(sorted) && sorted.to_multiset() == settings.extensions@.to_multiset()
                && resolution_of(sorted, tau_binary@, res),
{
    let sorted = sort_by_name(settings.extensions);
    let res = resolve_sorted(&sorted, tau_binary);
    assert(names_sorted(sorted@));
    res
}

} // verus!
