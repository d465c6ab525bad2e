//! Daemon runtime layout, build metadata for spawned processes, and the
//! choice of old sessions to clean up.

use vstd::prelude::*;

use crate::text::{chars_of, is_whitespace, is_ws, owned, push_str};

verus! {

broadcast use vstd::string::group_string_axioms;

/// Socket file inside a daemon directory.
pub const SOCK_FILENAME: &'static str = "tau.sock";

/// Project root marker file inside a daemon directory.
pub const DIR_FILENAME: &'static str = "tau.dir";

/// Process id file inside a daemon directory.
pub const PID_FILENAME: &'static str = "tau.pid";

/// Bound session id file inside a daemon directory.
pub const SESSION_ID_FILENAME: &'static str = "tau.session_id";

/// Environment variable that hands the readiness pipe to the harness.
pub const READY_FD_ENV: &'static str = "TAU_READY_FD";

/// `dir` joined with the relative path `name`: no separator is added when
/// `dir` is empty or already ends with `/`.
pub open spec fn path_join(dir: Seq<char>, name: Seq<char>) -> Seq<char> {
    if dir.len() == 0 || dir.last() == '/' { dir + name } else { dir + seq!['/'] + name }
}

/// Joins a directory and a relative path.
pub fn join_path(dir: &str, name: &str) -> (res: String)
    ensures
        res@ == path_join(dir@, name@),
{
    let mut out = owned(dir);
    let n = dir.unicode_len();
    if n > 0 && dir.get_char(n - 1) != '/' {
        crate::text::push_char(&mut out, '/');
    }
    push_str(&mut out, name);
    out
}

/// The socket path within a daemon directory.
pub fn socket_path(daemon_dir: &str) -> (res: String)
    ensures
        res@ == path_join(daemon_dir@, "tau.sock"@),
{
    join_path(daemon_dir, SOCK_FILENAME)
}

/// The data directory of one harness daemon.
pub struct DaemonDir {
    pub path: String,
    pub project_root: String,
}

impl DaemonDir {
    /// The path of this daemon directory.
    pub fn path(&self) -> (res: &str)
        ensures
            res@ == self.path@,
    {
        self.path.as_str()
    }

    /// The socket path of this daemon.
    pub fn socket_path(&self) -> (res: String)
        ensures
            res@ == path_join(self.path@, "tau.sock"@),
    {
        socket_path(self.path.as_str())
    }

    /// The path of the project root marker.
    pub fn marker_path(&self) -> (res: String)
        ensures
            res@ == path_join(self.path@, "tau.dir"@),
    {
        join_path(self.path.as_str(), DIR_FILENAME)
    }

    /// The path of the process id file.
    pub fn pid_path(&self) -> (res: String)
        ensures
            res@ == path_join(self.path@, "tau.pid"@),
    {
        join_path(self.path.as_str(), PID_FILENAME)
    }

    /// The path of the bound session id file.
    pub fn session_id_path(&self) -> (res: String)
        ensures
            res@ == path_join(self.path@, "tau.session_id"@),
    {
        join_path(self.path.as_str(), SESSION_ID_FILENAME)
    }
}

/// `s` without leading and trailing whitespace.
pub open spec fn trimmed(s: Seq<char>) -> Seq<char>
    decreases s.len(),
{
    if s.len() > 0 && is_ws(s[0]) {
        trimmed(s.drop_first())
    } else if s.len() > 0 && is_ws(s.last()) {
        trimmed(s.drop_last())
    } else {
        s
    }
}

/// `s` with leading and trailing whitespace removed, as `str::trim` does.
pub fn trim(s: &str) -> (res: String)
    ensures
        res@ == trimmed(s@),
{
    let cs = chars_of(s);
    let mut lo: usize = 0;
    let mut hi: usize = cs.len();
    assert(cs@.subrange(0, hi as int) =~= s@);
    while lo < hi && (is_whitespace(cs[lo]) || is_whitespace(cs[hi - 1]))
        invariant
            cs@ == s@,
            lo <= hi <= cs@.len(),
            trimmed(s@) == trimmed(cs@.subrange(lo as int, hi as int)),
        decreases hi - lo,
    {
        let ghost sub = cs@.subrange(lo as int, hi as int);
        if is_whitespace(cs[lo]) {
            assert(sub[0] == cs@[lo as int]);
            assert(sub.drop_first() =~= cs@.subrange(lo + 1, hi as int));
            lo = lo + 1;
        } else {
            assert(sub[0] == cs@[lo as int]);
            assert(sub.last() == cs@[hi - 1]);
            assert(sub.drop_last() =~= cs@.subrange(lo as int, hi - 1));
            hi = hi - 1;
        }
    }
    let mut out = String::new();
    let mut i = lo;
    while i < hi
        invariant
            lo <= i <= hi <= cs@.len(),
            out@ == cs@.subrange(lo as int, i as int),
        decreases hi - i,
    {
        crate::text::push_char(&mut out, cs[i]);
        assert(out@ =~= cs@.subrange(lo as int, i + 1));
        i = i + 1;
    }
    proof {
        let sub = cs@.subrange(lo as int, hi as int);
        if sub.len() > 0 {
            assert(sub[0] == cs@[lo as int]);
            assert(sub.last() == cs@[hi - 1]);
        }
    }
    out
}

/// The session id a daemon's session id file holds: its trimmed content,
/// unless that is empty.
pub fn session_id_from_file(contents: &str) -> (res: Option<String>)
    ensures
        match res {
            Some(id) => id@ == trimmed(contents@) && trimmed(contents@).len() > 0,
            None => trimmed(contents@).len() == 0,
        },
{
    let t = trim(contents);
    if t.unicode_len() == 0 {
        None
    } else {
        Some(t)
    }
}

/// The per-user runtime directory, if the platform defines one.
///
/// Trusted wrapper around `dirs::runtime_dir`, displayed as a string.
/// Nothing is claimed of the result, which comes from the environment. A
/// directory whose name is not UTF-8 is displayed with replacement
/// characters, so the text then names another path than the platform's.
#[verifier::external_body]
fn platform_runtime_dir() -> (res: Option<String>) {
    dirs::runtime_dir().map(|p| p.display().to_string())
}

/// The root runtime directory given the platform's runtime directory and
/// the user name: `<runtime>/tau`, else `/tmp/tau-<user>` (`unknown` when
/// the user is not known).
pub open spec fn runtime_root(runtime_dir: Option<Seq<char>>, user: Option<Seq<char>>) -> Seq<char> {
    match runtime_dir {
        Some(d) => path_join(d, "tau"@),
        None => "/tmp/tau-"@ + (match user { Some(u) => u, None => "unknown"@ }),
    }
}

/// The view of an optional string.
pub open spec fn opt_seq(o: Option<String>) -> Option<Seq<char>> {
    match o {
        Some(s) => Some(s@),
        None => None,
    }
}

/// The root runtime directory of all tau daemons given the platform's
/// runtime directory and the user name.
pub fn runtime_root_from(runtime_dir: Option<String>, user: Option<String>) -> (res: String)
    ensures
        res@ == runtime_root(opt_seq(runtime_dir), opt_seq(user)),
{
    match runtime_dir {
        Some(d) => join_path(d.as_str(), "tau"),
        None => {
            let mut out = owned("/tmp/tau-");
            match user {
                Some(u) => push_str(&mut out, u.as_str()),
                None => push_str(&mut out, "unknown"),
            }
            out
        },
    }
}

/// The root runtime directory of all tau daemons, `user` being the
/// current user's name when known.
pub fn root_runtime_dir(user: Option<String>) -> (res: String)
    ensures
        exists|d: Option<Seq<char>>| res@ == #[trigger] runtime_root(d, opt_seq(user)),
{
    let d = platform_runtime_dir();
    let ghost dv = opt_seq(d);
    let res = runtime_root_from(d, user);
    assert(res@ == runtime_root(dv, opt_seq(user)));
    res
}

// ---------------------------------------------------------------------------
// Build metadata
// ---------------------------------------------------------------------------

/// The revision text: the short hash, `-modified` when the tree was dirty,
/// `unknown` without a hash.
pub open spec fn revision_text(hash: Option<Seq<char>>, dirty: Option<bool>) -> Seq<char> {
    match hash {
        Some(h) => if dirty == Some(true) { h + "-modified"@ } else { h },
        None => "unknown"@,
    }
}

/// The git revision the harness was built from, given the build's short
/// commit hash and dirty flag.
pub fn build_revision(hash: Option<&str>, dirty: Option<bool>) -> (res: String)
    ensures
        res@ == revision_text(match hash { Some(h) => Some(h@), None => None }, dirty),
{
    match hash {
        Some(h) => {
            let mut out = owned(h);
            match dirty {
                Some(true) => push_str(&mut out, "-modified"),
                _ => {},
            }
            out
        },
        None => owned("unknown"),
    }
}

/// The build date: the packaging override when set and not empty, else
/// the built time, unless it is the `1980-01-01 00:00` placeholder.
pub open spec fn last_modified_text(override_date: Option<Seq<char>>, built: Option<Seq<char>>) -> Option<Seq<char>> {
    let chosen = match override_date {
        Some(d) => if d.len() > 0 { Some(d) } else { built },
        None => built,
    };
    match chosen {
        Some(d) => if d == "1980-01-01 00:00"@ { None } else { Some(d) },
        None => None,
    }
}

/// The `YYYY-MM-DD HH:MM` of the build, if usable.
pub fn build_last_modified(override_date: Option<&str>, built: Option<String>) -> (res: Option<String>)
    ensures
        match res { Some(s) => Some(s@), None => None::<Seq<char>> }
            == last_modified_text(match override_date { Some(d) => Some(d@), None => None }, match built { Some(b) => Some(b@), None => None }),
{
    let chosen = match override_date {
        Some(d) => if d.unicode_len() > 0 { Some(owned(d)) } else { built },
        None => built,
    };
    match chosen {
        Some(d) => {
            if crate::text::str_eq(d.as_str(), "1980-01-01 00:00") {
                None
            } else {
                Some(d)
            }
        },
        None => None,
    }
}

/// The time of a build as the harness can report it; no date library is
/// at hand, so there is none.
pub fn short_built_time(_time: &str) -> (res: Option<String>)
    ensures
        res is None,
{
    None
}

/// The version variables to publish to spawned processes, in order:
/// `TAU_VERSION`, `TAU_BUILD`, and `TAU_LAST_MODIFIED` when a build date is
/// known. Each is set only where the environment does not have it yet.
pub fn export_to_env(version: &str, revision: String, last_modified: Option<String>) -> (res: Vec<(String, String)>)
    ensures
        res@.len() == (if last_modified is Some { 3int } else { 2int }),
        res@[0].0@ == "TAU_VERSION"@ && res@[0].1@ == version@,
        res@[1].0@ == "TAU_BUILD"@ && res@[1].1@ == revision@,
        last_modified matches Some(d) ==> res@[2].0@ == "TAU_LAST_MODIFIED"@ && res@[2].1@ == d@,
{
    let mut out: Vec<(String, String)> = Vec::new();
    out.push((owned("TAU_VERSION"), owned(version)));
    out.push((owned("TAU_BUILD"), revision));
    match last_modified {
        Some(d) => out.push((owned("TAU_LAST_MODIFIED"), d)),
        None => {},
    }
    out
}

// ---------------------------------------------------------------------------
// Session cleanup
// ---------------------------------------------------------------------------

/// `a - b`, or zero.
pub open spec fn sat_sub(a: u64, b: u64) -> u64 {
    if a >= b { (a - b) as u64 } else { 0 }
}

/// Sessions last touched at or before `cutoff`, in order.
pub open spec fn expired(sessions: Seq<(String, u64)>, cutoff: u64) -> Seq<Seq<char>>
    decreases sessions.len(),
{
    if sessions.len() == 0 {
        Seq::empty()
    } else if sessions.last().1 <= cutoff {
        expired(sessions.drop_last(), cutoff).push(sessions.last().0@)
    } else {
        expired(sessions.drop_last(), cutoff)
    }
}

/// The sessions whose state directories should go: those last touched at
/// or before `now - retention` (seconds since the epoch).
pub fn sessions_to_remove(now: u64, retention_secs: u64, sessions: &Vec<(String, u64)>) -> (res: Vec<String>)
    ensures
        crate::text::views(res@) == expired(sessions@, sat_sub(now, retention_secs)),
{
    let cutoff = now.saturating_sub(retention_secs);
    let mut out: Vec<String> = Vec::new();
    let mut i: usize = 0;
    while i < sessions.len()
        invariant
            cutoff == sat_sub(now, retention_secs),
            i <= sessions@.len(),
            crate::text::views(out@) == expired(sessions@.take(i as int), cutoff),
        decreases sessions@.len() - i,
    {
        assert(sessions@.take(i + 1).drop_last() =~= sessions@.take(i as int));
        assert(sessions@.take(i + 1).last() == sessions@[i as int]);
        if !(cutoff < sessions[i].1) {
            let ghost before = crate::text::views(out@);
            out.push(sessions[i].0.clone());
            assert(crate::text::views(out@) =~= before.push(sessions@[i as int].0@));
        }
        i = i + 1;
    }
    assert(sessions@.take(sessions@.len() as int) =~= sessions@);
    out
}

} // verus!
