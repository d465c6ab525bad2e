//! Terminal client logic: the context trailer appended to prompts edited
//! in `$EDITOR`, agent and role selection helpers, picker rows and keys,
//! and the `tau provider` dispatcher.

use vstd::prelude::*;

use crate::text::{chars_of, join, owned, push_str, str_eq, views};

verus! {

broadcast use vstd::string::group_string_axioms;

// ---------------------------------------------------------------------------
// Editor trailer
// ---------------------------------------------------------------------------

/// The line that separates the prompt from the read-only context appended
/// below it.
pub const PROMPT_TRAILER_MARKER: &'static str = "# ------ tau: lines below this marker are context and are not sent ------";

/// Context shown below a prompt being edited.
#[derive(Debug, Default)]
pub struct EditorContext {
    pub current_response: Option<String>,
    pub last_response: Option<String>,
    pub previous_prompt: Option<String>,
}

/// One trailer section: a heading, a blank line, the text.
pub open spec fn section(title: Seq<char>, text: Seq<char>) -> Seq<char> {
    "## "@ + title + "\n\n"@ + text
}

/// The sections of the non-empty context texts, in order.
pub open spec fn trailer_sections(ctx: EditorContext) -> Seq<Seq<char>> {
    (match ctx.current_response { Some(t) => if t@.len() > 0 { seq![section("Current response in progress"@, t@)] } else { Seq::empty() }, None => Seq::empty() })
    + (match ctx.last_response { Some(t) => if t@.len() > 0 { seq![section("Last response"@, t@)] } else { Seq::empty() }, None => Seq::empty() })
    + (match ctx.previous_prompt { Some(t) => if t@.len() > 0 { seq![section("Previous prompt"@, t@)] } else { Seq::empty() }, None => Seq::empty() })
}

/// The buffer with the trailer appended: a blank line, the marker line,
/// then the sections separated by blank lines. Without sections the
/// buffer is unchanged.
pub open spec fn with_trailer(buffer: Seq<char>, ctx: EditorContext) -> Seq<char> {
    let sections = trailer_sections(ctx);
    if sections.len() == 0 {
        buffer
    } else {
        buffer + "\n\n"@ + PROMPT_TRAILER_MARKER@ + seq!['\n'] + join(sections, "\n\n"@)
    }
}

fn push_section(parts: &mut Vec<String>, title: &str, text: &Option<String>)
    ensures
        views(final(parts)@) == views(old(parts)@) + (match *text {
            Some(t) => if t@.len() > 0 { seq![section(title@, t@)] } else { Seq::empty() },
            None => Seq::empty(),
        }),
{
    match text {
        Some(t) => {
            if t.as_str().unicode_len() > 0 {
                let mut s = owned("## ");
                push_str(&mut s, title);
                push_str(&mut s, "\n\n");
                push_str(&mut s, t.as_str());
                let ghost before = views(parts@);
                parts.push(s);
                assert(views(parts@) =~= before + seq![section(title@, t@)]);
            } else {
                assert(views(parts@) =~= views(old(parts)@) + Seq::<Seq<char>>::empty());
            }
        },
        None => {
            assert(views(parts@) =~= views(old(parts)@) + Seq::<Seq<char>>::empty());
        },
    }
}

/// Appends the editor context below the buffer, after the marker line.
pub fn append_prompt_trailer(buffer: &str, ctx: &EditorContext) -> (res: String)
    ensures
        res@ == with_trailer(buffer@, *ctx),
{
    let mut parts: Vec<String> = Vec::new();
    assert(views(parts@) =~= Seq::<Seq<char>>::empty());
    push_section(&mut parts, "Current response in progress", &ctx.current_response);
    push_section(&mut parts, "Last response", &ctx.last_response);
    push_section(&mut parts, "Previous prompt", &ctx.previous_prompt);
    assert(views(parts@) =~= trailer_sections(*ctx));
    if parts.len() == 0 {
        return owned(buffer);
    }
    let mut out = owned(buffer);
    push_str(&mut out, "\n\n");
    push_str(&mut out, PROMPT_TRAILER_MARKER);
    crate::text::push_char(&mut out, '\n');
    let joined = crate::text::join_strings(&parts, "\n\n");
    push_str(&mut out, joined.as_str());
    out
}

/// The marker occupies a whole line of `s` starting at `p`.
pub open spec fn marker_line_at(s: Seq<char>, p: int) -> bool {
    let m = PROMPT_TRAILER_MARKER@;
    &&& 0 <= p
    &&& p + m.len() <= s.len()
    &&& (p == 0 || s[p - 1] == '\n')
    &&& s.subrange(p, p + m.len()) == m
    &&& (p + m.len() == s.len() || s[p + m.len()] == '\n')
}

/// `s` has a line that is exactly the marker.
pub open spec fn has_marker_line(s: Seq<char>) -> bool {
    exists|p: int| marker_line_at(s, p)
}

/// What is left of an edited buffer when the trailer is stripped: the text
/// before the first marker line, without the blank line before the marker;
/// all of it when there is no marker line.
pub open spec fn stripped(s: Seq<char>) -> Seq<char> {
    if has_marker_line(s) {
        let p = choose|p: int| marker_line_at(s, p) && forall|q: int| 0 <= q < p ==> !marker_line_at(s, q);
        let before = s.subrange(0, p);
        if before.len() >= 2 && before.subrange(before.len() - 2, before.len() as int) == "\n\n"@ {
            before.subrange(0, before.len() - 2)
        } else {
            before
        }
    } else {
        s
    }
}

fn marker_line_here(cs: &Vec<char>, m: &Vec<char>, p: usize) -> (res: bool)
    requires
        m@ == PROMPT_TRAILER_MARKER@,
        p <= cs@.len(),
    ensures
        res == marker_line_at(cs@, p as int),
{
    let cl = cs.len();
    if m.len() > cl - p {
        return false;
    }
    if p > 0 && cs[p - 1] != '\n' {
        return false;
    }
    let mut j: usize = 0;
    while j < m.len()
        invariant
            cl == cs@.len(),
            m@ == PROMPT_TRAILER_MARKER@,
            p + m@.len() <= cs@.len(),
            j <= m@.len(),
            forall|k: int| 0 <= k < j ==> cs@[p + k] == m@[k],
        decreases m@.len() - j,
    {
        if cs[p + j] != m[j] {
            assert(cs@.subrange(p as int, p + m@.len())[j as int] != m@[j as int]);
            return false;
        }
        j = j + 1;
    }
    assert(cs@.subrange(p as int, p + m@.len()) =~= m@);
    p + m.len() == cl || cs[p + m.len()] == '\n'
}

/// Removes the context trailer appended by [`append_prompt_trailer`]: the
/// first line that is exactly the marker and everything after it go, with
/// the blank line before it. Marker text that is not a whole line is
/// ordinary prompt text.
pub fn strip_prompt_trailer(text: &str) -> (res: String)
    ensures
        res@ == stripped(text@),
{
    let cs = chars_of(text);
    let m = chars_of(PROMPT_TRAILER_MARKER);
    let mut p: usize = 0;
    proof {
        lemma_marker_facts();
    }
    while p < cs.len()
        invariant
            cs@ == text@,
            m@ == PROMPT_TRAILER_MARKER@,
            m@.len() > 0,
            p <= cs@.len(),
            forall|q: int| 0 <= q < p ==> !marker_line_at(cs@, q),
        decreases cs@.len() - p,
    {
        if marker_line_here(&cs, &m, p) {
            let ghost chosen = choose|q: int| marker_line_at(cs@, q) && forall|r: int| 0 <= r < q ==> !marker_line_at(cs@, r);
            proof {
                assert(marker_line_at(cs@, p as int));
                if chosen < p {
                } else if chosen > p {
                }
                assert(chosen == p);
            }
            let end = if p >= 2 && cs[p - 1] == '\n' && cs[p - 2] == '\n' { p - 2 } else { p };
            let mut out = String::new();
            let mut i: usize = 0;
            while i < end
                invariant
                    end <= cs@.len(),
                    i <= end,
                    out@ == cs@.subrange(0, i as int),
                decreases end - i,
            {
                crate::text::push_char(&mut out, cs[i]);
                assert(out@ =~= cs@.subrange(0, i + 1));
                i = i + 1;
            }
            proof {
                let before = cs@.subrange(0, p as int);
                if p >= 2 {
                    assert(before.subrange(before.len() - 2, before.len() as int)[0] == cs@[p - 2]);
                    assert(before.subrange(before.len() - 2, before.len() as int)[1] == cs@[p - 1]);
                    if cs@[p - 1] == '\n' && cs@[p - 2] == '\n' {
                        assert(before.subrange(before.len() - 2, before.len() as int) =~= "\n\n"@) by {
                            reveal_strlit("\n\n");
                        }
                        assert(before.subrange(0, before.len() - 2) =~= cs@.subrange(0, p - 2));
                    } else {
                        reveal_strlit("\n\n");
                        assert(before.subrange(before.len() - 2, before.len() as int) != "\n\n"@);
                    }
                }
                assert(cs@.subrange(0, end as int) == stripped(text@));
            }
            return out;
        }
        p = p + 1;
    }
    proof {
        assert(!has_marker_line(cs@)) by {
            assert forall|q: int| !marker_line_at(cs@, q) by {
                if q >= cs@.len() {
                }
            }
        }
    }
    owned(text)
}

/// The marker is one non-empty line.
proof fn lemma_marker_facts()
    ensures
        PROMPT_TRAILER_MARKER@.len() > 0,
        forall|k: int| 0 <= k < PROMPT_TRAILER_MARKER@.len() ==> PROMPT_TRAILER_MARKER@[k] != '\n',
{
    reveal_strlit("# ------ tau: lines below this marker are context and are not sent ------");
}

/// The text of a buffer with a trailer, around the marker.
proof fn lemma_trailer_layout(buffer: Seq<char>, rest: Seq<char>)
    ensures
        ({
            let m = PROMPT_TRAILER_MARKER@;
            let s = buffer + "\n\n"@ + m + seq!['\n'] + rest;
            let p = buffer.len() as int + 2;
            &&& s.subrange(0, p) == buffer + "\n\n"@
            &&& s[p - 1] == '\n'
            &&& s[buffer.len() as int] == '\n'
            &&& s.subrange(p, p + m.len()) == m
            &&& s[p + m.len()] == '\n'
            &&& forall|k: int| 0 <= k < buffer.len() ==> s[k] == buffer[k]
        }),
{
    reveal_strlit("\n\n");
    let m = PROMPT_TRAILER_MARKER@;
    let s = buffer + "\n\n"@ + m + seq!['\n'] + rest;
    let p = buffer.len() as int + 2;
    assert(s.subrange(0, p) =~= buffer + "\n\n"@);
    assert(s.subrange(p, p + m.len()) =~= m);
}

/// Appending the trailer and stripping it again gives back the edited
/// prompt, provided the prompt itself has no line that is exactly the
/// marker.
#[verifier::rlimit(40)]
pub proof fn law_strip_undoes_append(buffer: Seq<char>, ctx: EditorContext)
    requires
        !has_marker_line(buffer),
    ensures
        stripped(with_trailer(buffer, ctx)) == buffer,
{
    let sections = trailer_sections(ctx);
    if sections.len() > 0 {
        let m = PROMPT_TRAILER_MARKER@;
        let rest = join(sections, "\n\n"@);
        let s = with_trailer(buffer, ctx);
        assert(s == buffer + "\n\n"@ + m + seq!['\n'] + rest);
        let p: int = buffer.len() as int + 2;
        lemma_marker_facts();
        lemma_trailer_layout(buffer, rest);
        assert(marker_line_at(s, p));
        assert forall|q: int| 0 <= q < p implies !marker_line_at(s, q) by {
            if marker_line_at(s, q) {
                if q + m.len() <= buffer.len() {
                    assert(s.subrange(q, q + m.len()) =~= buffer.subrange(q, q + m.len()));
                    if q > 0 {
                        assert(s[q - 1] == buffer[q - 1]);
                    }
                    if q + m.len() < buffer.len() {
                        assert(s[q + m.len()] == buffer[q + m.len()]);
                    }
                    assert(marker_line_at(buffer, q));
                } else {
                    let k = buffer.len() - q;
                    assert(s.subrange(q, q + m.len())[k] == s[buffer.len() as int]);
                }
            }
        }
        let chosen = choose|q: int| marker_line_at(s, q) && forall|r: int| 0 <= r < q ==> !marker_line_at(s, r);
        assert(chosen == p) by {
            if chosen < p {
            } else if chosen > p {
            }
        }
        reveal_strlit("\n\n");
        let before = s.subrange(0, p);
        assert(before.subrange(before.len() - 2, before.len() as int) =~= "\n\n"@);
        assert(before.subrange(0, before.len() - 2) =~= buffer);
    }
}

// ---------------------------------------------------------------------------
// Agents and roles
// ---------------------------------------------------------------------------

/// Whether `name` is one of `names`.
pub fn contains_name(names: &Vec<String>, name: &str) -> (res: bool)
    ensures
        res == views(names@).contains(name@),
{
    let mut i: usize = 0;
    while i < names.len()
        invariant
            i <= names@.len(),
            forall|k: int| 0 <= k < i ==> names@[k]@ != name@,
        decreases names@.len() - i,
    {
        if str_eq(names[i].as_str(), name) {
            assert(views(names@)[i as int] == name@);
            return true;
        }
        i = i + 1;
    }
    assert forall|k: int| 0 <= k < views(names@).len() implies views(names@)[k] != name@ by {
        assert(views(names@)[k] == names@[k]@);
    }
    false
}

/// An agent can take prompts when it is live and not suspended.
pub fn agent_is_active_in_sets(live: &Vec<String>, suspended: &Vec<String>, name: &str) -> (res: bool)
    ensures
        res == (views(live@).contains(name@) && !views(suspended@).contains(name@)),
{
    contains_name(live, name) && !contains_name(suspended, name)
}

/// The names with `name` added at the end unless it is already there.
pub open spec fn with_name(s: Seq<Seq<char>>, name: Seq<char>) -> Seq<Seq<char>> {
    if s.contains(name) { s } else { s.push(name) }
}

/// Records that an agent was suspended.
pub fn mark_agent_suspended(suspended: &mut Vec<String>, name: &str)
    ensures
        views(final(suspended)@) == with_name(views(old(suspended)@), name@),
        views(final(suspended)@).contains(name@),
        forall|n: Seq<char>| views(old(suspended)@).contains(n) ==> views(final(suspended)@).contains(n),
        forall|n: Seq<char>| n != name@ ==> (views(final(suspended)@).contains(n) == views(old(suspended)@).contains(n)),
{
    if !contains_name(suspended, name) {
        let ghost before = views(suspended@);
        suspended.push(owned(name));
        assert(views(suspended@) =~= before.push(name@));
        assert(views(suspended@)[before.len() as int] == name@);
        assert forall|n: Seq<char>| before.contains(n) implies views(suspended@).contains(n) by {
            let k = choose|k: int| 0 <= k < before.len() && before[k] == n;
            assert(views(suspended@)[k] == n);
        }
        assert forall|n: Seq<char>| n != name@ && views(suspended@).contains(n) implies before.contains(n) by {
            let k = choose|k: int| 0 <= k < views(suspended@).len() && views(suspended@)[k] == n;
            assert(k < before.len());
            assert(before[k] == n);
        }
    }
}

/// The names other than `name`, in order.
pub open spec fn without_name(s: Seq<Seq<char>>, name: Seq<char>) -> Seq<Seq<char>>
    decreases s.len(),
{
    if s.len() == 0 {
        Seq::empty()
    } else if s.last() == name {
        without_name(s.drop_last(), name)
    } else {
        without_name(s.drop_last(), name).push(s.last())
    }
}

proof fn lemma_without_name_contains(s: Seq<Seq<char>>, name: Seq<char>, n: Seq<char>)
    ensures
        without_name(s, name).contains(n) == (s.contains(n) && n != name),
    decreases s.len(),
{
    if s.len() > 0 {
        lemma_without_name_contains(s.drop_last(), name, n);
        let w = without_name(s.drop_last(), name);
        if s.contains(n) && n != name {
            let k = choose|k: int| 0 <= k < s.len() && s[k] == n;
            if k < s.len() - 1 {
                assert(s.drop_last()[k] == n);
                let j = choose|j: int| 0 <= j < w.len() && w[j] == n;
                if s.last() != name {
                    assert(w.push(s.last())[j] == n);
                }
            } else {
                assert(w.push(s.last())[w.len() as int] == n);
            }
        }
        if without_name(s, name).contains(n) {
            let r = without_name(s, name);
            let j = choose|j: int| 0 <= j < r.len() && r[j] == n;
            if s.last() != name && j == w.len() {
                assert(s[s.len() - 1] == n);
            } else {
                assert(w[j] == n);
                let k = choose|k: int| 0 <= k < s.drop_last().len() && s.drop_last()[k] == n;
                assert(s[k] == n);
            }
        }
    }
}

/// Records that an agent was resumed: it is no longer suspended.
pub fn mark_agent_resumed(suspended: &mut Vec<String>, name: &str)
    ensures
        views(final(suspended)@) == without_name(views(old(suspended)@), name@),
        !views(final(suspended)@).contains(name@),
        forall|n: Seq<char>| n != name@ ==> (views(final(suspended)@).contains(n) == views(old(suspended)@).contains(n)),
{
    let ghost orig = views(suspended@);
    let mut out: Vec<String> = Vec::new();
    let mut i: usize = 0;
    while i < suspended.len()
        invariant
            i <= suspended@.len(),
            views(suspended@) == orig,
            views(out@) == without_name(orig.take(i as int), name@),
        decreases suspended@.len() - i,
    {
        let ghost before = views(out@);
        assert(orig.take(i + 1).drop_last() =~= orig.take(i as int));
        assert(orig.take(i + 1).last() == suspended@[i as int]@);
        if !str_eq(suspended[i].as_str(), name) {
            out.push(suspended[i].clone());
            assert(views(out@) =~= before.push(suspended@[i as int]@));
        }
        i = i + 1;
    }
    assert(orig.take(orig.len() as int) =~= orig);
    proof {
        lemma_without_name_contains(orig, name@, name@);
        assert forall|n: Seq<char>| n != name@ implies (views(out@).contains(n) == orig.contains(n)) by {
            lemma_without_name_contains(orig, name@, n);
        }
    }
    *suspended = out;
}

proof fn lemma_without_absent_name(s: Seq<Seq<char>>, name: Seq<char>)
    requires
        !s.contains(name),
    ensures
        without_name(s, name) == s,
    decreases s.len(),
{
    if s.len() > 0 {
        assert(!s.drop_last().contains(name)) by {
            if s.drop_last().contains(name) {
                let k = choose|k: int| 0 <= k < s.drop_last().len() && s.drop_last()[k] == name;
                assert(s[k] == name);
            }
        }
        lemma_without_absent_name(s.drop_last(), name);
        assert(s.last() != name) by {
            assert(s[s.len() - 1] == s.last());
        }
        assert(s.drop_last().push(s.last()) =~= s);
    }
}

/// Resuming an agent undoes suspending it: the suspended list is left as
/// if the agent had been resumed right away, and exactly as it was when
/// the agent was not suspended before.
pub proof fn law_resume_undoes_suspend(suspended: Seq<Seq<char>>, name: Seq<char>)
    ensures
        without_name(with_name(suspended, name), name) == without_name(suspended, name),
        !suspended.contains(name) ==> without_name(with_name(suspended, name), name) == suspended,
{
    if !suspended.contains(name) {
        assert(suspended.push(name).drop_last() =~= suspended);
        lemma_without_absent_name(suspended, name);
    }
}

/// The names of `known` that satisfy the agent filter, in order.
pub open spec fn filtered(known: Seq<Seq<char>>, live: Seq<Seq<char>>, suspended: Seq<Seq<char>>, want_suspended: bool) -> Seq<Seq<char>>
    decreases known.len(),
{
    if known.len() == 0 {
        Seq::empty()
    } else {
        let n = known.last();
        let keep = if want_suspended { suspended.contains(n) } else { live.contains(n) && !suspended.contains(n) };
        if keep {
            filtered(known.drop_last(), live, suspended, want_suspended).push(n)
        } else {
            filtered(known.drop_last(), live, suspended, want_suspended)
        }
    }
}

/// Known agents that are active (`want_suspended` false) or suspended.
pub fn agents_matching(known: &Vec<String>, live: &Vec<String>, suspended: &Vec<String>, want_suspended: bool) -> (res: Vec<String>)
    ensures
        views(res@) == filtered(views(known@), views(live@), views(suspended@), want_suspended),
{
    let mut out: Vec<String> = Vec::new();
    let mut i: usize = 0;
    while i < known.len()
        invariant
            i <= known@.len(),
            views(out@) == filtered(views(known@).take(i as int), views(live@), views(suspended@), want_suspended),
        decreases known@.len() - i,
    {
        let name = known[i].as_str();
        assert(views(known@).take(i + 1).drop_last() =~= views(known@).take(i as int));
        assert(views(known@).take(i + 1).last() == name@);
        let keep = if want_suspended {
            contains_name(suspended, name)
        } else {
            agent_is_active_in_sets(live, suspended, name)
        };
        if keep {
            let ghost before = views(out@);
            out.push(owned(name));
            assert(views(out@) =~= before.push(name@));
        }
        i = i + 1;
    }
    assert(views(known@).take(known@.len() as int) =~= views(known@));
    out
}

/// Subcommands of `/agent`, in order.
pub open spec fn agent_subcommands() -> Seq<Seq<char>> {
    seq!["new"@, "switch"@, "suspend"@, "resume"@]
}

/// `s` starts with `p`.
pub open spec fn has_prefix(s: Seq<char>, p: Seq<char>) -> bool {
    p.len() <= s.len() && s.subrange(0, p.len() as int) == p
}

/// The names that start with `prefix`, in order.
pub open spec fn with_prefix(names: Seq<Seq<char>>, prefix: Seq<char>) -> Seq<Seq<char>>
    decreases names.len(),
{
    if names.len() == 0 {
        Seq::empty()
    } else if has_prefix(names.last(), prefix) {
        with_prefix(names.drop_last(), prefix).push(names.last())
    } else {
        with_prefix(names.drop_last(), prefix)
    }
}

fn starts_with_str(s: &str, p: &str) -> (res: bool)
    ensures
        res == has_prefix(s@, p@),
{
    let a = chars_of(s);
    let b = chars_of(p);
    if b.len() > a.len() {
        return false;
    }
    let mut i: usize = 0;
    while i < b.len()
        invariant
            a@ == s@,
            b@ == p@,
            b@.len() <= a@.len(),
            i <= b@.len(),
            forall|k: int| 0 <= k < i ==> a@[k] == b@[k],
        decreases b@.len() - i,
    {
        if a[i] != b[i] {
            assert(a@.subrange(0, b@.len() as int)[i as int] != b@[i as int]);
            return false;
        }
        i = i + 1;
    }
    assert(a@.subrange(0, b@.len() as int) =~= b@);
    true
}

/// The candidates that start with `prefix`, in order.
pub fn complete_prefix(candidates: Vec<String>, prefix: &str) -> (res: Vec<String>)
    ensures
        views(res@) == with_prefix(views(candidates@), prefix@),
{
    let mut out: Vec<String> = Vec::new();
    let mut i: usize = 0;
    while i < candidates.len()
        invariant
            i <= candidates@.len(),
            views(out@) == with_prefix(views(candidates@).take(i as int), prefix@),
        decreases candidates@.len() - i,
    {
        let c = candidates[i].as_str();
        assert(views(candidates@).take(i + 1).drop_last() =~= views(candidates@).take(i as int));
        assert(views(candidates@).take(i + 1).last() == c@);
        if starts_with_str(c, prefix) {
            let ghost before = views(out@);
            out.push(owned(c));
            assert(views(out@) =~= before.push(c@));
        }
        i = i + 1;
    }
    assert(views(candidates@).take(candidates@.len() as int) =~= views(candidates@));
    out
}

/// Completions for the arguments of `/agent`: the subcommands first; then
/// `none` and the active agents for `switch`, the active agents for
/// `suspend`, the suspended agents for `resume`, and nothing for `new`.
pub open spec fn agent_completions(args: Seq<Seq<char>>, known: Seq<Seq<char>>, live: Seq<Seq<char>>, suspended: Seq<Seq<char>>) -> Seq<Seq<char>> {
    if args.len() == 1 {
        with_prefix(agent_subcommands(), args[0])
    } else if args.len() == 2 {
        let prefix = args[1];
        if args[0] == "switch"@ {
            with_prefix(seq!["none"@] + filtered(known, live, suspended, false), prefix)
        } else if args[0] == "suspend"@ {
            with_prefix(filtered(known, live, suspended, false), prefix)
        } else if args[0] == "resume"@ {
            with_prefix(filtered(known, live, suspended, true), prefix)
        } else {
            Seq::empty()
        }
    } else {
        Seq::empty()
    }
}

/// Completion values for the arguments typed so far after `/agent`.
pub fn agent_arg_completions(args: &Vec<String>, known: &Vec<String>, live: &Vec<String>, suspended: &Vec<String>) -> (res: Vec<String>)
    ensures
        views(res@) == agent_completions(views(args@), views(known@), views(live@), views(suspended@)),
{
    proof {
        reveal_strlit("switch");
        reveal_strlit("suspend");
        reveal_strlit("resume");
    }
    if args.len() == 1 {
        let mut subs: Vec<String> = Vec::new();
        subs.push(owned("new"));
        subs.push(owned("switch"));
        subs.push(owned("suspend"));
        subs.push(owned("resume"));
        assert(views(subs@) =~= agent_subcommands());
        assert(views(args@)[0] == args@[0]@);
        complete_prefix(subs, args[0].as_str())
    } else if args.len() == 2 {
        let sub = args[0].as_str();
        let prefix = args[1].as_str();
        assert(views(args@)[0] == sub@);
        assert(views(args@)[1] == prefix@);
        if str_eq(sub, "switch") {
            let mut c: Vec<String> = Vec::new();
            c.push(owned("none"));
            let mut active = agents_matching(known, live, suspended, false);
            let ghost a = views(active@);
            c.append(&mut active);
            assert(views(c@) =~= seq!["none"@] + a);
            complete_prefix(c, prefix)
        } else if str_eq(sub, "suspend") {
            complete_prefix(agents_matching(known, live, suspended, false), prefix)
        } else if str_eq(sub, "resume") {
            complete_prefix(agents_matching(known, live, suspended, true), prefix)
        } else {
            let r: Vec<String> = Vec::new();
            assert(views(r@) =~= Seq::<Seq<char>>::empty());
            r
        }
    } else {
        let r: Vec<String> = Vec::new();
        assert(views(r@) =~= Seq::<Seq<char>>::empty());
        r
    }
}

/// Completion values for the arguments typed so far after `/session`.
pub fn session_arg_completions(args: &Vec<String>) -> (res: Vec<String>)
    ensures
        views(res@) == (if args@.len() == 1 { with_prefix(seq!["new"@], args@[0]@) } else { Seq::empty() }),
{
    if args.len() == 1 {
        let mut c: Vec<String> = Vec::new();
        c.push(owned("new"));
        assert(views(c@) =~= seq!["new"@]);
        complete_prefix(c, args[0].as_str())
    } else {
        let r: Vec<String> = Vec::new();
        assert(views(r@) =~= Seq::<Seq<char>>::empty());
        r
    }
}

/// Completion values for an `@agent` mention: the active agents.
pub fn agent_mention_completions(prefix: &str, known: &Vec<String>, live: &Vec<String>, suspended: &Vec<String>) -> (res: Vec<String>)
    ensures
        views(res@) == with_prefix(filtered(views(known@), views(live@), views(suspended@), false), prefix@),
{
    complete_prefix(agents_matching(known, live, suspended, false), prefix)
}

/// A group of interchangeable roles.
pub struct HarnessRoleGroup {
    pub name: String,
    pub roles: Vec<String>,
}

/// The position of the group holding `role`, if any.
pub open spec fn group_of(groups: Seq<HarnessRoleGroup>, role: Seq<char>) -> Option<int>
    decreases groups.len(),
{
    if groups.len() == 0 {
        None
    } else if group_of(groups.drop_last(), role) is Some {
        group_of(groups.drop_last(), role)
    } else if views(groups.last().roles@).contains(role) {
        Some(groups.len() - 1)
    } else {
        None
    }
}

/// The role remembered for group `name`, if any (the last one recorded).
pub open spec fn remembered(memory: Seq<(String, String)>, name: Seq<char>) -> Option<Seq<char>>
    decreases memory.len(),
{
    if memory.len() == 0 {
        None
    } else if memory.last().0@ == name {
        Some(memory.last().1@)
    } else {
        remembered(memory.drop_last(), name)
    }
}

/// The role to switch to when cycling groups: the next group (the previous
/// one when `reverse`), wrapping around; from no group, the first group
/// (the last one when `reverse`). In that group, the role last used there
/// if it still belongs to it, else its first role.
pub open spec fn next_role(current: Option<Seq<char>>, groups: Seq<HarnessRoleGroup>, reverse: bool, memory: Seq<(String, String)>) -> Option<Seq<char>> {
    if groups.len() == 0 {
        None
    } else {
        let n = groups.len() as int;
        let from = match current { Some(r) => group_of(groups, r), None => None };
        let target = match from {
            Some(i) => if reverse { if i == 0 { n - 1 } else { i - 1 } } else { if i + 1 == n { 0 } else { i + 1 } },
            None => if reverse { n - 1 } else { 0 },
        };
        let g = groups[target];
        match remembered(memory, g.name@) {
            Some(r) => if views(g.roles@).contains(r) { Some(r) } else if g.roles@.len() > 0 { Some(g.roles@[0]@) } else { None },
            None => if g.roles@.len() > 0 { Some(g.roles@[0]@) } else { None },
        }
    }
}

/// `group_of` finds the first group that holds the role.
proof fn lemma_group_of_first(groups: Seq<HarnessRoleGroup>, role: Seq<char>)
    ensures
        match group_of(groups, role) {
            Some(i) => 0 <= i < groups.len() && views(groups[i].roles@).contains(role)
                && forall|j: int| 0 <= j < i ==> !views(#[trigger] groups[j].roles@).contains(role),
            None => forall|j: int| 0 <= j < groups.len() ==> !views(#[trigger] groups[j].roles@).contains(role),
        },
    decreases groups.len(),
{
    if groups.len() > 0 {
        let p = groups.drop_last();
        lemma_group_of_first(p, role);
        assert forall|j: int| 0 <= j < p.len() implies #[trigger] p[j] == groups[j] by {}
        if group_of(p, role) is Some {
            let i = group_of(p, role)->0;
            assert(p[i] == groups[i]);
            assert forall|j: int| 0 <= j < i implies !views(#[trigger] groups[j].roles@).contains(role) by {
                assert(p[j] == groups[j]);
            }
        } else if views(groups.last().roles@).contains(role) {
            assert forall|j: int| 0 <= j < groups.len() - 1 implies !views(#[trigger] groups[j].roles@).contains(role) by {
                assert(p[j] == groups[j]);
            }
        } else {
            assert forall|j: int| 0 <= j < groups.len() implies !views(#[trigger] groups[j].roles@).contains(role) by {
                if j < groups.len() - 1 {
                    assert(p[j] == groups[j]);
                }
            }
        }
    }
}

/// Neighbours of a group index, as wrapping arithmetic gives them.
proof fn lemma_neighbour(i: int, n: int)
    requires
        0 <= i < n,
    ensures
        neighbour(i, n, false) == (if i + 1 == n { 0 } else { i + 1 }),
        neighbour(i, n, true) == (if i == 0 { n - 1 } else { i - 1 }),
{
    if i + 1 == n {
        vstd::arithmetic::div_mod::lemma_mod_self_0(n);
    } else {
        vstd::arithmetic::div_mod::lemma_small_mod((i + 1) as nat, n as nat);
    }
    if i == 0 {
        vstd::arithmetic::div_mod::lemma_small_mod((n - 1) as nat, n as nat);
    } else {
        vstd::arithmetic::div_mod::lemma_mod_add_multiples_vanish((i - 1) as int, n);
        vstd::arithmetic::div_mod::lemma_small_mod((i - 1) as nat, n as nat);
        assert(n + (i - 1) == i - 1 + n);
    }
}

/// The group after `i` when cycling forward, the one before it when
/// cycling backward, wrapping around `n` groups.
pub open spec fn neighbour(i: int, n: int, reverse: bool) -> int {
    if reverse { (i - 1 + n) % n } else { (i + 1) % n }
}

/// Tab moves between groups: cycling from a role of group `i` lands on a
/// role of the next group (Shift-Tab: the previous one), wrapping around,
/// whenever that group has roles.
pub proof fn law_cycling_moves_to_the_neighbouring_group(
    current: Seq<char>,
    groups: Seq<HarnessRoleGroup>,
    reverse: bool,
    memory: Seq<(String, String)>,
    i: int,
)
    requires
        0 <= i < groups.len(),
        views(groups[i].roles@).contains(current),
        forall|j: int| 0 <= j < groups.len() && j != i ==> !views(#[trigger] groups[j].roles@).contains(current),
        groups[neighbour(i, groups.len() as int, reverse)].roles@.len() > 0,
    ensures
        next_role(Some(current), groups, reverse, memory) matches Some(r)
            && views(groups[neighbour(i, groups.len() as int, reverse)].roles@).contains(r),
{
    lemma_group_of_first(groups, current);
    let n = groups.len() as int;
    let t = neighbour(i, n, reverse);
    lemma_neighbour(i, n);
    assert(group_of(groups, current) == Some(i)) by {
        match group_of(groups, current) {
            Some(k) => {
                if k != i {
                    assert(!views(groups[k].roles@).contains(current));
                }
            },
            None => {
                assert(!views(groups[i].roles@).contains(current));
            },
        }
    }
    assert(0 <= t < n);
    let g = groups[t];
    assert(views(g.roles@)[0] == g.roles@[0]@);
    assert(views(g.roles@).contains(g.roles@[0]@));
}

/// Cycling forward and then backward comes back to the group it started
/// from, when every role belongs to one group only and the groups have
/// roles.
pub proof fn law_cycling_back_returns_to_the_group(
    current: Seq<char>,
    groups: Seq<HarnessRoleGroup>,
    memory: Seq<(String, String)>,
    i: int,
)
    requires
        0 <= i < groups.len(),
        views(groups[i].roles@).contains(current),
        forall|a: int, b: int, r: Seq<char>| 0 <= a < groups.len() && 0 <= b < groups.len() && a != b
            && #[trigger] views(groups[a].roles@).contains(r) ==> !#[trigger] views(groups[b].roles@).contains(r),
        forall|j: int| 0 <= j < groups.len() ==> (#[trigger] groups[j].roles@).len() > 0,
    ensures
        next_role(Some(current), groups, false, memory) matches Some(r)
            && next_role(Some(r), groups, true, memory) matches Some(back)
            && views(groups[i].roles@).contains(back),
{
    let n = groups.len() as int;
    let t = neighbour(i, n, false);
    lemma_neighbour(i, n);
    law_cycling_moves_to_the_neighbouring_group(current, groups, false, memory, i);
    let r = next_role(Some(current), groups, false, memory)->0;
    assert(0 <= t < n);
    lemma_neighbour(t, n);
    assert(neighbour(t, n, true) == i);
    law_cycling_moves_to_the_neighbouring_group(r, groups, true, memory, t);
}

fn find_group(groups: &Vec<HarnessRoleGroup>, role: &str) -> (res: Option<usize>)
    ensures
        match res { Some(i) => Some(i as int), None => None::<int> } == group_of(groups@, role@),
        res matches Some(i) ==> i < groups@.len(),
{
    let mut i: usize = 0;
    assert(groups@.take(0) =~= Seq::<HarnessRoleGroup>::empty());
    while i < groups.len()
        invariant
            i <= groups@.len(),
            group_of(groups@.take(i as int), role@) is None,
        decreases groups@.len() - i,
    {
        assert(groups@.take(i + 1).drop_last() =~= groups@.take(i as int));
        assert(groups@.take(i + 1).last() == groups@[i as int]);
        if contains_name(&groups[i].roles, role) {
            proof {
                lemma_group_of_prefix(groups@, i + 1, role@);
            }
            return Some(i);
        }
        i = i + 1;
    }
    assert(groups@.take(groups@.len() as int) =~= groups@);
    None
}

proof fn lemma_group_of_prefix(groups: Seq<HarnessRoleGroup>, k: int, role: Seq<char>)
    requires
        0 <= k <= groups.len(),
        group_of(groups.take(k), role) is Some,
    ensures
        group_of(groups, role) == group_of(groups.take(k), role),
    decreases groups.len() - k,
{
    if k < groups.len() {
        assert(groups.take(k + 1).drop_last() =~= groups.take(k));
        lemma_group_of_prefix(groups, k + 1, role);
    } else {
        assert(groups.take(k) =~= groups);
    }
}

fn remembered_role<'a>(memory: &'a Vec<(String, String)>, name: &str) -> (res: Option<&'a String>)
    ensures
        match res { Some(r) => Some(r@), None => None::<Seq<char>> } == remembered(memory@, name@),
{
    let mut i: usize = memory.len();
    assert(memory@.take(i as int) =~= memory@);
    while i > 0
        invariant
            i <= memory@.len(),
            remembered(memory@, name@) == remembered(memory@.take(i as int), name@),
        decreases i,
    {
        assert(memory@.take(i as int).drop_last() =~= memory@.take(i - 1));
        assert(memory@.take(i as int).last() == memory@[i - 1]);
        if str_eq(memory[i - 1].0.as_str(), name) {
            return Some(&memory[i - 1].1);
        }
        i = i - 1;
    }
    None
}

/// The role Tab (or Shift-Tab, `reverse`) switches to from `current`.
pub fn next_role_in_groups(current: Option<&str>, groups: &Vec<HarnessRoleGroup>, reverse: bool, memory: &Vec<(String, String)>) -> (res: Option<String>)
    ensures
        match res { Some(r) => Some(r@), None => None::<Seq<char>> }
            == next_role(match current { Some(c) => Some(c@), None => None }, groups@, reverse, memory@),
{
    if groups.len() == 0 {
        return None;
    }
    let n = groups.len();
    let from = match current {
        Some(r) => find_group(groups, r),
        None => None,
    };
    let target = match from {
        Some(i) => if reverse { if i == 0 { n - 1 } else { i - 1 } } else { if i + 1 == n { 0 } else { i + 1 } },
        None => if reverse { n - 1 } else { 0 },
    };
    let g = &groups[target];
    match remembered_role(memory, g.name.as_str()) {
        Some(r) => {
            if contains_name(&g.roles, r.as_str()) {
                return Some(r.clone());
            }
        },
        None => {},
    }
    if g.roles.len() > 0 {
        assert(views(g.roles@)[0] == g.roles@[0]@);
        Some(g.roles[0].clone())
    } else {
        None
    }
}

// ---------------------------------------------------------------------------
// Picker
// ---------------------------------------------------------------------------

/// One selectable row shown by the terminal picker.
#[derive(Clone, Debug)]
pub struct PickerItem {
    pub label: String,
    /// Whether the cursor can land on and select this row.
    pub enabled: bool,
}

impl PickerItem {
    /// A row that can be selected.
    pub fn enabled(label: String) -> (res: Self)
        ensures
            res.label@ == label@,
            res.enabled,
    {
        PickerItem { label, enabled: true }
    }

    /// A row that is shown but skipped by navigation.
    pub fn disabled(label: String) -> (res: Self)
        ensures
            res.label@ == label@,
            !res.enabled,
    {
        PickerItem { label, enabled: false }
    }
}

#[verifier::external_type_specification]
#[verifier::external_body]
pub struct ExIoError(std::io::Error);

/// Errors of rendering or driving a picker.
#[derive(Debug)]
pub enum PickerError {
    /// Terminal or stream I/O failed.
    Io(std::io::Error),
    /// The picker was invoked with no items.
    Empty,
    /// None of the items can be selected.
    NoEnabledItems,
    /// The user cancelled the picker.
    Cancelled,
}

/// The display text of an I/O error.
///
/// Trusted wrapper around the `Display` impl of `std::io::Error`; nothing is
/// claimed of the text.
#[verifier::external_body]
fn io_error_text(error: &std::io::Error) -> (res: String) {
    error.to_string()
}

impl PickerError {
    /// The human-readable message.
    pub fn message(&self) -> (res: String)
        ensures
            match self {
                PickerError::Io(_) => crate::cli::has_prefix(res@, "I/O error: "@),
                PickerError::Empty => res@ == "picker has no items"@,
                PickerError::NoEnabledItems => res@ == "picker has no enabled items"@,
                PickerError::Cancelled => res@ == "picker cancelled"@,
            },
    {
        match self {
            PickerError::Io(source) => {
                let mut s = owned("I/O error: ");
                let ghost head = s@;
                push_str(&mut s, io_error_text(source).as_str());
                assert(s@.subrange(0, head.len() as int) =~= head);
                s
            },
            PickerError::Empty => owned("picker has no items"),
            PickerError::NoEnabledItems => owned("picker has no enabled items"),
            PickerError::Cancelled => owned("picker cancelled"),
        }
    }
}

/// A key press, decoded independently of the input source.
#[derive(Clone, Copy, Debug, PartialEq, Eq, Structural)]
pub enum LogicalKey {
    Up,
    Down,
    Tab,
    BackTab,
    Enter,
    Esc,
    CtrlC,
    CtrlD,
    Char(char),
    Unknown,
}

/// What a key does in the picker.
#[derive(Clone, Copy, Debug, PartialEq, Eq, Structural)]
pub enum PickerKey {
    Up,
    Down,
    Enter,
    Cancelled,
    Ignored,
}

/// The single mapping from logical keys to picker actions: arrows and
/// Tab/Shift-Tab move, `j`/`k` move, Enter selects, Escape, Ctrl-C, Ctrl-D
/// and `q` cancel, anything else is ignored.
pub fn logical_to_action(key: LogicalKey) -> (res: PickerKey)
    ensures
        res == (match key {
            LogicalKey::Up | LogicalKey::BackTab => PickerKey::Up,
            LogicalKey::Down | LogicalKey::Tab => PickerKey::Down,
            LogicalKey::Enter => PickerKey::Enter,
            LogicalKey::Esc | LogicalKey::CtrlC | LogicalKey::CtrlD => PickerKey::Cancelled,
            LogicalKey::Char(c) => if c == 'j' { PickerKey::Down } else if c == 'k' { PickerKey::Up } else if c == 'q' { PickerKey::Cancelled } else { PickerKey::Ignored },
            LogicalKey::Unknown => PickerKey::Ignored,
        }),
{
    match key {
        LogicalKey::Up | LogicalKey::BackTab => PickerKey::Up,
        LogicalKey::Down | LogicalKey::Tab => PickerKey::Down,
        LogicalKey::Enter => PickerKey::Enter,
        LogicalKey::Esc | LogicalKey::CtrlC | LogicalKey::CtrlD => PickerKey::Cancelled,
        LogicalKey::Char(c) => {
            if c == 'j' {
                PickerKey::Down
            } else if c == 'k' {
                PickerKey::Up
            } else if c == 'q' {
                PickerKey::Cancelled
            } else {
                PickerKey::Ignored
            }
        },
        LogicalKey::Unknown => PickerKey::Ignored,
    }
}

// ---------------------------------------------------------------------------
// `tau provider`
// ---------------------------------------------------------------------------

/// Usage text of `tau provider`.
pub const HELP_TEXT: &'static str = "Usage: tau provider <provider> <subcommand>\n\nBuiltin providers:\n  chatgpt             ChatGPT / Codex OAuth provider\n  chat-completions    OpenAI-compatible Chat Completions provider\n\nExamples:\n  tau provider chatgpt login\n  tau provider chat-completions add";

/// Where `tau provider` sends its arguments.
#[derive(Debug, PartialEq, Eq)]
pub enum ProviderCommand {
    /// The ChatGPT / Codex provider's own CLI, with the remaining arguments.
    ChatGpt,
    /// The Chat Completions provider's own CLI, with the remaining arguments.
    ChatCompletions,
    /// Print the usage text.
    Help,
    /// An unknown provider: the error message.
    Unknown(String),
}

/// The dispatch of `tau provider <provider> ...`: no provider means help.
pub fn provider_command(args: &Vec<String>) -> (res: ProviderCommand)
    ensures
        ({
            let first = if args@.len() > 0 { args@[0]@ } else { "help"@ };
            if first == "chatgpt"@ {
                res == ProviderCommand::ChatGpt
            } else if first == "chat-completions"@ {
                res == ProviderCommand::ChatCompletions
            } else if first == "help"@ || first == "--help"@ || first == "-h"@ {
                res == ProviderCommand::Help
            } else {
                res matches ProviderCommand::Unknown(m) && m@ == "unknown provider: "@ + first
            }
        }),
{
    let first: &str = if args.len() > 0 { args[0].as_str() } else { "help" };
    if str_eq(first, "chatgpt") {
        ProviderCommand::ChatGpt
    } else if str_eq(first, "chat-completions") {
        ProviderCommand::ChatCompletions
    } else if str_eq(first, "help") || str_eq(first, "--help") || str_eq(first, "-h") {
        ProviderCommand::Help
    } else {
        let mut m = owned("unknown provider: ");
        push_str(&mut m, first);
        ProviderCommand::Unknown(m)
    }
}

} // verus!
