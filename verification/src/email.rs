//! The `email` tool's command envelope: strict argument parsing into
//! commands, and the structured errors returned for rejected calls.

use vstd::prelude::*;

use crate::cbor::{CborValue, CborView, dict3, lemma_view_entries, lemma_view_entries_prefix, lemma_view_entries_take, lemma_view_items_prefix, lemma_view_items, lemma_view_items_take, text, view_entries, view_items};
use crate::text::{blank, concat2, concat3, is_blank, owned, push_char, push_str, str_eq};
use crate::tool::{
    display, error_of, final_result_of, no_stats, BackgroundSupport, PromptOriginator, ToolDisplayStatus, ToolExecutionMode,
    ToolOutcome, ToolResultKind, ToolSpec, ToolStarted, ToolType,
};

verus! {

broadcast use vstd::string::group_string_axioms;

/// Tau-internal and model-visible tool name for email commands.
pub const TOOL_NAME: &'static str = "email";

/// One parsed email command.
#[derive(Debug, PartialEq, Eq)]
pub enum EmailCommand {
    ListAccounts,
    ListFolders { account: String },
    List { account: String, folder: String, limit: u32, cursor: Option<String> },
    Read { account: String, folder: String, uid: String },
    Send {
        account: Option<String>,
        from: Option<String>,
        to: Vec<String>,
        cc: Vec<String>,
        bcc: Vec<String>,
        subject: String,
        body_text: String,
    },
}

/// The content of an [`EmailCommand`].
pub enum EmailCommandView {
    ListAccounts,
    ListFolders { account: Seq<char> },
    List { account: Seq<char>, folder: Seq<char>, limit: u32, cursor: Option<Seq<char>> },
    Read { account: Seq<char>, folder: Seq<char>, uid: Seq<char> },
    Send {
        account: Option<Seq<char>>,
        from: Option<Seq<char>>,
        to: Seq<Seq<char>>,
        cc: Seq<Seq<char>>,
        bcc: Seq<Seq<char>>,
        subject: Seq<char>,
        body_text: Seq<char>,
    },
}

pub open spec fn opt_view(o: Option<String>) -> Option<Seq<char>> {
    match o {
        Some(s) => Some(s@),
        None => None,
    }
}

pub open spec fn strings_view(v: Seq<String>) -> Seq<Seq<char>> {
    Seq::new(v.len(), |i: int| v[i]@)
}

impl View for EmailCommand {
    type V = EmailCommandView;

    open spec fn view(&self) -> EmailCommandView {
        match self {
            EmailCommand::ListAccounts => EmailCommandView::ListAccounts,
            EmailCommand::ListFolders { account } => EmailCommandView::ListFolders { account: account@ },
            EmailCommand::List { account, folder, limit, cursor } => EmailCommandView::List {
                account: account@,
                folder: folder@,
                limit: *limit,
                cursor: opt_view(*cursor),
            },
            EmailCommand::Read { account, folder, uid } => EmailCommandView::Read {
                account: account@,
                folder: folder@,
                uid: uid@,
            },
            EmailCommand::Send { account, from, to, cc, bcc, subject, body_text } => EmailCommandView::Send {
                account: opt_view(*account),
                from: opt_view(*from),
                to: strings_view(to@),
                cc: strings_view(cc@),
                bcc: strings_view(bcc@),
                subject: subject@,
                body_text: body_text@,
            },
        }
    }
}

// ---------------------------------------------------------------------------
// Error envelopes
// ---------------------------------------------------------------------------

/// A rejected request: the command it named (if known), an error code and a
/// human-readable message.
pub struct Rejection {
    pub command: Option<Seq<char>>,
    pub code: Seq<char>,
    pub message: Seq<char>,
}

/// The structured error payload `{code, message, details: {}}`.
pub open spec fn structured_error_view(code: Seq<char>, message: Seq<char>) -> CborView {
    CborView::Dict(seq![
        (CborView::Text("code"@), CborView::Text(code)),
        (CborView::Text("message"@), CborView::Text(message)),
        (CborView::Text("details"@), CborView::Dict(Seq::empty())),
    ])
}

/// The error envelope `{ok: false, command, error}` returned for a rejection.
pub open spec fn envelope_view(r: Rejection) -> CborView {
    CborView::Dict(seq![
        (CborView::Text("ok"@), CborView::Bool(false)),
        (CborView::Text("command"@), match r.command {
            Some(c) => CborView::Text(c),
            None => CborView::Null,
        }),
        (CborView::Text("error"@), structured_error_view(r.code, r.message)),
    ])
}

pub open spec fn opt_str_view(o: Option<&str>) -> Option<Seq<char>> {
    match o {
        Some(s) => Some(s@),
        None => None,
    }
}

fn structured_error(code: &str, message: &str) -> (res: CborValue)
    ensures
        res@ == structured_error_view(code@, message@),
{
    let empty: Vec<(CborValue, CborValue)> = Vec::new();
    assert(view_entries(empty@) =~= Seq::empty());
    let details = CborValue::Dict(empty);
    assert(details@ == CborView::Dict(Seq::empty()));
    dict3("code", text(code), "message", text(message), "details", details)
}

/// Builds the error envelope for a rejected request.
pub fn error_envelope(command: Option<&str>, code: &str, message: &str) -> (res: CborValue)
    ensures
        res@ == envelope_view(Rejection { command: opt_str_view(command), code: code@, message: message@ }),
{
    let command_value = match command {
        Some(c) => text(c),
        None => CborValue::Null,
    };
    let ghost cv = command_value@;
    let res = dict3("ok", CborValue::Bool(false), "command", command_value, "error", structured_error(code, message));
    proof {
        let r = Rejection { command: opt_str_view(command), code: code@, message: message@ };
        assert(envelope_view(r)->Dict_0 =~= seq![
            (CborView::Text("ok"@), CborView::Bool(false)),
            (CborView::Text("command"@), cv),
            (CborView::Text("error"@), structured_error_view(code@, message@)),
        ]);
    }
    res
}

// ---------------------------------------------------------------------------
// Message texts
// ---------------------------------------------------------------------------

pub open spec fn ticked(name: Seq<char>) -> Seq<char> {
    seq!['`'] + name + seq!['`']
}

pub open spec fn msg_non_text_key() -> Seq<char> { "argument object keys must be strings"@ }
pub open spec fn msg_duplicate(name: Seq<char>) -> Seq<char> { "duplicate "@ + ticked(name) }
pub open spec fn msg_missing(name: Seq<char>) -> Seq<char> { "missing "@ + ticked(name) }
pub open spec fn msg_unexpected(name: Seq<char>) -> Seq<char> { "unexpected argument "@ + ticked(name) }
pub open spec fn msg_not_empty(name: Seq<char>) -> Seq<char> { ticked(name) + " must not be empty"@ }
pub open spec fn msg_string(name: Seq<char>) -> Seq<char> { ticked(name) + " must be a string"@ }
pub open spec fn msg_string_or_null(name: Seq<char>) -> Seq<char> { ticked(name) + " must be a string or null"@ }
pub open spec fn msg_positive(name: Seq<char>) -> Seq<char> { ticked(name) + " must be a positive integer"@ }
pub open spec fn msg_integer(name: Seq<char>) -> Seq<char> { ticked(name) + " must be an integer"@ }
pub open spec fn msg_array(name: Seq<char>) -> Seq<char> { ticked(name) + " must be an array"@ }
pub open spec fn msg_object(name: Seq<char>) -> Seq<char> { ticked(name) + " must be an object"@ }
pub open spec fn msg_entries_strings(name: Seq<char>) -> Seq<char> { ticked(name) + " entries must be strings"@ }
pub open spec fn msg_entries_not_empty(name: Seq<char>) -> Seq<char> { ticked(name) + " entries must not be empty"@ }

fn ticked_then(name: &str, suffix: &str) -> (res: String)
    ensures
        res@ == ticked(name@) + suffix@,
{
    let mut s = String::new();
    push_char(&mut s, '`');
    push_str(&mut s, name);
    push_char(&mut s, '`');
    push_str(&mut s, suffix);
    assert(s@ =~= ticked(name@) + suffix@);
    s
}

fn then_ticked(prefix: &str, name: &str) -> (res: String)
    ensures
        res@ == prefix@ + ticked(name@),
{
    let mut s = owned(prefix);
    push_char(&mut s, '`');
    push_str(&mut s, name);
    push_char(&mut s, '`');
    assert(s@ =~= prefix@ + ticked(name@));
    s
}

fn invalid(command: Option<&str>, message: String) -> (res: CborValue)
    ensures
        res@ == envelope_view(Rejection { command: opt_str_view(command), code: "invalid_arguments"@, message: message@ }),
{
    error_envelope(command, "invalid_arguments", message.as_str())
}

/// The envelope of an `invalid_arguments` rejection with `message`.
pub open spec fn invalid_view(command: Option<Seq<char>>, message: Seq<char>) -> CborView {
    envelope_view(Rejection { command, code: "invalid_arguments"@, message })
}

// ---------------------------------------------------------------------------
// Field access
// ---------------------------------------------------------------------------

/// Looks `name` up among the entries of an argument object, scanning in
/// order: a non-text key, or a second entry named `name`, rejects the object;
/// otherwise the value of the one entry named `name`, if any.
pub open spec fn field_spec(e: Seq<(CborView, CborView)>, name: Seq<char>) -> Result<Option<CborView>, Seq<char>>
    decreases e.len(),
{
    if e.len() == 0 {
        Ok(None)
    } else {
        match field_spec(e.drop_last(), name) {
            Err(m) => Err(m),
            Ok(found) => match e.last().0 {
                CborView::Text(k) => if k == name {
                    if found is Some { Err(msg_duplicate(name)) } else { Ok(Some(e.last().1)) }
                } else {
                    Ok(found)
                },
                _ => Err(msg_non_text_key()),
            },
        }
    }
}

/// Once the scan of a prefix has rejected the object, the rejection stands.
proof fn lemma_field_err_stands(e: Seq<(CborView, CborView)>, name: Seq<char>, k: int)
    requires
        0 <= k <= e.len(),
        field_spec(e.take(k), name) is Err,
    ensures
        field_spec(e, name) == field_spec(e.take(k), name),
    decreases e.len() - k,
{
    if k < e.len() {
        assert(e.take(k + 1).drop_last() =~= e.take(k));
        lemma_field_err_stands(e, name, k + 1);
    } else {
        assert(e.take(k) =~= e);
    }
}

/// The names that `seen` holds.
pub open spec fn names(seen: Seq<String>) -> Set<Seq<char>> {
    Set::new(|n: Seq<char>| exists|i: int| 0 <= i < seen.len() && #[trigger] seen[i]@ == n)
}

/// `seen` after a lookup of `name` whose outcome is `r`: the name is
/// recorded when the entry was present.
pub open spec fn seen_after(old_seen: Set<Seq<char>>, name: Seq<char>, r: Result<Option<CborView>, Seq<char>>) -> Set<Seq<char>> {
    if r matches Ok(Some(_)) { old_seen.insert(name) } else { old_seen }
}

pub open spec fn opt_value_view(o: Option<&CborValue>) -> Option<CborView> {
    match o {
        Some(v) => Some(v@),
        None => None,
    }
}

fn record_seen(seen: &mut Vec<String>, name: &str)
    ensures
        names(final(seen)@) == names(old(seen)@).insert(name@),
{
    let ghost before = seen@;
    seen.push(owned(name));
    assert(names(seen@) =~= names(before).insert(name@)) by {
        assert forall|n: Seq<char>| names(before).insert(name@).contains(n) implies names(seen@).contains(n) by {
            if n == name@ {
                assert(seen@[before.len() as int]@ == n);
            } else {
                let i = choose|i: int| 0 <= i < before.len() && #[trigger] before[i]@ == n;
                assert(seen@[i]@ == n);
            }
        }
        assert forall|n: Seq<char>| names(seen@).contains(n) implies names(before).insert(name@).contains(n) by {
            let i = choose|i: int| 0 <= i < seen@.len() && #[trigger] seen@[i]@ == n;
            if i < before.len() {
                assert(before[i]@ == n);
            }
        }
    }
}

/// Looks `name` up in an argument object and records it in `seen` when
/// present.
fn field<'a>(
    entries: &'a [(CborValue, CborValue)],
    seen: &mut Vec<String>,
    name: &str,
    command: Option<&str>,
) -> (res: Result<Option<&'a CborValue>, CborValue>)
    ensures
        match res {
            Ok(found) => field_spec(view_entries(entries@), name@) == Ok::<Option<CborView>, Seq<char>>(opt_value_view(found)),
            Err(e) => field_spec(view_entries(entries@), name@) matches Err(m) && e@ == invalid_view(opt_str_view(command), m),
        },
        names(final(seen)@) == seen_after(names(old(seen)@), name@, field_spec(view_entries(entries@), name@)),
{
    let mut found: Option<&'a CborValue> = None;
    let mut i: usize = 0;
    while i < entries.len()
        invariant
            i <= entries@.len(),
            field_spec(view_entries(entries@.take(i as int)), name@) == Ok::<Option<CborView>, Seq<char>>(opt_value_view(found)),
        decreases entries@.len() - i,
    {
        proof {
            lemma_view_entries_take(entries@, i as int);
            let pre = view_entries(entries@.take(i as int));
            assert(view_entries(entries@.take(i as int + 1)).drop_last() =~= pre);
        }
        match &entries[i].0 {
            CborValue::Text(key) => {
                if str_eq(key.as_str(), name) {
                    if found.is_some() {
                        proof {
                            let t = view_entries(entries@.take(i as int + 1));
                            assert(t.last() == (entries@[i as int].0.view_of(), entries@[i as int].1.view_of()));
                            assert(entries@[i as int].0.view_of() == CborView::Text(key@));
                            assert(field_spec(t, name@) == Err::<Option<CborView>, Seq<char>>(msg_duplicate(name@)));
                            lemma_view_entries_prefix(entries@, i as int + 1);
                            lemma_view_entries(entries@);
                            lemma_field_err_stands(view_entries(entries@), name@, i as int + 1);
                        }
                        return Err(invalid(command, then_ticked("duplicate ", name)));
                    }
                    found = Some(&entries[i].1);
                }
            },
            _ => {
                proof {
                    let t = view_entries(entries@.take(i as int + 1));
                    assert(t.last() == (entries@[i as int].0.view_of(), entries@[i as int].1.view_of()));
                    assert(!(entries@[i as int].0.view_of() is Text));
                    assert(field_spec(t, name@) == Err::<Option<CborView>, Seq<char>>(msg_non_text_key()));
                    lemma_view_entries_prefix(entries@, i as int + 1);
                    lemma_view_entries(entries@);
                    lemma_field_err_stands(view_entries(entries@), name@, i as int + 1);
                }
                return Err(invalid(command, owned("argument object keys must be strings")));
            },
        }
        i = i + 1;
    }
    proof {
        assert(entries@.take(entries@.len() as int) =~= entries@);
    }
    if found.is_some() {
        record_seen(seen, name);
    }
    Ok(found)
}

// ---------------------------------------------------------------------------
// Typed accessors
// ---------------------------------------------------------------------------

/// A required, non-blank text argument.
pub open spec fn required_string_spec(e: Seq<(CborView, CborView)>, name: Seq<char>) -> Result<Seq<char>, Seq<char>> {
    match field_spec(e, name) {
        Err(m) => Err(m),
        Ok(Some(CborView::Text(v))) => if !blank(v) { Ok(v) } else { Err(msg_not_empty(name)) },
        Ok(Some(_)) => Err(msg_string(name)),
        Ok(None) => Err(msg_missing(name)),
    }
}

/// A required text argument that may be empty.
pub open spec fn required_string_allow_empty_spec(e: Seq<(CborView, CborView)>, name: Seq<char>) -> Result<Seq<char>, Seq<char>> {
    match field_spec(e, name) {
        Err(m) => Err(m),
        Ok(Some(CborView::Text(v))) => Ok(v),
        Ok(Some(_)) => Err(msg_string(name)),
        Ok(None) => Err(msg_missing(name)),
    }
}

/// An optional, non-blank text argument.
pub open spec fn optional_string_spec(e: Seq<(CborView, CborView)>, name: Seq<char>) -> Result<Option<Seq<char>>, Seq<char>> {
    match field_spec(e, name) {
        Err(m) => Err(m),
        Ok(Some(CborView::Text(v))) => if !blank(v) { Ok(Some(v)) } else { Err(msg_not_empty(name)) },
        Ok(Some(_)) => Err(msg_string(name)),
        Ok(None) => Ok(None),
    }
}

/// An optional, non-blank text argument that may also be `null`.
pub open spec fn optional_nullable_string_spec(e: Seq<(CborView, CborView)>, name: Seq<char>) -> Result<Option<Seq<char>>, Seq<char>> {
    match field_spec(e, name) {
        Err(m) => Err(m),
        Ok(Some(CborView::Null)) => Ok(None),
        Ok(Some(CborView::Text(v))) => if !blank(v) { Ok(Some(v)) } else { Err(msg_not_empty(name)) },
        Ok(Some(_)) => Err(msg_string_or_null(name)),
        Ok(None) => Ok(None),
    }
}

/// A required integer argument in `1..=u32::MAX`.
pub open spec fn required_positive_u32_spec(e: Seq<(CborView, CborView)>, name: Seq<char>) -> Result<u32, Seq<char>> {
    match field_spec(e, name) {
        Err(m) => Err(m),
        Ok(Some(CborView::Integer(v))) => if 1 <= v <= u32::MAX { Ok(v as u32) } else { Err(msg_positive(name)) },
        Ok(Some(_)) => Err(msg_integer(name)),
        Ok(None) => Err(msg_missing(name)),
    }
}

/// An array of non-blank texts, scanned in order.
pub open spec fn string_items_spec(items: Seq<CborView>, name: Seq<char>) -> Result<Seq<Seq<char>>, Seq<char>>
    decreases items.len(),
{
    if items.len() == 0 {
        Ok(Seq::empty())
    } else {
        match string_items_spec(items.drop_last(), name) {
            Err(m) => Err(m),
            Ok(out) => match items.last() {
                CborView::Text(t) => if blank(t) { Err(msg_entries_not_empty(name)) } else { Ok(out.push(t)) },
                _ => Err(msg_entries_strings(name)),
            },
        }
    }
}

/// An array value holding non-blank texts; when `allow_empty` is false the
/// array must also be non-empty.
pub open spec fn string_array_value_spec(v: CborView, name: Seq<char>, allow_empty: bool) -> Result<Seq<Seq<char>>, Seq<char>> {
    match v {
        CborView::Array(items) => match string_items_spec(items, name) {
            Err(m) => Err(m),
            Ok(out) => if out.len() == 0 && !allow_empty { Err(msg_not_empty(name)) } else { Ok(out) },
        },
        _ => Err(msg_array(name)),
    }
}

/// A required, non-empty array of non-blank texts.
pub open spec fn required_string_array_spec(e: Seq<(CborView, CborView)>, name: Seq<char>) -> Result<Seq<Seq<char>>, Seq<char>> {
    match field_spec(e, name) {
        Err(m) => Err(m),
        Ok(Some(v)) => string_array_value_spec(v, name, false),
        Ok(None) => Err(msg_missing(name)),
    }
}

/// An optional array of non-blank texts; absent means empty.
pub open spec fn optional_string_array_spec(e: Seq<(CborView, CborView)>, name: Seq<char>) -> Result<Seq<Seq<char>>, Seq<char>> {
    match field_spec(e, name) {
        Err(m) => Err(m),
        Ok(Some(v)) => string_array_value_spec(v, name, true),
        Ok(None) => Ok(Seq::empty()),
    }
}

/// An optional array argument of any content.
pub open spec fn optional_array_spec(e: Seq<(CborView, CborView)>, name: Seq<char>) -> Result<(), Seq<char>> {
    match field_spec(e, name) {
        Err(m) => Err(m),
        Ok(Some(CborView::Array(_))) => Ok(()),
        Ok(Some(_)) => Err(msg_array(name)),
        Ok(None) => Ok(()),
    }
}

/// A required object argument; its entries.
pub open spec fn required_object_spec(e: Seq<(CborView, CborView)>, name: Seq<char>) -> Result<Seq<(CborView, CborView)>, Seq<char>> {
    match field_spec(e, name) {
        Err(m) => Err(m),
        Ok(Some(CborView::Dict(entries))) => Ok(entries),
        Ok(Some(_)) => Err(msg_object(name)),
        Ok(None) => Err(msg_missing(name)),
    }
}

/// Every key of the object is text and names an argument in `seen`; the
/// first entry (in order) that breaks this rejects the object.
pub open spec fn reject_extra_spec(e: Seq<(CborView, CborView)>, seen: Set<Seq<char>>) -> Result<(), Seq<char>>
    decreases e.len(),
{
    if e.len() == 0 {
        Ok(())
    } else {
        match reject_extra_spec(e.drop_last(), seen) {
            Err(m) => Err(m),
            Ok(()) => match e.last().0 {
                CborView::Text(k) => if seen.contains(k) { Ok(()) } else { Err(msg_unexpected(k)) },
                _ => Err(msg_non_text_key()),
            },
        }
    }
}

fn required_string(
    entries: &[(CborValue, CborValue)],
    seen: &mut Vec<String>,
    name: &str,
    command: Option<&str>,
) -> (res: Result<String, CborValue>)
    ensures
        match res {
            Ok(v) => required_string_spec(view_entries(entries@), name@) == Ok::<Seq<char>, Seq<char>>(v@),
            Err(e) => required_string_spec(view_entries(entries@), name@) matches Err(m) && e@ == invalid_view(opt_str_view(command), m),
        },
        names(final(seen)@) == seen_after(names(old(seen)@), name@, field_spec(view_entries(entries@), name@)),
{
    match field(entries, seen, name, command)? {
        Some(CborValue::Text(value)) => {
            if !is_blank(value.as_str()) {
                Ok(value.clone())
            } else {
                Err(invalid(command, ticked_then(name, " must not be empty")))
            }
        },
        Some(_) => Err(invalid(command, ticked_then(name, " must be a string"))),
        None => Err(invalid(command, then_ticked("missing ", name))),
    }
}

fn required_string_allow_empty(
    entries: &[(CborValue, CborValue)],
    seen: &mut Vec<String>,
    name: &str,
    command: Option<&str>,
) -> (res: Result<String, CborValue>)
    ensures
        match res {
            Ok(v) => required_string_allow_empty_spec(view_entries(entries@), name@) == Ok::<Seq<char>, Seq<char>>(v@),
            Err(e) => required_string_allow_empty_spec(view_entries(entries@), name@) matches Err(m) && e@ == invalid_view(opt_str_view(command), m),
        },
        names(final(seen)@) == seen_after(names(old(seen)@), name@, field_spec(view_entries(entries@), name@)),
{
    match field(entries, seen, name, command)? {
        Some(CborValue::Text(value)) => Ok(value.clone()),
        Some(_) => Err(invalid(command, ticked_then(name, " must be a string"))),
        None => Err(invalid(command, then_ticked("missing ", name))),
    }
}

fn optional_string(
    entries: &[(CborValue, CborValue)],
    seen: &mut Vec<String>,
    name: &str,
    command: Option<&str>,
) -> (res: Result<Option<String>, CborValue>)
    ensures
        match res {
            Ok(v) => optional_string_spec(view_entries(entries@), name@) == Ok::<Option<Seq<char>>, Seq<char>>(opt_view(v)),
            Err(e) => optional_string_spec(view_entries(entries@), name@) matches Err(m) && e@ == invalid_view(opt_str_view(command), m),
        },
        names(final(seen)@) == seen_after(names(old(seen)@), name@, field_spec(view_entries(entries@), name@)),
{
    match field(entries, seen, name, command)? {
        Some(CborValue::Text(value)) => {
            if !is_blank(value.as_str()) {
                Ok(Some(value.clone()))
            } else {
                Err(invalid(command, ticked_then(name, " must not be empty")))
            }
        },
        Some(_) => Err(invalid(command, ticked_then(name, " must be a string"))),
        None => Ok(None),
    }
}

fn optional_nullable_string(
    entries: &[(CborValue, CborValue)],
    seen: &mut Vec<String>,
    name: &str,
    command: Option<&str>,
) -> (res: Result<Option<String>, CborValue>)
    ensures
        match res {
            Ok(v) => optional_nullable_string_spec(view_entries(entries@), name@) == Ok::<Option<Seq<char>>, Seq<char>>(opt_view(v)),
            Err(e) => optional_nullable_string_spec(view_entries(entries@), name@) matches Err(m) && e@ == invalid_view(opt_str_view(command), m),
        },
        names(final(seen)@) == seen_after(names(old(seen)@), name@, field_spec(view_entries(entries@), name@)),
{
    match field(entries, seen, name, command)? {
        Some(CborValue::Null) | None => Ok(None),
        Some(CborValue::Text(value)) => {
            if !is_blank(value.as_str()) {
                Ok(Some(value.clone()))
            } else {
                Err(invalid(command, ticked_then(name, " must not be empty")))
            }
        },
        Some(_) => Err(invalid(command, ticked_then(name, " must be a string or null"))),
    }
}

fn required_positive_u32(
    entries: &[(CborValue, CborValue)],
    seen: &mut Vec<String>,
    name: &str,
    command: Option<&str>,
) -> (res: Result<u32, CborValue>)
    ensures
        match res {
            Ok(v) => required_positive_u32_spec(view_entries(entries@), name@) == Ok::<u32, Seq<char>>(v),
            Err(e) => required_positive_u32_spec(view_entries(entries@), name@) matches Err(m) && e@ == invalid_view(opt_str_view(command), m),
        },
        names(final(seen)@) == seen_after(names(old(seen)@), name@, field_spec(view_entries(entries@), name@)),
{
    match field(entries, seen, name, command)? {
        Some(CborValue::Integer(value)) => {
            let raw: i128 = *value;
            if raw < 1 || 4294967295i128 < raw {
                return Err(invalid(command, ticked_then(name, " must be a positive integer")));
            }
            Ok(raw as u32)
        },
        Some(_) => Err(invalid(command, ticked_then(name, " must be an integer"))),
        None => Err(invalid(command, then_ticked("missing ", name))),
    }
}

fn string_array_value(
    value: &CborValue,
    name: &str,
    command: Option<&str>,
    allow_empty: bool,
) -> (res: Result<Vec<String>, CborValue>)
    ensures
        match res {
            Ok(v) => string_array_value_spec(value@, name@, allow_empty) == Ok::<Seq<Seq<char>>, Seq<char>>(strings_view(v@)),
            Err(e) => string_array_value_spec(value@, name@, allow_empty) matches Err(m) && e@ == invalid_view(opt_str_view(command), m),
        },
{
    let values = match value {
        CborValue::Array(values) => values,
        _ => {
            return Err(invalid(command, ticked_then(name, " must be an array")));
        },
    };
    let mut out: Vec<String> = Vec::new();
    let mut i: usize = 0;
    proof {
        assert(values@.take(0) =~= Seq::<CborValue>::empty());
        assert(strings_view(out@) =~= Seq::<Seq<char>>::empty());
        assert(value@ == CborView::Array(view_items(values@)));
    }
    while i < values.len()
        invariant
            i <= values@.len(),
            value@ == CborView::Array(view_items(values@)),
            string_items_spec(view_items(values@.take(i as int)), name@) == Ok::<Seq<Seq<char>>, Seq<char>>(strings_view(out@)),
        decreases values@.len() - i,
    {
        proof {
            lemma_view_items_take(values@, i as int);
            assert(view_items(values@.take(i as int + 1)).drop_last() =~= view_items(values@.take(i as int)));
            lemma_view_items_prefix(values@, i as int + 1);
            lemma_view_items(values@);
        }
        match &values[i] {
            CborValue::Text(t) => {
                if is_blank(t.as_str()) {
                    proof {
                        lemma_string_items_err_stands(view_items(values@), name@, i as int + 1);
                    }
                    return Err(invalid(command, ticked_then(name, " entries must not be empty")));
                }
                let ghost before = out@;
                out.push(t.clone());
                assert(strings_view(out@) =~= strings_view(before).push(t@));
            },
            _ => {
                proof {
                    lemma_string_items_err_stands(view_items(values@), name@, i as int + 1);
                }
                return Err(invalid(command, ticked_then(name, " entries must be strings")));
            },
        }
        i = i + 1;
    }
    proof {
        assert(values@.take(values@.len() as int) =~= values@);
        assert(string_items_spec(view_items(values@), name@) == Ok::<Seq<Seq<char>>, Seq<char>>(strings_view(out@)));
        assert(value@ == CborView::Array(view_items(values@)));
        assert(string_array_value_spec(value@, name@, allow_empty) == (if out@.len() == 0 && !allow_empty { Err::<Seq<Seq<char>>, Seq<char>>(msg_not_empty(name@)) } else { Ok(strings_view(out@)) }));
    }
    if out.len() == 0 && !allow_empty {
        return Err(invalid(command, ticked_then(name, " must not be empty")));
    }
    Ok(out)
}

/// Once a prefix of the array has been rejected, the rejection stands.
proof fn lemma_string_items_err_stands(items: Seq<CborView>, name: Seq<char>, k: int)
    requires
        0 <= k <= items.len(),
        string_items_spec(items.take(k), name) is Err,
    ensures
        string_items_spec(items, name) == string_items_spec(items.take(k), name),
    decreases items.len() - k,
{
    if k < items.len() {
        assert(items.take(k + 1).drop_last() =~= items.take(k));
        lemma_string_items_err_stands(items, name, k + 1);
    } else {
        assert(items.take(k) =~= items);
    }
}

fn required_string_array(
    entries: &[(CborValue, CborValue)],
    seen: &mut Vec<String>,
    name: &str,
    command: Option<&str>,
) -> (res: Result<Vec<String>, CborValue>)
    ensures
        match res {
            Ok(v) => required_string_array_spec(view_entries(entries@), name@) == Ok::<Seq<Seq<char>>, Seq<char>>(strings_view(v@)),
            Err(e) => required_string_array_spec(view_entries(entries@), name@) matches Err(m) && e@ == invalid_view(opt_str_view(command), m),
        },
        names(final(seen)@) == seen_after(names(old(seen)@), name@, field_spec(view_entries(entries@), name@)),
{
    match field(entries, seen, name, command)? {
        Some(value) => string_array_value(value, name, command, false),
        None => Err(invalid(command, then_ticked("missing ", name))),
    }
}

fn optional_string_array(
    entries: &[(CborValue, CborValue)],
    seen: &mut Vec<String>,
    name: &str,
    command: Option<&str>,
) -> (res: Result<Vec<String>, CborValue>)
    ensures
        match res {
            Ok(v) => optional_string_array_spec(view_entries(entries@), name@) == Ok::<Seq<Seq<char>>, Seq<char>>(strings_view(v@)),
            Err(e) => optional_string_array_spec(view_entries(entries@), name@) matches Err(m) && e@ == invalid_view(opt_str_view(command), m),
        },
        names(final(seen)@) == seen_after(names(old(seen)@), name@, field_spec(view_entries(entries@), name@)),
{
    match field(entries, seen, name, command)? {
        Some(value) => string_array_value(value, name, command, true),
        None => {
            let out: Vec<String> = Vec::new();
            assert(strings_view(out@) =~= Seq::empty());
            Ok(out)
        },
    }
}

fn optional_array(
    entries: &[(CborValue, CborValue)],
    seen: &mut Vec<String>,
    name: &str,
    command: Option<&str>,
) -> (res: Result<(), CborValue>)
    ensures
        match res {
            Ok(_) => optional_array_spec(view_entries(entries@), name@) is Ok,
            Err(e) => optional_array_spec(view_entries(entries@), name@) matches Err(m) && e@ == invalid_view(opt_str_view(command), m),
        },
        names(final(seen)@) == seen_after(names(old(seen)@), name@, field_spec(view_entries(entries@), name@)),
{
    match field(entries, seen, name, command)? {
        Some(CborValue::Array(_)) | None => Ok(()),
        Some(_) => Err(invalid(command, ticked_then(name, " must be an array"))),
    }
}

fn required_object<'a>(
    entries: &'a [(CborValue, CborValue)],
    seen: &mut Vec<String>,
    name: &str,
    command: Option<&str>,
) -> (res: Result<&'a [(CborValue, CborValue)], CborValue>)
    ensures
        match res {
            Ok(v) => required_object_spec(view_entries(entries@), name@) == Ok::<Seq<(CborView, CborView)>, Seq<char>>(view_entries(v@)),
            Err(e) => required_object_spec(view_entries(entries@), name@) matches Err(m) && e@ == invalid_view(opt_str_view(command), m),
        },
        names(final(seen)@) == seen_after(names(old(seen)@), name@, field_spec(view_entries(entries@), name@)),
{
    match field(entries, seen, name, command)? {
        Some(CborValue::Dict(values)) => Ok(values.as_slice()),
        Some(_) => Err(invalid(command, ticked_then(name, " must be an object"))),
        None => Err(invalid(command, then_ticked("missing ", name))),
    }
}

/// Whether `name` is among the recorded names.
fn seen_contains(seen: &Vec<String>, name: &str) -> (res: bool)
    ensures
        res == names(seen@).contains(name@),
{
    let mut i: usize = 0;
    while i < seen.len()
        invariant
            i <= seen@.len(),
            forall|j: int| 0 <= j < i ==> #[trigger] seen@[j]@ != name@,
        decreases seen@.len() - i,
    {
        if str_eq(seen[i].as_str(), name) {
            assert(seen@[i as int]@ == name@);
            return true;
        }
        i = i + 1;
    }
    assert(!names(seen@).contains(name@)) by {
        if names(seen@).contains(name@) {
            let j = choose|j: int| 0 <= j < seen@.len() && #[trigger] seen@[j]@ == name@;
            assert(seen@[j]@ != name@);
        }
    }
    false
}

/// Once a prefix of the object has been rejected, the rejection stands.
proof fn lemma_reject_extra_err_stands(e: Seq<(CborView, CborView)>, seen: Set<Seq<char>>, k: int)
    requires
        0 <= k <= e.len(),
        reject_extra_spec(e.take(k), seen) is Err,
    ensures
        reject_extra_spec(e, seen) == reject_extra_spec(e.take(k), seen),
    decreases e.len() - k,
{
    if k < e.len() {
        assert(e.take(k + 1).drop_last() =~= e.take(k));
        lemma_reject_extra_err_stands(e, seen, k + 1);
    } else {
        assert(e.take(k) =~= e);
    }
}

fn reject_extra(
    entries: &[(CborValue, CborValue)],
    seen: &Vec<String>,
    command: Option<&str>,
) -> (res: Result<(), CborValue>)
    ensures
        match res {
            Ok(_) => reject_extra_spec(view_entries(entries@), names(seen@)) is Ok,
            Err(e) => reject_extra_spec(view_entries(entries@), names(seen@)) matches Err(m) && e@ == invalid_view(opt_str_view(command), m),
        },
{
    let mut i: usize = 0;
    while i < entries.len()
        invariant
            i <= entries@.len(),
            reject_extra_spec(view_entries(entries@.take(i as int)), names(seen@)) is Ok,
        decreases entries@.len() - i,
    {
        proof {
            lemma_view_entries_take(entries@, i as int);
            assert(view_entries(entries@.take(i as int + 1)).drop_last() =~= view_entries(entries@.take(i as int)));
            lemma_view_entries_prefix(entries@, i as int + 1);
            lemma_view_entries(entries@);
        }
        match &entries[i].0 {
            CborValue::Text(key) => {
                if !seen_contains(seen, key.as_str()) {
                    proof {
                        lemma_reject_extra_err_stands(view_entries(entries@), names(seen@), i as int + 1);
                    }
                    return Err(invalid(command, then_ticked("unexpected argument ", key.as_str())));
                }
            },
            _ => {
                proof {
                    lemma_reject_extra_err_stands(view_entries(entries@), names(seen@), i as int + 1);
                }
                return Err(invalid(command, owned("argument object keys must be strings")));
            },
        }
        i = i + 1;
    }
    proof {
        assert(entries@.take(entries@.len() as int) =~= entries@);
    }
    Ok(())
}

// ---------------------------------------------------------------------------
// Commands
// ---------------------------------------------------------------------------

pub open spec fn seen1(e: Seq<(CborView, CborView)>, n0: Seq<char>) -> Set<Seq<char>> {
    seen_after(Set::empty(), n0, field_spec(e, n0))
}

pub open spec fn seen_more(s: Set<Seq<char>>, e: Seq<(CborView, CborView)>, n: Seq<char>) -> Set<Seq<char>> {
    seen_after(s, n, field_spec(e, n))
}

/// `list_accounts` takes no arguments.
pub open spec fn parse_list_accounts_spec(args: Seq<(CborView, CborView)>) -> Result<EmailCommandView, Seq<char>> {
    match reject_extra_spec(args, Set::empty()) {
        Err(m) => Err(m),
        Ok(_) => Ok(EmailCommandView::ListAccounts),
    }
}

/// `list_folders` takes a required `account`.
pub open spec fn parse_list_folders_spec(args: Seq<(CborView, CborView)>) -> Result<EmailCommandView, Seq<char>> {
    match required_string_spec(args, "account"@) {
        Err(m) => Err(m),
        Ok(account) => match reject_extra_spec(args, seen1(args, "account"@)) {
            Err(m) => Err(m),
            Ok(_) => Ok(EmailCommandView::ListFolders { account }),
        },
    }
}

/// `list` takes `account`, `folder`, a positive `limit` and an optional `cursor`.
pub open spec fn parse_list_spec(args: Seq<(CborView, CborView)>) -> Result<EmailCommandView, Seq<char>> {
    match required_string_spec(args, "account"@) {
        Err(m) => Err(m),
        Ok(account) => match required_string_spec(args, "folder"@) {
            Err(m) => Err(m),
            Ok(folder) => match required_positive_u32_spec(args, "limit"@) {
                Err(m) => Err(m),
                Ok(limit) => match optional_string_spec(args, "cursor"@) {
                    Err(m) => Err(m),
                    Ok(cursor) => match reject_extra_spec(
                        args,
                        seen_more(seen_more(seen_more(seen1(args, "account"@), args, "folder"@), args, "limit"@), args, "cursor"@),
                    ) {
                        Err(m) => Err(m),
                        Ok(_) => Ok(EmailCommandView::List { account, folder, limit, cursor }),
                    },
                },
            },
        },
    }
}

/// `read` takes `account`, `folder` and `uid`.
pub open spec fn parse_read_spec(args: Seq<(CborView, CborView)>) -> Result<EmailCommandView, Seq<char>> {
    match required_string_spec(args, "account"@) {
        Err(m) => Err(m),
        Ok(account) => match required_string_spec(args, "folder"@) {
            Err(m) => Err(m),
            Ok(folder) => match required_string_spec(args, "uid"@) {
                Err(m) => Err(m),
                Ok(uid) => match reject_extra_spec(
                    args,
                    seen_more(seen_more(seen1(args, "account"@), args, "folder"@), args, "uid"@),
                ) {
                    Err(m) => Err(m),
                    Ok(_) => Ok(EmailCommandView::Read { account, folder, uid }),
                },
            },
        },
    }
}

/// The names `send` accepts, as recorded while parsing them.
pub open spec fn send_seen(args: Seq<(CborView, CborView)>) -> Set<Seq<char>> {
    seen_more(seen_more(seen_more(seen_more(seen_more(seen_more(seen_more(seen_more(seen_more(seen_more(
        Set::empty(), args, "account"@), args, "from"@), args, "to"@), args, "cc"@), args, "bcc"@),
        args, "subject"@), args, "body_text"@), args, "reply_to"@), args, "in_reply_to"@), args, "attachments"@)
}

/// `send` takes optional `account`/`from`, required `to`, optional `cc`/`bcc`,
/// `subject` and `body_text` (which may be empty), optional nullable
/// `reply_to`/`in_reply_to` and an optional `attachments` array.
pub open spec fn parse_send_spec(args: Seq<(CborView, CborView)>) -> Result<EmailCommandView, Seq<char>> {
    match optional_string_spec(args, "account"@) {
        Err(m) => Err(m),
        Ok(account) => match optional_string_spec(args, "from"@) {
            Err(m) => Err(m),
            Ok(from) => match required_string_array_spec(args, "to"@) {
                Err(m) => Err(m),
                Ok(to) => match optional_string_array_spec(args, "cc"@) {
                    Err(m) => Err(m),
                    Ok(cc) => match optional_string_array_spec(args, "bcc"@) {
                        Err(m) => Err(m),
                        Ok(bcc) => match required_string_allow_empty_spec(args, "subject"@) {
                            Err(m) => Err(m),
                            Ok(subject) => match required_string_allow_empty_spec(args, "body_text"@) {
                                Err(m) => Err(m),
                                Ok(body_text) => match optional_nullable_string_spec(args, "reply_to"@) {
                                    Err(m) => Err(m),
                                    Ok(_) => match optional_nullable_string_spec(args, "in_reply_to"@) {
                                        Err(m) => Err(m),
                                        Ok(_) => match optional_array_spec(args, "attachments"@) {
                                            Err(m) => Err(m),
                                            Ok(_) => match reject_extra_spec(args, send_seen(args)) {
                                                Err(m) => Err(m),
                                                Ok(_) => Ok(EmailCommandView::Send { account, from, to, cc, bcc, subject, body_text }),
                                            },
                                        },
                                    },
                                },
                            },
                        },
                    },
                },
            },
        },
    }
}

/// The strings argument `name` holds in `args`: none when the argument is
/// absent, else the texts of the array it holds, in order.
pub open spec fn argument_strings(args: Seq<(CborView, CborView)>, name: Seq<char>, list: Seq<Seq<char>>) -> bool {
    ||| list.len() == 0 && forall|k: int| 0 <= k < args.len() ==> (#[trigger] args[k]).0 != CborView::Text(name)
    ||| exists|k: int|
        0 <= k < args.len() && (#[trigger] args[k]).0 == CborView::Text(name)
            && (args[k].1 matches CborView::Array(items) && items.len() == list.len()
                && forall|i: int| 0 <= i < items.len() ==> items[i] == CborView::Text(list[i]))
}

/// A field found by name is an entry with that key; a field not found
/// has no entry with that key.
proof fn lemma_field_located(e: Seq<(CborView, CborView)>, name: Seq<char>)
    ensures
        field_spec(e, name) matches Ok(Some(v)) ==> exists|k: int| 0 <= k < e.len() && #[trigger] e[k] == (CborView::Text(name), v),
        field_spec(e, name) matches Ok(None) ==> forall|k: int| 0 <= k < e.len() ==> (#[trigger] e[k]).0 != CborView::Text(name),
    decreases e.len(),
{
    if e.len() > 0 {
        let p = e.drop_last();
        lemma_field_located(p, name);
        assert forall|k: int| 0 <= k < p.len() implies #[trigger] p[k] == e[k] by {}
        match field_spec(e, name) {
            Ok(Some(v)) => {
                match field_spec(p, name) {
                    Ok(Some(w)) => {
                        if e.last().0 != CborView::Text(name) {
                            let k = choose|k: int| 0 <= k < p.len() && #[trigger] p[k] == (CborView::Text(name), w);
                            assert(e[k] == p[k]);
                        }
                    },
                    _ => {
                        assert(e[e.len() - 1] == e.last());
                    },
                }
            },
            _ => {},
        }
        if field_spec(e, name) matches Ok(None) {
            assert forall|k: int| 0 <= k < e.len() implies (#[trigger] e[k]).0 != CborView::Text(name) by {
                if k < p.len() {
                    assert(p[k] == e[k]);
                }
            }
        }
    }
}

/// Parsed array entries are the texts of the array, in order.
proof fn lemma_string_items_texts(items: Seq<CborView>, name: Seq<char>)
    ensures
        string_items_spec(items, name) matches Ok(out) ==> out.len() == items.len()
            && forall|i: int| 0 <= i < items.len() ==> items[i] == CborView::Text(out[i]),
    decreases items.len(),
{
    if items.len() > 0 {
        lemma_string_items_texts(items.drop_last(), name);
        match string_items_spec(items, name) {
            Ok(out) => {
                let p = items.drop_last();
                assert forall|i: int| 0 <= i < items.len() implies items[i] == CborView::Text(out[i]) by {
                    if i < p.len() {
                        assert(p[i] == items[i]);
                    }
                }
            },
            Err(_) => {},
        }
    }
}

/// A parsed string-array argument holds the strings of that argument.
proof fn lemma_string_array_argument(args: Seq<(CborView, CborView)>, name: Seq<char>)
    ensures
        optional_string_array_spec(args, name) matches Ok(list) ==> argument_strings(args, name, list),
        required_string_array_spec(args, name) matches Ok(list) ==> argument_strings(args, name, list),
{
    lemma_field_located(args, name);
    match field_spec(args, name) {
        Ok(Some(v)) => match v {
            CborView::Array(items) => {
                lemma_string_items_texts(items, name);
                let k = choose|k: int| 0 <= k < args.len() && #[trigger] args[k] == (CborView::Text(name), v);
                assert(args[k] == (CborView::Text(name), CborView::Array(items)));
            },
            _ => {},
        },
        _ => {},
    }
}

/// A parsed `send` sends to the strings of its own arguments: `to` holds
/// the strings of the `to` argument, `cc` those of `cc` and `bcc` those of
/// `bcc` (empty when absent), each in the order given.
pub proof fn law_send_recipients_come_from_their_arguments(args: Seq<(CborView, CborView)>)
    requires
        parse_send_spec(args) is Ok,
    ensures
        parse_send_spec(args) matches Ok(EmailCommandView::Send { to, cc, bcc, .. })
            && argument_strings(args, "to"@, to)
            && argument_strings(args, "cc"@, cc)
            && argument_strings(args, "bcc"@, bcc),
{
    lemma_string_array_argument(args, "to"@);
    lemma_string_array_argument(args, "cc"@);
    lemma_string_array_argument(args, "bcc"@);
}

/// Attaches the command name and the `invalid_arguments` code to a helper's
/// rejection message.
pub open spec fn with_command(r: Result<EmailCommandView, Seq<char>>, command: Seq<char>) -> Result<EmailCommandView, Rejection> {
    match r {
        Ok(c) => Ok(c),
        Err(m) => Err(Rejection { command: Some(command), code: "invalid_arguments"@, message: m }),
    }
}

/// The `{command, args}` envelope: `command` a non-blank text, `args` an
/// object, nothing else.
pub open spec fn parse_command_envelope_spec(arguments: CborView) -> Result<(Seq<char>, Seq<(CborView, CborView)>), Rejection> {
    match arguments {
        CborView::Dict(e) => match required_string_spec(e, "command"@) {
            Err(m) => Err(Rejection { command: None, code: "invalid_arguments"@, message: m }),
            Ok(c) => match required_object_spec(e, "args"@) {
                Err(m) => Err(Rejection { command: Some(c), code: "invalid_arguments"@, message: m }),
                Ok(a) => match reject_extra_spec(e, seen_more(seen1(e, "command"@), e, "args"@)) {
                    Err(m) => Err(Rejection { command: Some(c), code: "invalid_arguments"@, message: m }),
                    Ok(_) => Ok((c, a)),
                },
            },
        },
        _ => Err(Rejection { command: None, code: "invalid_arguments"@, message: "arguments must be an object"@ }),
    }
}

/// The outcome of parsing tool arguments into an email command.
pub open spec fn parse_command_spec(arguments: CborView) -> Result<EmailCommandView, Rejection> {
    match parse_command_envelope_spec(arguments) {
        Err(r) => Err(r),
        Ok((c, a)) => if c == "list_accounts"@ {
            with_command(parse_list_accounts_spec(a), c)
        } else if c == "list_folders"@ {
            with_command(parse_list_folders_spec(a), c)
        } else if c == "list"@ {
            with_command(parse_list_spec(a), c)
        } else if c == "read"@ {
            with_command(parse_read_spec(a), c)
        } else if c == "send"@ {
            with_command(parse_send_spec(a), c)
        } else {
            Err(Rejection { command: Some(c), code: "unknown_command"@, message: "unsupported email command"@ })
        },
    }
}

/// A `send` parsed from tool arguments sends to the strings of the `to`,
/// `cc` and `bcc` entries of its `args` object, each in the order given
/// and empty when absent: copies are not blind and blind copies are not
/// shown.
pub proof fn law_parsed_send_recipients(arguments: CborView)
    requires
        parse_command_spec(arguments) matches Ok(EmailCommandView::Send { .. }),
    ensures
        parse_command_spec(arguments) matches Ok(EmailCommandView::Send { to, cc, bcc, .. })
            && (arguments matches CborView::Dict(e)
            && exists|k: int| 0 <= k < e.len() && (#[trigger] e[k]).0 == CborView::Text("args"@)
                && (e[k].1 matches CborView::Dict(a)
                    && argument_strings(a, "to"@, to)
                    && argument_strings(a, "cc"@, cc)
                    && argument_strings(a, "bcc"@, bcc))),
{
    match arguments {
        CborView::Dict(e) => {
            match parse_command_envelope_spec(arguments) {
                Ok((c, a)) => {
                    assert(c == "send"@);
                    law_send_recipients_come_from_their_arguments(a);
                    lemma_field_located(e, "args"@);
                    let k = choose|k: int| 0 <= k < e.len() && #[trigger] e[k] == (CborView::Text("args"@), CborView::Dict(a));
                    assert(e[k].0 == CborView::Text("args"@));
                },
                Err(_) => {},
            }
        },
        _ => {},
    }
}

fn parse_list_accounts(command: &str, args: &[(CborValue, CborValue)]) -> (res: Result<EmailCommand, CborValue>)
    ensures
        match res {
            Ok(c) => parse_list_accounts_spec(view_entries(args@)) == Ok::<EmailCommandView, Seq<char>>(c@),
            Err(e) => parse_list_accounts_spec(view_entries(args@)) matches Err(m) && e@ == invalid_view(Some(command@), m),
        },
{
    let seen: Vec<String> = Vec::new();
    assert(names(seen@) =~= Set::empty());
    reject_extra(args, &seen, Some(command))?;
    Ok(EmailCommand::ListAccounts)
}

fn parse_list_folders(command: &str, args: &[(CborValue, CborValue)]) -> (res: Result<EmailCommand, CborValue>)
    ensures
        match res {
            Ok(c) => parse_list_folders_spec(view_entries(args@)) == Ok::<EmailCommandView, Seq<char>>(c@),
            Err(e) => parse_list_folders_spec(view_entries(args@)) matches Err(m) && e@ == invalid_view(Some(command@), m),
        },
{
    let mut seen: Vec<String> = Vec::new();
    assert(names(seen@) =~= Set::empty());
    let account = required_string(args, &mut seen, "account", Some(command))?;
    reject_extra(args, &seen, Some(command))?;
    Ok(EmailCommand::ListFolders { account })
}

fn parse_list(command: &str, args: &[(CborValue, CborValue)]) -> (res: Result<EmailCommand, CborValue>)
    ensures
        match res {
            Ok(c) => parse_list_spec(view_entries(args@)) == Ok::<EmailCommandView, Seq<char>>(c@),
            Err(e) => parse_list_spec(view_entries(args@)) matches Err(m) && e@ == invalid_view(Some(command@), m),
        },
{
    let mut seen: Vec<String> = Vec::new();
    assert(names(seen@) =~= Set::empty());
    let account = required_string(args, &mut seen, "account", Some(command))?;
    let folder = required_string(args, &mut seen, "folder", Some(command))?;
    let limit = required_positive_u32(args, &mut seen, "limit", Some(command))?;
    let cursor = optional_string(args, &mut seen, "cursor", Some(command))?;
    reject_extra(args, &seen, Some(command))?;
    Ok(EmailCommand::List { account, folder, limit, cursor })
}

fn parse_read(command: &str, args: &[(CborValue, CborValue)]) -> (res: Result<EmailCommand, CborValue>)
    ensures
        match res {
            Ok(c) => parse_read_spec(view_entries(args@)) == Ok::<EmailCommandView, Seq<char>>(c@),
            Err(e) => parse_read_spec(view_entries(args@)) matches Err(m) && e@ == invalid_view(Some(command@), m),
        },
{
    let mut seen: Vec<String> = Vec::new();
    assert(names(seen@) =~= Set::empty());
    let account = required_string(args, &mut seen, "account", Some(command))?;
    let folder = required_string(args, &mut seen, "folder", Some(command))?;
    let uid = required_string(args, &mut seen, "uid", Some(command))?;
    reject_extra(args, &seen, Some(command))?;
    Ok(EmailCommand::Read { account, folder, uid })
}

fn parse_send(command: &str, args: &[(CborValue, CborValue)]) -> (res: Result<EmailCommand, CborValue>)
    ensures
        match res {
            Ok(c) => parse_send_spec(view_entries(args@)) == Ok::<EmailCommandView, Seq<char>>(c@),
            Err(e) => parse_send_spec(view_entries(args@)) matches Err(m) && e@ == invalid_view(Some(command@), m),
        },
{
    let mut seen: Vec<String> = Vec::new();
    assert(names(seen@) =~= Set::empty());
    let account = optional_string(args, &mut seen, "account", Some(command))?;
    let from = optional_string(args, &mut seen, "from", Some(command))?;
    let to = required_string_array(args, &mut seen, "to", Some(command))?;
    let cc = optional_string_array(args, &mut seen, "cc", Some(command))?;
    let bcc = optional_string_array(args, &mut seen, "bcc", Some(command))?;
    let subject = required_string_allow_empty(args, &mut seen, "subject", Some(command))?;
    let body_text = required_string_allow_empty(args, &mut seen, "body_text", Some(command))?;
    let _reply_to = optional_nullable_string(args, &mut seen, "reply_to", Some(command))?;
    let _in_reply_to = optional_nullable_string(args, &mut seen, "in_reply_to", Some(command))?;
    optional_array(args, &mut seen, "attachments", Some(command))?;
    reject_extra(args, &seen, Some(command))?;
    Ok(EmailCommand::Send { account, from, to, cc, bcc, subject, body_text })
}

/// Splits tool arguments into the command name and its argument object.
fn parse_command_envelope(arguments: &CborValue) -> (res: Result<(String, &[(CborValue, CborValue)]), CborValue>)
    ensures
        match res {
            Ok((c, a)) => parse_command_envelope_spec(arguments@) == Ok::<(Seq<char>, Seq<(CborView, CborView)>), Rejection>((c@, view_entries(a@))),
            Err(e) => parse_command_envelope_spec(arguments@) matches Err(r) && e@ == envelope_view(r),
        },
{
    let entries = match arguments {
        CborValue::Dict(entries) => entries.as_slice(),
        _ => {
            return Err(error_envelope(None, "invalid_arguments", "arguments must be an object"));
        },
    };
    let mut seen: Vec<String> = Vec::new();
    assert(names(seen@) =~= Set::empty());
    let command = required_string(entries, &mut seen, "command", None)?;
    let args = required_object(entries, &mut seen, "args", Some(command.as_str()))?;
    reject_extra(entries, &seen, Some(command.as_str()))?;
    Ok((command, args))
}

/// Parses `email` tool arguments `{command, args}` into a command, or the
/// structured error envelope that rejects them.
pub fn parse_command(arguments: &CborValue) -> (res: Result<EmailCommand, CborValue>)
    ensures
        match res {
            Ok(c) => parse_command_spec(arguments@) == Ok::<EmailCommandView, Rejection>(c@),
            Err(e) => parse_command_spec(arguments@) matches Err(r) && e@ == envelope_view(r),
        },
{
    let (command, args) = parse_command_envelope(arguments)?;
    let c = command.as_str();
    if str_eq(c, "list_accounts") {
        parse_list_accounts(c, args)
    } else if str_eq(c, "list_folders") {
        parse_list_folders(c, args)
    } else if str_eq(c, "list") {
        parse_list(c, args)
    } else if str_eq(c, "read") {
        parse_read(c, args)
    } else if str_eq(c, "send") {
        parse_send(c, args)
    } else {
        Err(error_envelope(Some(c), "unknown_command", "unsupported email command"))
    }
}

// ---------------------------------------------------------------------------
// Reading results back
// ---------------------------------------------------------------------------

/// The text value of the first entry whose key is the text `key` and whose
/// value is text.
pub open spec fn text_field_in(e: Seq<(CborView, CborView)>, key: Seq<char>) -> Option<Seq<char>>
    decreases e.len(),
{
    if e.len() == 0 {
        None
    } else {
        match text_field_in(e.drop_last(), key) {
            Some(t) => Some(t),
            None => match e.last() {
                (CborView::Text(k), CborView::Text(v)) => if k == key { Some(v) } else { None },
                _ => None,
            },
        }
    }
}

/// The text field `key` of a map value; `None` for any other value.
pub open spec fn text_field_spec(v: CborView, key: Seq<char>) -> Option<Seq<char>> {
    match v {
        CborView::Dict(e) => text_field_in(e, key),
        _ => None,
    }
}

/// The value of the first entry whose key is the text `key`.
pub open spec fn entry_in(e: Seq<(CborView, CborView)>, key: Seq<char>) -> Option<CborView>
    decreases e.len(),
{
    if e.len() == 0 {
        None
    } else {
        match entry_in(e.drop_last(), key) {
            Some(v) => Some(v),
            None => match e.last().0 {
                CborView::Text(k) => if k == key { Some(e.last().1) } else { None },
                _ => None,
            },
        }
    }
}

/// The text field `inner` of the map under key `outer`.
pub open spec fn nested_text_field_spec(v: CborView, outer: Seq<char>, inner: Seq<char>) -> Option<Seq<char>> {
    match v {
        CborView::Dict(e) => match entry_in(e, outer) {
            Some(n) => text_field_spec(n, inner),
            None => None,
        },
        _ => None,
    }
}

pub open spec fn opt_text_view(o: Option<&String>) -> Option<Seq<char>> {
    match o {
        Some(s) => Some(s@),
        None => None,
    }
}

/// The text field `key` of a map value.
pub fn cbor_text_field<'a>(value: &'a CborValue, key: &str) -> (res: Option<&'a String>)
    ensures
        opt_text_view(res) == text_field_spec(value@, key@),
{
    let entries = match value {
        CborValue::Dict(entries) => entries,
        _ => {
            return None;
        },
    };
    let mut i: usize = 0;
    while i < entries.len()
        invariant
            i <= entries@.len(),
            value@ == CborView::Dict(view_entries(entries@)),
            text_field_in(view_entries(entries@.take(i as int)), key@) is None,
        decreases entries@.len() - i,
    {
        proof {
            lemma_view_entries_take(entries@, i as int);
            assert(view_entries(entries@.take(i as int + 1)).drop_last() =~= view_entries(entries@.take(i as int)));
            lemma_view_entries_prefix(entries@, i as int + 1);
            lemma_view_entries(entries@);
        }
        if let (CborValue::Text(k), CborValue::Text(v)) = (&entries[i].0, &entries[i].1) {
            if str_eq(k.as_str(), key) {
                proof {
                    lemma_text_field_found_stands(view_entries(entries@), key@, i as int + 1);
                }
                return Some(v);
            }
        }
        i = i + 1;
    }
    proof {
        assert(entries@.take(entries@.len() as int) =~= entries@);
    }
    None
}

/// Once a prefix holds the field, the field is found there.
proof fn lemma_text_field_found_stands(e: Seq<(CborView, CborView)>, key: Seq<char>, k: int)
    requires
        0 <= k <= e.len(),
        text_field_in(e.take(k), key) is Some,
    ensures
        text_field_in(e, key) == text_field_in(e.take(k), key),
    decreases e.len() - k,
{
    if k < e.len() {
        assert(e.take(k + 1).drop_last() =~= e.take(k));
        lemma_text_field_found_stands(e, key, k + 1);
    } else {
        assert(e.take(k) =~= e);
    }
}

/// Once a prefix holds the key, the entry is found there.
proof fn lemma_entry_found_stands(e: Seq<(CborView, CborView)>, key: Seq<char>, k: int)
    requires
        0 <= k <= e.len(),
        entry_in(e.take(k), key) is Some,
    ensures
        entry_in(e, key) == entry_in(e.take(k), key),
    decreases e.len() - k,
{
    if k < e.len() {
        assert(e.take(k + 1).drop_last() =~= e.take(k));
        lemma_entry_found_stands(e, key, k + 1);
    } else {
        assert(e.take(k) =~= e);
    }
}

/// The text field `inner` of the map stored under `outer`.
pub fn cbor_nested_text_field<'a>(value: &'a CborValue, outer: &str, inner: &str) -> (res: Option<&'a String>)
    ensures
        opt_text_view(res) == nested_text_field_spec(value@, outer@, inner@),
{
    let entries = match value {
        CborValue::Dict(entries) => entries,
        _ => {
            return None;
        },
    };
    let mut i: usize = 0;
    while i < entries.len()
        invariant
            i <= entries@.len(),
            value@ == CborView::Dict(view_entries(entries@)),
            entry_in(view_entries(entries@.take(i as int)), outer@) is None,
        decreases entries@.len() - i,
    {
        proof {
            lemma_view_entries_take(entries@, i as int);
            assert(view_entries(entries@.take(i as int + 1)).drop_last() =~= view_entries(entries@.take(i as int)));
            lemma_view_entries_prefix(entries@, i as int + 1);
            lemma_view_entries(entries@);
        }
        if let CborValue::Text(k) = &entries[i].0 {
            if str_eq(k.as_str(), outer) {
                proof {
                    lemma_entry_found_stands(view_entries(entries@), outer@, i as int + 1);
                }
                return cbor_text_field(&entries[i].1, inner);
            }
        }
        i = i + 1;
    }
    proof {
        assert(entries@.take(entries@.len() as int) =~= entries@);
    }
    None
}

/// The `command` text of tool arguments, when they name one.
pub fn command_from_arguments(arguments: &CborValue) -> (res: Option<&String>)
    ensures
        opt_text_view(res) == text_field_spec(arguments@, "command"@),
{
    cbor_text_field(arguments, "command")
}

// ---------------------------------------------------------------------------
// Dispatch
// ---------------------------------------------------------------------------

/// The wire name of a command.
pub open spec fn command_name_spec(c: EmailCommandView) -> Seq<char> {
    match c {
        EmailCommandView::ListAccounts => "list_accounts"@,
        EmailCommandView::ListFolders { .. } => "list_folders"@,
        EmailCommandView::List { .. } => "list"@,
        EmailCommandView::Read { .. } => "read"@,
        EmailCommandView::Send { .. } => "send"@,
    }
}

/// The `not_implemented` envelope answered for a well-formed command.
pub open spec fn not_implemented_view(c: EmailCommandView) -> CborView {
    envelope_view(Rejection {
        command: Some(command_name_spec(c)),
        code: "not_implemented"@,
        message: "email."@ + command_name_spec(c) + " is not implemented yet"@,
    })
}

impl EmailCommand {
    /// The command's wire name.
    pub fn name(&self) -> (res: &'static str)
        ensures
            res@ == command_name_spec(self@),
    {
        match self {
            EmailCommand::ListAccounts => "list_accounts",
            EmailCommand::ListFolders { .. } => "list_folders",
            EmailCommand::List { .. } => "list",
            EmailCommand::Read { .. } => "read",
            EmailCommand::Send { .. } => "send",
        }
    }

    /// The structured `not_implemented` result for this command.
    pub fn not_implemented_result(&self) -> (res: CborValue)
        ensures
            res@ == not_implemented_view(self@),
    {
        let name = self.name();
        let message = concat3("email.", name, " is not implemented yet");
        error_envelope(Some(name), "not_implemented", message.as_str())
    }
}

/// Whether the extension has received a usable configuration.
#[derive(Debug)]
pub enum ConfigState {
    Unconfigured,
    Configured { state_dir: String },
    Rejected { reason: String },
}

/// `res` is how a module in `config_state` answers the email call `invoke`.
pub open spec fn dispatched(config_state: ConfigState, invoke: ToolStarted, res: ToolOutcome) -> bool {
    match config_state {
        ConfigState::Unconfigured => {
            &&& envelope_error(res, invoke, not_configured_view(invoke.arguments@, "Configure.state_dir has not been received"@))
            &&& error_of(res, invoke, PromptOriginator::User, "Configure.state_dir has not been received"@)
        },
        ConfigState::Rejected { reason } => {
            &&& envelope_error(res, invoke, not_configured_view(invoke.arguments@, rejected_message(reason@)))
            &&& error_of(res, invoke, PromptOriginator::User, rejected_message(reason@))
        },
        ConfigState::Configured { .. } => match parse_command_spec(invoke.arguments@) {
            Ok(c) => {
                &&& final_result_of(res, invoke, PromptOriginator::User)
                &&& res matches ToolOutcome::Result { result, display: Some(disp), .. }
                    && result@ == not_implemented_view(c)
                    && disp.status == ToolDisplayStatus::Error && disp.status_text@ == "not implemented"@
                    && disp.args@ == Seq::<char>::empty() && disp.stats == no_stats() && disp.info_chips@.len() == 0
            },
            Err(r) => envelope_error(res, invoke, envelope_view(r)),
        },
    }
}

/// Runtime state of the email extension.
#[derive(Debug)]
pub struct RuntimeState {
    pub config_state: ConfigState,
}

/// The default error message when a rejection envelope carries none.
pub open spec fn default_error_message() -> Seq<char> {
    "invalid email tool request"@
}

/// The message a tool error reports for `details`.
pub open spec fn tool_error_message(details: CborView) -> Seq<char> {
    match nested_text_field_spec(details, "error"@, "message"@) {
        Some(m) => m,
        None => default_error_message(),
    }
}

/// `res` is the tool error for `invoke` that carries the rejection
/// envelope `details`: the envelope's message, the envelope itself, and an
/// error display showing the message.
pub open spec fn envelope_error(res: ToolOutcome, invoke: ToolStarted, details: CborView) -> bool {
    &&& error_of(res, invoke, PromptOriginator::User, tool_error_message(details))
    &&& res matches ToolOutcome::Error { details: Some(d), display: Some(disp), message, .. } && {
        &&& d@ == details
        &&& disp.status == ToolDisplayStatus::Error
        &&& disp.status_text@ == message@
    }
}

/// Turns a rejection envelope into the tool error that ends the call.
pub fn tool_error(invoke: ToolStarted, details: CborValue) -> (res: ToolOutcome)
    ensures
        envelope_error(res, invoke, details@),
{
    let message = match cbor_nested_text_field(&details, "error", "message") {
        Some(m) => m.clone(),
        None => owned("invalid email tool request"),
    };
    let disp = display(ToolDisplayStatus::Error, message.as_str());
    ToolOutcome::Error {
        call_id: invoke.call_id,
        tool_name: invoke.tool_name,
        tool_type: ToolType::Function,
        message,
        details: Some(details),
        display: Some(disp),
        originator: PromptOriginator::User,
    }
}

/// The message a rejected configuration leaves for later tool calls.
pub open spec fn rejected_message(reason: Seq<char>) -> Seq<char> {
    "email extension configuration was rejected: "@ + reason
}

/// The envelope answered while no configuration is in force.
pub open spec fn not_configured_view(arguments: CborView, message: Seq<char>) -> CborView {
    envelope_view(Rejection {
        command: text_field_spec(arguments, "command"@),
        code: "not_configured"@,
        message,
    })
}

impl RuntimeState {
    /// A state that has not been configured yet.
    pub fn new() -> (res: RuntimeState)
        ensures
            res.config_state is Unconfigured,
    {
        RuntimeState { config_state: ConfigState::Unconfigured }
    }

    /// Records the outcome of a `Configure` message: the state directory it
    /// set up, or why it was rejected. A rejection is reported back.
    pub fn configure(&mut self, outcome: Result<String, String>) -> (res: Result<(), String>)
        ensures
            match outcome {
                Ok(dir) => res is Ok && (final(self).config_state matches ConfigState::Configured { state_dir } && state_dir@ == dir@),
                Err(m) => (res matches Err(r) && r@ == m@)
                    && (final(self).config_state matches ConfigState::Rejected { reason } && reason@ == m@),
            },
    {
        match outcome {
            Ok(state_dir) => {
                self.config_state = ConfigState::Configured { state_dir };
                Ok(())
            },
            Err(message) => {
                self.config_state = ConfigState::Rejected { reason: message.clone() };
                Err(message)
            },
        }
    }

    /// Answers one `email` tool call: unconfigured and rejected states report
    /// `not_configured`; otherwise the arguments are parsed and a well-formed
    /// command is answered with `not_implemented`.
    pub fn dispatch(&self, invoke: ToolStarted) -> (res: ToolOutcome)
        ensures
            dispatched(self.config_state, invoke, res),
    {
        match &self.config_state {
            ConfigState::Configured { .. } => {},
            ConfigState::Unconfigured => {
                let details = {
                    let command = command_from_arguments(&invoke.arguments);
                    let c = match command {
                        Some(c) => Some(c.as_str()),
                        None => None,
                    };
                    error_envelope(c, "not_configured", "Configure.state_dir has not been received")
                };
                let res = tool_error(invoke, details);
                proof { reveal_strlit("Configure.state_dir has not been received"); }
                assert(tool_error_message(not_configured_view(invoke.arguments@, "Configure.state_dir has not been received"@)) == "Configure.state_dir has not been received"@) by {
                    lemma_envelope_message(Rejection { command: text_field_spec(invoke.arguments@, "command"@), code: "not_configured"@, message: "Configure.state_dir has not been received"@ });
                }
                return res;
            },
            ConfigState::Rejected { reason } => {
                let message = concat2("email extension configuration was rejected: ", reason.as_str());
                let details = {
                    let command = command_from_arguments(&invoke.arguments);
                    let c = match command {
                        Some(c) => Some(c.as_str()),
                        None => None,
                    };
                    error_envelope(c, "not_configured", message.as_str())
                };
                proof {
                    lemma_envelope_message(Rejection { command: text_field_spec(invoke.arguments@, "command"@), code: "not_configured"@, message: message@ });
                }
                return tool_error(invoke, details);
            },
        }
        match parse_command(&invoke.arguments) {
            Ok(command) => {
                let result = command.not_implemented_result();
                let disp = display(ToolDisplayStatus::Error, "not implemented");
                ToolOutcome::Result {
                    call_id: invoke.call_id,
                    tool_name: invoke.tool_name,
                    tool_type: ToolType::Function,
                    result,
                    kind: ToolResultKind::Final,
                    display: Some(disp),
                    originator: PromptOriginator::User,
                }
            },
            Err(error) => tool_error(invoke, error),
        }
    }
}

/// The message of an envelope is read back from its `error` record.
pub proof fn lemma_envelope_message(r: Rejection)
    ensures
        tool_error_message(envelope_view(r)) == r.message,
        text_field_spec(envelope_view(r), "command"@) == r.command,
{
    let e = envelope_view(r)->Dict_0;
    reveal_strlit("ok");
    reveal_strlit("command");
    reveal_strlit("error");
    reveal_strlit("code");
    reveal_strlit("message");
    reveal_strlit("details");
    let e1 = seq![e[0]];
    let e2 = seq![e[0], e[1]];
    assert(e1.drop_last() =~= Seq::<(CborView, CborView)>::empty());
    assert(e2.drop_last() =~= e1);
    assert(e.drop_last() =~= e2);
    assert(text_field_in(Seq::<(CborView, CborView)>::empty(), "command"@) is None);
    assert(entry_in(Seq::<(CborView, CborView)>::empty(), "error"@) is None);
    assert(text_field_in(Seq::<(CborView, CborView)>::empty(), "message"@) is None);
    assert(text_field_in(e1, "command"@) is None);
    assert(text_field_in(e2, "command"@) == r.command);
    assert(text_field_in(e, "command"@) == r.command);
    assert("ok"@.len() == 2);
    assert("error"@.len() == 5);
    assert("ok"@ != "error"@);
    assert("code"@[0] != "message"@[0]);
    assert("code"@ != "message"@);
    assert(entry_in(e1, "error"@) is None);
    assert(entry_in(e2, "error"@) is None);
    assert(entry_in(e, "error"@) == Some(structured_error_view(r.code, r.message)));
    let s = structured_error_view(r.code, r.message)->Dict_0;
    let s1 = seq![s[0]];
    let s2 = seq![s[0], s[1]];
    assert(s1.drop_last() =~= Seq::<(CborView, CborView)>::empty());
    assert(s2.drop_last() =~= s1);
    assert(s.drop_last() =~= s2);
    assert(text_field_in(s1, "message"@) is None);
    assert(text_field_in(s2, "message"@) == Some(r.message));
    assert(text_field_in(s, "message"@) == Some(r.message));
}

/// A state directory is required for the extension to run.
pub fn require_state_dir(state_dir: Option<String>) -> (res: Result<String, String>)
    ensures
        match state_dir {
            Some(d) => res matches Ok(r) && r@ == d@,
            None => res matches Err(m) && m@ == "email extension requires Configure.state_dir"@,
        },
{
    match state_dir {
        Some(d) => Ok(d),
        None => Err(owned("email extension requires Configure.state_dir")),
    }
}

/// Description of the `email` tool.
pub const EMAIL_DESCRIPTION: &'static str = "Interact with configured email accounts. Phase A exposes the stable command envelope only; account, folder, list, read, and send operations currently return structured not_implemented results.";

/// JSON Schema of the `email` tool's input, keys in sorted order.
pub const EMAIL_PARAMETERS: &'static str = "{\"additionalProperties\":false,\"properties\":{\"args\":{\"additionalProperties\":true,\"description\":\"Command-specific arguments.\",\"type\":\"object\"},\"command\":{\"description\":\"Email subcommand to execute.\",\"enum\":[\"list_accounts\",\"list_folders\",\"list\",\"read\",\"send\"],\"type\":\"string\"}},\"required\":[\"command\",\"args\"],\"type\":\"object\"}";

/// The single `email` tool the extension registers: an exclusive function
/// tool, enabled by default, with no background support.
pub fn email_tool_spec() -> (res: ToolSpec)
    ensures
        res.name@ == TOOL_NAME@,
        res.model_visible_name is None,
        res.description matches Some(d) && d@ == EMAIL_DESCRIPTION@,
        res.tool_type == ToolType::Function,
        res.parameters matches Some(p) && p@ == EMAIL_PARAMETERS@,
        res.enabled_by_default,
        res.execution_mode == ToolExecutionMode::Exclusive,
        res.background_support is None,
{
    ToolSpec {
        name: owned(TOOL_NAME),
        model_visible_name: None,
        description: Some(owned(EMAIL_DESCRIPTION)),
        tool_type: ToolType::Function,
        parameters: Some(owned(EMAIL_PARAMETERS)),
        enabled_by_default: true,
        execution_mode: ToolExecutionMode::Exclusive,
        background_support: None,
    }
}

} // verus!
