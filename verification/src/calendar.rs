//! Calendar module of the PIM extension: configuration validation, the
//! runtime configuration state, account lookup, and the line-oriented
//! text the calendar tool answers with.

use vstd::prelude::*;

use crate::proto::SecretValue;
use crate::text::{blank, chars_of, is_blank, is_cc, is_control, is_whitespace, is_ws, join, owned, push_char, push_decimal, push_str, str_eq, views};

verus! {

broadcast use vstd::string::group_string_axioms;

// ---------------------------------------------------------------------------
// Configuration
// ---------------------------------------------------------------------------

/// Top-level calendar module configuration.
#[derive(Debug, Default)]
pub struct CalendarExtensionConfig {
    /// Whether calendar access is enabled.
    pub enable: bool,
    /// Configured calendar accounts.
    pub accounts: Vec<CalendarAccountConfig>,
}

/// One configured calendar account.
#[derive(Debug, Default)]
pub struct CalendarAccountConfig {
    /// Stable account identifier used by tool commands.
    pub id: String,
    /// Per-account enable flag; accounts are disabled unless enabled.
    pub enable: bool,
    /// Optional display name for user-facing account lists.
    pub display_name: Option<String>,
    /// Calendar backend configuration.
    pub backend: Option<CalendarBackendConfig>,
    /// Per-account calendar selection policy.
    pub calendars: CalendarSelectionConfig,
    /// Default IANA timezone.
    pub timezone: Option<String>,
}

/// Backend-specific calendar account configuration.
#[derive(Debug)]
pub enum CalendarBackendConfig {
    /// Generic read-only iCalendar feed.
    IcsFeed { url_secret: Option<String>, url: Option<String> },
    /// Native Google Calendar API backend.
    Google { oauth_profile: Option<String> },
    /// Generic CalDAV backend.
    Caldav { url: Option<String>, login: Option<String>, password_secret: Option<String> },
}

/// Per-account calendar visibility configuration.
#[derive(Debug, Default)]
pub struct CalendarSelectionConfig {
    /// Default calendar id used when a command omits `calendar`.
    pub default: Option<String>,
    /// Calendar ids or names the agent may see. Empty means none.
    pub allow: Vec<String>,
}

/// Validated calendar configuration.
pub struct ValidatedConfig {
    /// Whether calendar access is enabled.
    pub enable: bool,
    /// Accounts in configuration order; no two share an id.
    pub accounts: Vec<ValidatedAccount>,
    /// Account ids in configuration order.
    pub account_order: Vec<String>,
}

/// Validated calendar account configuration.
pub struct ValidatedAccount {
    pub id: String,
    pub enable: bool,
    pub display_name: Option<String>,
    pub backend: Option<ValidatedBackendConfig>,
    pub default_calendar: Option<String>,
    pub allowed_calendars: Vec<String>,
    pub timezone: Option<String>,
}

/// Validated backend-specific calendar account configuration.
pub enum ValidatedBackendConfig {
    IcsFeed { url_secret: Option<String>, url: Option<String> },
    Google { oauth_profile: Option<String> },
    Caldav { url: Option<String>, login: Option<String>, password_secret: Option<String> },
}

/// What is wrong with a calendar id pattern, if anything.
pub open spec fn pattern_error(p: Seq<char>) -> Option<Seq<char>> {
    if blank(p) {
        Some("calendar id pattern must not be empty"@)
    } else if exists|i: int| 0 <= i < p.len() && is_cc(#[trigger] p[i]) {
        Some("calendar id pattern must not contain control characters"@)
    } else {
        None
    }
}

/// The first error among a list of patterns.
pub open spec fn patterns_error(ps: Seq<String>) -> Option<Seq<char>>
    decreases ps.len(),
{
    if ps.len() == 0 {
        None
    } else if pattern_error(ps[0]@) is Some {
        pattern_error(ps[0]@)
    } else {
        patterns_error(ps.drop_first())
    }
}

/// What is wrong with the URL source of an iCalendar feed, if anything.
pub open spec fn ics_source_error(url_secret: Option<Seq<char>>, url: Option<Seq<char>>) -> Option<Seq<char>> {
    match (url_secret, url) {
        (Some(secret), None) => if blank(secret) { Some("ics_feed url_secret must not be empty"@) } else { None },
        (None, Some(u)) => if blank(u) { Some("ics_feed url must not be empty"@) } else { None },
        (None, None) => Some("ics_feed requires exactly one of url_secret or url"@),
        (Some(_), Some(_)) => Some("ics_feed accepts only one of url_secret or url"@),
    }
}

/// The view of an optional string.
pub open spec fn ov(o: Option<String>) -> Option<Seq<char>> {
    match o {
        Some(s) => Some(s@),
        None => None,
    }
}

/// What is wrong with an account's backend, if anything.
pub open spec fn backend_error(b: Option<CalendarBackendConfig>) -> Option<Seq<char>> {
    match b {
        Some(CalendarBackendConfig::IcsFeed { url_secret, url }) => ics_source_error(ov(url_secret), ov(url)),
        _ => None,
    }
}

/// The error of one account given the ids of the accounts before it, in
/// the order the checks run: empty id, duplicate id, allowed patterns,
/// default pattern, backend.
pub open spec fn account_error(a: CalendarAccountConfig, earlier_ids: Seq<Seq<char>>) -> Option<Seq<char>> {
    if blank(a.id@) {
        Some("calendar account id must not be empty"@)
    } else if earlier_ids.contains(a.id@) {
        Some("duplicate calendar account id `"@ + a.id@ + "`"@)
    } else if patterns_error(a.calendars.allow@) is Some {
        patterns_error(a.calendars.allow@)
    } else if a.calendars.default is Some && pattern_error(a.calendars.default->Some_0@) is Some {
        pattern_error(a.calendars.default->Some_0@)
    } else {
        backend_error(a.backend)
    }
}

/// The ids of a list of accounts.
pub open spec fn account_ids(s: Seq<CalendarAccountConfig>) -> Seq<Seq<char>> {
    Seq::new(s.len(), |i: int| s[i].id@)
}

/// The first error of a list of accounts, checked in order.
pub open spec fn config_error(s: Seq<CalendarAccountConfig>) -> Option<Seq<char>>
    decreases s.len(),
{
    if s.len() == 0 {
        None
    } else if config_error(s.drop_last()) is Some {
        config_error(s.drop_last())
    } else {
        account_error(s.last(), account_ids(s.drop_last()))
    }
}

/// An error of a prefix of the accounts is the error of all of them.
proof fn lemma_config_error_prefix(s: Seq<CalendarAccountConfig>, k: int)
    requires
        0 <= k <= s.len(),
        config_error(s.take(k)) is Some,
    ensures
        config_error(s) == config_error(s.take(k)),
    decreases s.len() - k,
{
    if k < s.len() {
        assert(s.take(k + 1).drop_last() =~= s.take(k));
        lemma_config_error_prefix(s, k + 1);
    } else {
        assert(s.take(k) =~= s);
    }
}

/// A validated backend carries the configured backend's settings.
pub open spec fn backend_matches(v: Option<ValidatedBackendConfig>, c: Option<CalendarBackendConfig>) -> bool {
    match (v, c) {
        (None, None) => true,
        (Some(ValidatedBackendConfig::IcsFeed { url_secret: a, url: b }), Some(CalendarBackendConfig::IcsFeed { url_secret: x, url: y })) => a == x && b == y,
        (Some(ValidatedBackendConfig::Google { oauth_profile: a }), Some(CalendarBackendConfig::Google { oauth_profile: x })) => a == x,
        (Some(ValidatedBackendConfig::Caldav { url: a, login: b, password_secret: c2 }), Some(CalendarBackendConfig::Caldav { url: x, login: y, password_secret: z })) => a == x && b == y && c2 == z,
        _ => false,
    }
}

/// A validated account carries the configured account's settings.
pub open spec fn account_matches(v: ValidatedAccount, c: CalendarAccountConfig) -> bool {
    &&& v.id == c.id
    &&& v.enable == c.enable
    &&& v.display_name == c.display_name
    &&& backend_matches(v.backend, c.backend)
    &&& v.default_calendar == c.calendars.default
    &&& v.allowed_calendars == c.calendars.allow
    &&& v.timezone == c.timezone
}

/// Checks one calendar id pattern.
fn validate_calendar_pattern(value: &str) -> (res: Result<(), String>)
    ensures
        match pattern_error(value@) {
            Some(m) => res matches Err(e) && e@ == m,
            None => res is Ok,
        },
{
    if is_blank(value) {
        return Err(owned("calendar id pattern must not be empty"));
    }
    let cs = chars_of(value);
    let mut i: usize = 0;
    while i < cs.len()
        invariant
            cs@ == value@,
            !blank(value@),
            i <= cs@.len(),
            forall|j: int| 0 <= j < i ==> !is_cc(#[trigger] cs@[j]),
        decreases cs@.len() - i,
    {
        if is_control(cs[i]) {
            assert(is_cc(value@[i as int]));
            return Err(owned("calendar id pattern must not contain control characters"));
        }
        i = i + 1;
    }
    Ok(())
}

/// Checks a list of calendar id patterns; the first bad one decides.
fn validate_calendar_patterns(patterns: &Vec<String>) -> (res: Result<(), String>)
    ensures
        match patterns_error(patterns@) {
            Some(m) => res matches Err(e) && e@ == m,
            None => res is Ok,
        },
{
    let mut i: usize = 0;
    assert(patterns@.skip(0) =~= patterns@);
    while i < patterns.len()
        invariant
            i <= patterns@.len(),
            patterns_error(patterns@) == patterns_error(patterns@.skip(i as int)),
        decreases patterns@.len() - i,
    {
        assert(patterns@.skip(i as int).drop_first() =~= patterns@.skip(i + 1));
        assert(patterns@.skip(i as int)[0] == patterns@[i as int]);
        match validate_calendar_pattern(patterns[i].as_str()) {
            Err(e) => return Err(e),
            Ok(()) => {},
        }
        i = i + 1;
    }
    Ok(())
}

/// Checks that an iCalendar feed has exactly one non-empty URL source.
fn validate_ics_feed_source(url_secret: Option<&str>, url: Option<&str>) -> (res: Result<(), String>)
    ensures
        ({
            let s = match url_secret { Some(x) => Some(x@), None => None };
            let u = match url { Some(x) => Some(x@), None => None };
            match ics_source_error(s, u) {
                Some(m) => res matches Err(e) && e@ == m,
                None => res is Ok,
            }
        }),
{
    match (url_secret, url) {
        (Some(secret), None) => {
            if is_blank(secret) {
                Err(owned("ics_feed url_secret must not be empty"))
            } else {
                Ok(())
            }
        },
        (None, Some(u)) => {
            if is_blank(u) {
                Err(owned("ics_feed url must not be empty"))
            } else {
                Ok(())
            }
        },
        (None, None) => Err(owned("ics_feed requires exactly one of url_secret or url")),
        (Some(_), Some(_)) => Err(owned("ics_feed accepts only one of url_secret or url")),
    }
}

fn opt_as_str(o: &Option<String>) -> (res: Option<&str>)
    ensures
        match res { Some(x) => Some(x@), None => None::<Seq<char>> } == ov(*o),
{
    match o {
        Some(s) => Some(s.as_str()),
        None => None,
    }
}

impl ValidatedAccount {
    /// Validates one account's backend and takes over its settings.
    fn from_config(value: CalendarAccountConfig) -> (res: Result<Self, String>)
        ensures
            match backend_error(value.backend) {
                Some(m) => res matches Err(e) && e@ == m,
                None => res matches Ok(v) && account_matches(v, value),
            },
    {
        let ghost orig = value;
        let backend = match value.backend {
            Some(CalendarBackendConfig::IcsFeed { url_secret, url }) => {
                match validate_ics_feed_source(opt_as_str(&url_secret), opt_as_str(&url)) {
                    Err(e) => return Err(e),
                    Ok(()) => {},
                }
                Some(ValidatedBackendConfig::IcsFeed { url_secret, url })
            },
            Some(CalendarBackendConfig::Google { oauth_profile }) => Some(ValidatedBackendConfig::Google { oauth_profile }),
            Some(CalendarBackendConfig::Caldav { url, login, password_secret }) => Some(ValidatedBackendConfig::Caldav { url, login, password_secret }),
            None => None,
        };
        Ok(ValidatedAccount {
            id: value.id,
            enable: value.enable,
            display_name: value.display_name,
            backend,
            default_calendar: value.calendars.default,
            allowed_calendars: value.calendars.allow,
            timezone: value.timezone,
        })
    }

    /// The stable backend kind name.
    pub fn backend_kind(&self) -> (res: &'static str)
        ensures
            res@ == backend_kind_name(self.backend),
    {
        match &self.backend {
            Some(ValidatedBackendConfig::IcsFeed { .. }) => "ics_feed",
            Some(ValidatedBackendConfig::Google { .. }) => "google",
            Some(ValidatedBackendConfig::Caldav { .. }) => "caldav",
            None => "none",
        }
    }
}

/// The stable backend kind name.
pub open spec fn backend_kind_name(b: Option<ValidatedBackendConfig>) -> Seq<char> {
    match b {
        Some(ValidatedBackendConfig::IcsFeed { .. }) => "ics_feed"@,
        Some(ValidatedBackendConfig::Google { .. }) => "google"@,
        Some(ValidatedBackendConfig::Caldav { .. }) => "caldav"@,
        None => "none"@,
    }
}

/// The ids of validated accounts.
pub open spec fn validated_ids(s: Seq<ValidatedAccount>) -> Seq<Seq<char>> {
    Seq::new(s.len(), |i: int| s[i].id@)
}

/// No two accounts share an id.
pub open spec fn ids_distinct(ids: Seq<Seq<char>>) -> bool {
    forall|i: int, j: int| 0 <= i < ids.len() && 0 <= j < ids.len() && i != j ==> ids[i] != ids[j]
}

impl ValidatedConfig {
    /// Accounts keyed uniquely, listed in order.
    pub open spec fn wf(&self) -> bool {
        &&& ids_distinct(validated_ids(self.accounts@))
        &&& views(self.account_order@) == validated_ids(self.accounts@)
    }
}

impl CalendarExtensionConfig {
    /// Validates this configuration: the first invalid account, in order,
    /// gives the error; otherwise every account is kept, in order.
    pub fn validate(self) -> (res: Result<ValidatedConfig, String>)
        ensures
            match config_error(self.accounts@) {
                Some(m) => res matches Err(e) && e@ == m,
                None => res matches Ok(v) && v.wf() && v.enable == self.enable
                    && v.accounts@.len() == self.accounts@.len()
                    && forall|i: int| 0 <= i < v.accounts@.len() ==> account_matches(#[trigger] v.accounts@[i], self.accounts@[i]),
            },
    {
        let ghost all = self.accounts@;
        let enable = self.enable;
        let total = self.accounts.len();
        let mut rest = self.accounts;
        let mut accounts: Vec<ValidatedAccount> = Vec::new();
        let mut account_order: Vec<String> = Vec::new();
        let mut done: usize = 0;
        while rest.len() > 0
            invariant
                all == self.accounts@,
                total == all.len(),
                done <= all.len(),
                rest@ == all.skip(done as int),
                config_error(all.take(done as int)) is None,
                accounts@.len() == done,
                forall|i: int| 0 <= i < done ==> account_matches(#[trigger] accounts@[i], all[i]),
                views(account_order@) == validated_ids(accounts@),
                validated_ids(accounts@) == account_ids(all.take(done as int)),
                ids_distinct(validated_ids(accounts@)),
            decreases rest@.len(),
        {
            let account = rest.remove(0);
            assert(all.skip(done as int).drop_first() =~= all.skip(done + 1));
            assert(all.take(done + 1).drop_last() =~= all.take(done as int));
            assert(all.take(done + 1).last() == account);
            let ghost earlier = account_ids(all.take(done as int));
            assert(config_error(all.take(done + 1)) == account_error(account, earlier));
            proof {
                if account_error(account, earlier) is Some {
                    lemma_config_error_prefix(all, done + 1);
                }
            }
            if is_blank(account.id.as_str()) {
                return Err(owned("calendar account id must not be empty"));
            }
            let mut k: usize = 0;
            while k < account_order.len()
                invariant
                    all == self.accounts@,
                    !blank(account.id@),
                    account_error(account, earlier) is Some ==> config_error(all) == account_error(account, earlier),
                    k <= account_order@.len(),
                    views(account_order@) == earlier,
                    forall|j: int| 0 <= j < k ==> earlier[j] != account.id@,
                decreases account_order@.len() - k,
            {
                if str_eq(account_order[k].as_str(), account.id.as_str()) {
                    assert(earlier[k as int] == account.id@);
                    assert(earlier.contains(account.id@));
                    let mut msg = owned("duplicate calendar account id `");
                    push_str(&mut msg, account.id.as_str());
                    push_str(&mut msg, "`");
                    assert(msg@ =~= "duplicate calendar account id `"@ + account.id@ + "`"@);
                    return Err(msg);
                }
                k = k + 1;
            }
            assert(!earlier.contains(account.id@));
            match validate_calendar_patterns(&account.calendars.allow) {
                Err(e) => return Err(e),
                Ok(()) => {},
            }
            match &account.calendars.default {
                Some(default) => match validate_calendar_pattern(default.as_str()) {
                    Err(e) => return Err(e),
                    Ok(()) => {},
                },
                None => {},
            }
            let id = account.id.clone();
            let ghost before_ids = validated_ids(accounts@);
            let ghost before_accounts = accounts@;
            match ValidatedAccount::from_config(account) {
                Err(e) => return Err(e),
                Ok(v) => {
                    account_order.push(id);
                    accounts.push(v);
                },
            }
            assert(validated_ids(accounts@) =~= before_ids.push(account.id@));
            assert(account_ids(all.take(done + 1)) =~= earlier.push(account.id@));
            assert(views(account_order@) =~= validated_ids(accounts@));
            assert forall|i: int| 0 <= i < done + 1 implies account_matches(#[trigger] accounts@[i], all[i]) by {
                if i < done {
                    assert(accounts@[i] == before_accounts[i]);
                }
            }
            done = done + 1;
        }
        assert(all.take(done as int) =~= all);
        Ok(ValidatedConfig { enable, accounts, account_order })
    }
}

// ---------------------------------------------------------------------------
// Runtime state
// ---------------------------------------------------------------------------

/// Configuration state of the calendar module.
pub enum ConfigState {
    Unconfigured,
    Configured { config: ValidatedConfig, secrets: Vec<(String, SecretValue)> },
    Rejected { reason: String },
}

/// Runtime state of the calendar module.
pub struct RuntimeState {
    pub config_state: ConfigState,
}

impl RuntimeState {
    /// A module that has not been configured yet.
    pub fn new() -> (res: Self)
        ensures
            res.config_state is Unconfigured,
    {
        RuntimeState { config_state: ConfigState::Unconfigured }
    }

    /// Configures the calendar module from an already decoded configuration:
    /// a valid one is kept with the authorized secrets, an invalid one
    /// leaves the module rejected with the validation error.
    pub fn configure_with_config(&mut self, cfg: CalendarExtensionConfig, secrets: Vec<(String, SecretValue)>) -> (res: Result<(), String>)
        ensures
            match config_error(cfg.accounts@) {
                Some(m) => (res matches Err(e) && e@ == m)
                    && (final(self).config_state matches ConfigState::Rejected { reason } && reason@ == m),
                None => res is Ok && (final(self).config_state matches ConfigState::Configured { config, secrets: s }
                    && config.wf() && config.enable == cfg.enable && s == secrets),
            },
    {
        match cfg.validate() {
            Ok(config) => {
                self.config_state = ConfigState::Configured { config, secrets };
                Ok(())
            },
            Err(message) => {
                self.config_state = ConfigState::Rejected { reason: message.clone() };
                Err(message)
            },
        }
    }
}

// ---------------------------------------------------------------------------
// Tool answer text
// ---------------------------------------------------------------------------

/// Control characters turned into spaces.
pub open spec fn controls_to_spaces(s: Seq<char>) -> Seq<char> {
    Seq::new(s.len(), |i: int| if is_cc(s[i]) { ' ' } else { s[i] })
}

/// Line breaks turned into spaces.
pub open spec fn breaks_to_spaces(s: Seq<char>) -> Seq<char> {
    Seq::new(s.len(), |i: int| if s[i] == '\n' || s[i] == '\r' { ' ' } else { s[i] })
}

/// A value as one space-free field: control characters become spaces,
/// and the whitespace-separated words are joined by `_`.
pub open spec fn safe_field_text(s: Seq<char>) -> Seq<char> {
    join(crate::text::words(controls_to_spaces(s)), "_"@)
}

/// A value on one line: line breaks become spaces, and the
/// whitespace-separated words are joined by single spaces.
pub open spec fn safe_multiline_text(s: Seq<char>) -> Seq<char> {
    join(crate::text::words(breaks_to_spaces(s)), " "@)
}

/// `value` as one field with no whitespace or control characters.
pub fn safe_field(value: &str) -> (res: String)
    ensures
        res@ == safe_field_text(value@),
{
    let cs = chars_of(value);
    let mut mapped: Vec<char> = Vec::new();
    let mut i: usize = 0;
    while i < cs.len()
        invariant
            cs@ == value@,
            i <= cs@.len(),
            mapped@ == controls_to_spaces(value@).take(i as int),
        decreases cs@.len() - i,
    {
        let c = cs[i];
        mapped.push(if is_control(c) { ' ' } else { c });
        assert(mapped@ =~= controls_to_spaces(value@).take(i + 1));
        i = i + 1;
    }
    assert(mapped@ =~= controls_to_spaces(value@));
    let words = crate::text::split_words(&mapped);
    crate::text::join_strings(&words, "_")
}

/// `value` on one line, its words separated by single spaces.
pub fn safe_multiline(value: &str) -> (res: String)
    ensures
        res@ == safe_multiline_text(value@),
{
    let cs = chars_of(value);
    let mut mapped: Vec<char> = Vec::new();
    let mut i: usize = 0;
    while i < cs.len()
        invariant
            cs@ == value@,
            i <= cs@.len(),
            mapped@ == breaks_to_spaces(value@).take(i as int),
        decreases cs@.len() - i,
    {
        let c = cs[i];
        mapped.push(if c == '\n' || c == '\r' { ' ' } else { c });
        assert(mapped@ =~= breaks_to_spaces(value@).take(i + 1));
        i = i + 1;
    }
    assert(mapped@ =~= breaks_to_spaces(value@));
    let words = crate::text::split_words(&mapped);
    crate::text::join_strings(&words, " ")
}

/// The first line of the account list.
pub open spec fn accounts_header() -> Seq<char> {
    "format: id flags backend default_calendar timezone display_name"@
}

/// An optional setting, `-` when absent.
pub open spec fn or_dash(o: Option<String>) -> Seq<char> {
    match o {
        Some(s) => s@,
        None => "-"@,
    }
}

/// One account's line in the account list.
pub open spec fn account_line(a: ValidatedAccount) -> Seq<char> {
    safe_field_text(a.id@) + " enabled "@ + safe_field_text(backend_kind_name(a.backend)) + " "@
        + safe_field_text(or_dash(a.default_calendar)) + " "@ + safe_field_text(or_dash(a.timezone)) + " "@
        + safe_field_text(or_dash(a.display_name))
}

/// The lines of the enabled accounts, in order.
pub open spec fn enabled_account_lines(s: Seq<ValidatedAccount>) -> Seq<Seq<char>>
    decreases s.len(),
{
    if s.len() == 0 {
        Seq::empty()
    } else if s.last().enable {
        enabled_account_lines(s.drop_last()).push(account_line(s.last()))
    } else {
        enabled_account_lines(s.drop_last())
    }
}

/// The enabled accounts, in order.
pub open spec fn enabled_accounts(s: Seq<ValidatedAccount>) -> Seq<ValidatedAccount>
    decreases s.len(),
{
    if s.len() == 0 {
        Seq::empty()
    } else if s.last().enable {
        enabled_accounts(s.drop_last()).push(s.last())
    } else {
        enabled_accounts(s.drop_last())
    }
}

/// Whether an account is enabled.
pub open spec fn account_enabled() -> spec_fn(ValidatedAccount) -> bool {
    |a: ValidatedAccount| a.enable
}

/// The account list names exactly the enabled accounts, in order: after
/// the header there is one line per account whose enable flag is set, and
/// no line for a disabled one; these are the accounts a read over all
/// accounts covers.
pub proof fn law_account_list_names_exactly_enabled_accounts(s: Seq<ValidatedAccount>)
    ensures
        enabled_account_lines(s).len() == s.filter(account_enabled()).len(),
        forall|j: int| 0 <= j < enabled_account_lines(s).len() ==>
            #[trigger] enabled_account_lines(s)[j] == account_line(s.filter(account_enabled())[j]),
        forall|j: int| 0 <= j < s.filter(account_enabled()).len() ==> (#[trigger] s.filter(account_enabled())[j]).enable,
        enabled_accounts(s) == s.filter(account_enabled()),
    decreases s.len(),
{
    reveal(Seq::filter);
    if s.len() > 0 {
        let p = s.drop_last();
        law_account_list_names_exactly_enabled_accounts(p);
        assert(p.push(s.last()) =~= s);
        p.lemma_filter_push(s.last(), account_enabled());
        let f = s.filter(account_enabled());
        let fp = p.filter(account_enabled());
        assert forall|j: int| 0 <= j < enabled_account_lines(s).len() implies
            #[trigger] enabled_account_lines(s)[j] == account_line(f[j]) by {
            if j < fp.len() {
                assert(f[j] == fp[j]);
                assert(enabled_account_lines(s)[j] == enabled_account_lines(p)[j]);
            }
        }
        assert forall|j: int| 0 <= j < f.len() implies (#[trigger] f[j]).enable by {
            if j < fp.len() {
                assert(f[j] == fp[j]);
            }
        }
    }
}

/// The position of the account with id `id`, if any (the last one, should
/// ids repeat).
pub open spec fn account_index(s: Seq<ValidatedAccount>, id: Seq<char>) -> Option<int>
    decreases s.len(),
{
    if s.len() == 0 {
        None
    } else if s.last().id@ == id {
        Some(s.len() - 1)
    } else {
        account_index(s.drop_last(), id)
    }
}

/// Appends an optional setting as a safe field, `-` when absent.
fn push_field_or_dash(out: &mut String, o: &Option<String>)
    ensures
        final(out)@ == old(out)@ + safe_field_text(or_dash(*o)),
{
    match o {
        Some(s) => push_str(out, safe_field(s.as_str()).as_str()),
        None => push_str(out, safe_field("-").as_str()),
    }
}

impl ValidatedConfig {
    /// The account list: a format line, then one line per enabled account
    /// when the module is enabled.
    pub fn list_accounts(&self) -> (res: String)
        ensures
            res@ == join(
                seq![accounts_header()] + (if self.enable { enabled_account_lines(self.accounts@) } else { Seq::empty() }),
                seq!['\n'],
            ),
    {
        let mut lines: Vec<String> = Vec::new();
        lines.push(owned("format: id flags backend default_calendar timezone display_name"));
        proof {
            reveal_strlit("\n");
        }
        assert("\n"@ =~= seq!['\n']);
        if !self.enable {
            assert(views(lines@) =~= seq![accounts_header()] + Seq::<Seq<char>>::empty());
            return crate::text::join_strings(&lines, "\n");
        }
        let mut i: usize = 0;
        while i < self.accounts.len()
            invariant
                i <= self.accounts@.len(),
                views(lines@) == seq![accounts_header()] + enabled_account_lines(self.accounts@.take(i as int)),
            decreases self.accounts@.len() - i,
        {
            let account = &self.accounts[i];
            assert(self.accounts@.take(i + 1).drop_last() =~= self.accounts@.take(i as int));
            assert(self.accounts@.take(i + 1).last() == *account);
            let ghost before = views(lines@);
            if account.enable {
                let mut line = safe_field(account.id.as_str());
                push_str(&mut line, " enabled ");
                push_str(&mut line, safe_field(account.backend_kind()).as_str());
                push_str(&mut line, " ");
                push_field_or_dash(&mut line, &account.default_calendar);
                push_str(&mut line, " ");
                push_field_or_dash(&mut line, &account.timezone);
                push_str(&mut line, " ");
                push_field_or_dash(&mut line, &account.display_name);
                assert(line@ =~= account_line(*account));
                lines.push(line);
                assert(views(lines@) =~= before.push(account_line(*account)));
            }
            i = i + 1;
        }
        assert(self.accounts@.take(self.accounts@.len() as int) =~= self.accounts@);
        crate::text::join_strings(&lines, "\n")
    }

    /// The account with id `account_id`, when the module and the account
    /// are enabled.
    pub fn account_by_id(&self, account_id: &str) -> (res: Result<&ValidatedAccount, String>)
        ensures
            match account_index(self.accounts@, account_id@) {
                None => res matches Err(e) && e@ == "unknown calendar account `"@ + account_id@ + "`"@,
                Some(i) => if !self.enable {
                    res matches Err(e) && e@ == "calendar module is disabled"@
                } else if !self.accounts@[i].enable {
                    res matches Err(e) && e@ == "calendar account `"@ + account_id@ + "` is disabled"@
                } else {
                    res matches Ok(a) && *a == self.accounts@[i]
                },
            },
    {
        let mut i: usize = self.accounts.len();
        assert(self.accounts@.take(i as int) =~= self.accounts@);
        while i > 0
            invariant
                i <= self.accounts@.len(),
                account_index(self.accounts@, account_id@) == account_index(self.accounts@.take(i as int), account_id@),
            decreases i,
        {
            let account = &self.accounts[i - 1];
            assert(self.accounts@.take(i as int).drop_last() =~= self.accounts@.take(i - 1));
            assert(self.accounts@.take(i as int).last() == *account);
            if str_eq(account.id.as_str(), account_id) {
                if !self.enable {
                    return Err(owned("calendar module is disabled"));
                }
                if !account.enable {
                    let mut msg = owned("calendar account `");
                    push_str(&mut msg, account_id);
                    push_str(&mut msg, "` is disabled");
                    assert(msg@ =~= "calendar account `"@ + account_id@ + "` is disabled"@);
                    return Err(msg);
                }
                return Ok(account);
            }
            i = i - 1;
        }
        let mut msg = owned("unknown calendar account `");
        push_str(&mut msg, account_id);
        push_str(&mut msg, "`");
        assert(msg@ =~= "unknown calendar account `"@ + account_id@ + "`"@);
        Err(msg)
    }

    /// The enabled accounts, in order.
    fn enabled(&self) -> (res: Vec<&ValidatedAccount>)
        ensures
            res@.len() == enabled_accounts(self.accounts@).len(),
            forall|k: int| 0 <= k < res@.len() ==> *res@[k] == enabled_accounts(self.accounts@)[k],
    {
        let mut out: Vec<&ValidatedAccount> = Vec::new();
        let mut i: usize = 0;
        while i < self.accounts.len()
            invariant
                i <= self.accounts@.len(),
                out@.len() == enabled_accounts(self.accounts@.take(i as int)).len(),
                forall|k: int| 0 <= k < out@.len() ==> *out@[k] == enabled_accounts(self.accounts@.take(i as int))[k],
            decreases self.accounts@.len() - i,
        {
            let account = &self.accounts[i];
            assert(self.accounts@.take(i + 1).drop_last() =~= self.accounts@.take(i as int));
            assert(self.accounts@.take(i + 1).last() == *account);
            if account.enable {
                out.push(account);
            }
            i = i + 1;
        }
        assert(self.accounts@.take(self.accounts@.len() as int) =~= self.accounts@);
        out
    }

    /// The accounts a read covers: the named one, or every enabled account.
    pub fn accounts_for_read(&self, account: Option<&str>) -> (res: Result<Vec<&ValidatedAccount>, String>)
        ensures
            match account {
                Some(id) => match account_index(self.accounts@, id@) {
                    None => res matches Err(e) && e@ == "unknown calendar account `"@ + id@ + "`"@,
                    Some(i) => if !self.enable {
                        res matches Err(e) && e@ == "calendar module is disabled"@
                    } else if !self.accounts@[i].enable {
                        res matches Err(e) && e@ == "calendar account `"@ + id@ + "` is disabled"@
                    } else {
                        res matches Ok(v) && v@.len() == 1 && *v@[0] == self.accounts@[i]
                    },
                },
                None => res matches Ok(v) && v@.len() == enabled_accounts(self.accounts@).len()
                    && forall|k: int| 0 <= k < v@.len() ==> *v@[k] == enabled_accounts(self.accounts@)[k],
            },
    {
        match account {
            Some(id) => {
                let a = self.account_by_id(id)?;
                let mut v: Vec<&ValidatedAccount> = Vec::new();
                v.push(a);
                Ok(v)
            },
            None => Ok(self.enabled()),
        }
    }

    /// The one account a command applies to: the named one, or the only
    /// enabled account.
    pub fn single_account(&self, account: Option<&str>) -> (res: Result<&ValidatedAccount, String>)
        ensures
            match account {
                Some(id) => match account_index(self.accounts@, id@) {
                    None => res matches Err(e) && e@ == "unknown calendar account `"@ + id@ + "`"@,
                    Some(i) => if !self.enable {
                        res matches Err(e) && e@ == "calendar module is disabled"@
                    } else if !self.accounts@[i].enable {
                        res matches Err(e) && e@ == "calendar account `"@ + id@ + "` is disabled"@
                    } else {
                        res matches Ok(a) && *a == self.accounts@[i]
                    },
                },
                None => if enabled_accounts(self.accounts@).len() == 0 {
                    res matches Err(e) && e@ == "no enabled calendar accounts are configured"@
                } else if enabled_accounts(self.accounts@).len() > 1 {
                    res matches Err(e) && e@ == "account is required when multiple calendar accounts are enabled"@
                } else {
                    res matches Ok(a) && *a == enabled_accounts(self.accounts@)[0]
                },
            },
    {
        match account {
            Some(id) => self.account_by_id(id),
            None => {
                let accounts = self.enabled();
                if accounts.len() == 0 {
                    Err(owned("no enabled calendar accounts are configured"))
                } else if accounts.len() > 1 {
                    Err(owned("account is required when multiple calendar accounts are enabled"))
                } else {
                    Ok(accounts[0])
                }
            },
        }
    }
}

/// Default number of events listed.
pub const DEFAULT_EVENT_LIMIT: u32 = 50;

/// Largest number of events listed.
pub const MAX_EVENT_LIMIT: u32 = 100;

/// The number of events to list: the default when absent, capped at the
/// maximum; zero is refused.
pub fn normalized_limit(limit: Option<u32>) -> (res: Result<usize, String>)
    ensures
        ({
            let l = match limit { Some(x) => x, None => DEFAULT_EVENT_LIMIT };
            if l == 0 {
                res matches Err(e) && e@ == "limit must be a positive integer"@
            } else {
                res == Ok::<usize, String>(if l > MAX_EVENT_LIMIT { MAX_EVENT_LIMIT as usize } else { l as usize })
            }
        }),
{
    let limit = match limit {
        Some(x) => x,
        None => DEFAULT_EVENT_LIMIT,
    };
    if limit == 0 {
        return Err(owned("limit must be a positive integer"));
    }
    let capped = if MAX_EVENT_LIMIT < limit { MAX_EVENT_LIMIT } else { limit };
    Ok(capped as usize)
}

/// A required argument: present and not blank, else `<name> is required`.
pub fn required_arg<'a>(value: Option<&'a str>, name: &str) -> (res: Result<&'a str, String>)
    ensures
        match value {
            Some(v) if !blank(v@) => res == Ok::<&str, String>(v),
            _ => res matches Err(e) && e@ == name@ + " is required"@,
        },
{
    match value {
        Some(v) => {
            if !is_blank(v) {
                return Ok(v);
            }
        },
        None => {},
    }
    let mut msg = owned(name);
    push_str(&mut msg, " is required");
    Err(msg)
}

/// One event read from a calendar backend.
pub struct IcsEvent {
    pub id: String,
    pub uid: String,
    pub start: String,
    pub end: String,
    pub summary: String,
    pub status: Option<String>,
    pub location: Option<String>,
    pub organizer: Option<String>,
    pub attendees: Vec<String>,
    pub description: Option<String>,
    /// The event recurs, and its recurrence was not expanded.
    pub recurring: bool,
    /// Its start or end could not be parsed.
    pub time_unparsed: bool,
}

/// The flags of an event: always `read_only`, then what applies.
pub open spec fn event_flags_text(recurring: bool, time_unparsed: bool) -> Seq<char> {
    "read_only"@ + (if recurring { ",recurring_unexpanded"@ } else { Seq::empty() })
        + (if time_unparsed { ",time_unparsed"@ } else { Seq::empty() })
}

/// The comma-separated flags of an event.
pub fn event_flags(event: &IcsEvent) -> (res: String)
    ensures
        res@ == event_flags_text(event.recurring, event.time_unparsed),
{
    let mut flags = owned("read_only");
    if event.recurring {
        push_str(&mut flags, ",recurring_unexpanded");
    }
    if event.time_unparsed {
        push_str(&mut flags, ",time_unparsed");
    }
    assert(flags@ =~= event_flags_text(event.recurring, event.time_unparsed));
    flags
}

/// One event's line in an event list.
pub open spec fn event_line(account_id: Seq<char>, calendar: Seq<char>, e: IcsEvent) -> Seq<char> {
    safe_field_text(account_id) + " "@ + safe_field_text(calendar) + " "@ + safe_field_text(e.id@) + " "@
        + safe_field_text(e.start@) + " "@ + safe_field_text(e.end@) + " "@
        + event_flags_text(e.recurring, e.time_unparsed) + " "@ + safe_field_text(or_dash(e.status)) + " "@
        + safe_field_text(e.summary@)
}

/// One event as a line: account, calendar, id, start, end, flags, status
/// (`-` when unknown) and summary.
pub fn format_event_line(account: &ValidatedAccount, calendar: &str, event: &IcsEvent) -> (res: String)
    ensures
        res@ == event_line(account.id@, calendar@, *event),
{
    let mut line = safe_field(account.id.as_str());
    push_str(&mut line, " ");
    push_str(&mut line, safe_field(calendar).as_str());
    push_str(&mut line, " ");
    push_str(&mut line, safe_field(event.id.as_str()).as_str());
    push_str(&mut line, " ");
    push_str(&mut line, safe_field(event.start.as_str()).as_str());
    push_str(&mut line, " ");
    push_str(&mut line, safe_field(event.end.as_str()).as_str());
    push_str(&mut line, " ");
    push_str(&mut line, event_flags(event).as_str());
    push_str(&mut line, " ");
    push_field_or_dash(&mut line, &event.status);
    push_str(&mut line, " ");
    push_str(&mut line, safe_field(event.summary.as_str()).as_str());
    assert(line@ =~= event_line(account.id@, calendar@, *event));
    line
}

/// The detail lines of an event, `key value` each.
pub open spec fn event_detail_lines(account_id: Seq<char>, calendar: Seq<char>, e: IcsEvent) -> Seq<Seq<char>> {
    seq![
        "format: key value"@,
        "account "@ + safe_field_text(account_id),
        "calendar "@ + safe_field_text(calendar),
        "event_id "@ + safe_field_text(e.id@),
        "uid "@ + safe_field_text(e.uid@),
        "start "@ + safe_field_text(e.start@),
        "end "@ + safe_field_text(e.end@),
        "flags "@ + event_flags_text(e.recurring, e.time_unparsed),
        "summary "@ + safe_field_text(e.summary@),
    ]
    + (match e.status { Some(s) => seq!["status "@ + safe_field_text(s@)], None => Seq::empty() })
    + (match e.location { Some(s) => seq!["location "@ + safe_field_text(s@)], None => Seq::empty() })
    + (match e.organizer { Some(s) => seq!["organizer "@ + safe_field_text(s@)], None => Seq::empty() })
    + (if e.attendees@.len() > 0 { seq!["attendees "@ + safe_field_text(join(views(e.attendees@), ","@))] } else { Seq::empty() })
    + (match e.description { Some(s) => seq!["description "@ + safe_multiline_text(s@)], None => Seq::empty() })
}

fn labeled(label: &str, value: String) -> (res: String)
    ensures
        res@ == label@ + value@,
{
    let mut s = owned(label);
    push_str(&mut s, value.as_str());
    s
}

/// All details of an event, one `key value` line each; optional details
/// only when present.
pub fn format_event_detail(account: &ValidatedAccount, calendar: &str, event: &IcsEvent) -> (res: String)
    ensures
        res@ == join(event_detail_lines(account.id@, calendar@, *event), seq!['\n']),
{
    let mut lines: Vec<String> = Vec::new();
    lines.push(owned("format: key value"));
    lines.push(labeled("account ", safe_field(account.id.as_str())));
    lines.push(labeled("calendar ", safe_field(calendar)));
    lines.push(labeled("event_id ", safe_field(event.id.as_str())));
    lines.push(labeled("uid ", safe_field(event.uid.as_str())));
    lines.push(labeled("start ", safe_field(event.start.as_str())));
    lines.push(labeled("end ", safe_field(event.end.as_str())));
    lines.push(labeled("flags ", event_flags(event)));
    lines.push(labeled("summary ", safe_field(event.summary.as_str())));
    let ghost base = views(lines@);
    match &event.status {
        Some(s) => lines.push(labeled("status ", safe_field(s.as_str()))),
        None => {},
    }
    let ghost b1 = views(lines@);
    match &event.location {
        Some(s) => lines.push(labeled("location ", safe_field(s.as_str()))),
        None => {},
    }
    let ghost b2 = views(lines@);
    match &event.organizer {
        Some(s) => lines.push(labeled("organizer ", safe_field(s.as_str()))),
        None => {},
    }
    let ghost b3 = views(lines@);
    if event.attendees.len() > 0 {
        proof {
            reveal_strlit(",");
        }
        let joined = crate::text::join_strings(&event.attendees, ",");
        lines.push(labeled("attendees ", safe_field(joined.as_str())));
    }
    let ghost b4 = views(lines@);
    match &event.description {
        Some(s) => lines.push(labeled("description ", safe_multiline(s.as_str()))),
        None => {},
    }
    proof {
        reveal_strlit("\n");
    }
    assert("\n"@ =~= seq!['\n']);
    assert(views(lines@) =~= event_detail_lines(account.id@, calendar@, *event));
    crate::text::join_strings(&lines, "\n")
}

/// Format line of an event list.
pub const LIST_EVENTS_FORMAT: &'static str = "format: account calendar event_id start end flags status summary";

/// Format line of a free/busy list.
pub const FREE_BUSY_FORMAT: &'static str = "format: account calendar event_id start end flags";

/// One event's line in a free/busy list: no status and no summary.
pub open spec fn busy_line(account_id: Seq<char>, calendar: Seq<char>, e: IcsEvent) -> Seq<char> {
    safe_field_text(account_id) + " "@ + safe_field_text(calendar) + " "@ + safe_field_text(e.id@) + " "@
        + safe_field_text(e.start@) + " "@ + safe_field_text(e.end@) + " "@
        + event_flags_text(e.recurring, e.time_unparsed)
}

/// One event as a busy block: account, calendar, id, start, end and flags.
pub fn format_busy_line(account: &ValidatedAccount, calendar: &str, event: &IcsEvent) -> (res: String)
    ensures
        res@ == busy_line(account.id@, calendar@, *event),
{
    let mut line = safe_field(account.id.as_str());
    push_str(&mut line, " ");
    push_str(&mut line, safe_field(calendar).as_str());
    push_str(&mut line, " ");
    push_str(&mut line, safe_field(event.id.as_str()).as_str());
    push_str(&mut line, " ");
    push_str(&mut line, safe_field(event.start.as_str()).as_str());
    push_str(&mut line, " ");
    push_str(&mut line, safe_field(event.end.as_str()).as_str());
    push_str(&mut line, " ");
    push_str(&mut line, event_flags(event).as_str());
    assert(line@ =~= busy_line(account.id@, calendar@, *event));
    line
}

/// The answer to an event read: a format line, then one line per event,
/// in order; busy blocks only, or full event lines.
pub open spec fn events_answer(account_id: Seq<char>, calendar: Seq<char>, events: Seq<IcsEvent>, busy_only: bool) -> Seq<char> {
    join(
        seq![if busy_only { FREE_BUSY_FORMAT@ } else { LIST_EVENTS_FORMAT@ }] + Seq::new(
            events.len(),
            |i: int| if busy_only { busy_line(account_id, calendar, events[i]) } else { event_line(account_id, calendar, events[i]) },
        ),
        seq!['\n'],
    )
}

/// The `list_events` answer (`busy_only` false) or the `free_busy` answer
/// (`busy_only` true) for the events read from one calendar.
pub fn format_events(account: &ValidatedAccount, calendar: &str, events: &Vec<IcsEvent>, busy_only: bool) -> (res: String)
    ensures
        res@ == events_answer(account.id@, calendar@, events@, busy_only),
{
    let mut lines: Vec<String> = Vec::new();
    lines.push(owned(if busy_only { FREE_BUSY_FORMAT } else { LIST_EVENTS_FORMAT }));
    let mut i: usize = 0;
    while i < events.len()
        invariant
            i <= events@.len(),
            views(lines@) == seq![if busy_only { FREE_BUSY_FORMAT@ } else { LIST_EVENTS_FORMAT@ }] + Seq::new(
                i as nat,
                |k: int| if busy_only { busy_line(account.id@, calendar@, events@[k]) } else { event_line(account.id@, calendar@, events@[k]) },
            ),
        decreases events@.len() - i,
    {
        let ghost before = views(lines@);
        let line = if busy_only { format_busy_line(account, calendar, &events[i]) } else { format_event_line(account, calendar, &events[i]) };
        let ghost lv = line@;
        lines.push(line);
        assert(views(lines@) =~= before.push(lv));
        i = i + 1;
        assert(views(lines@) =~= seq![if busy_only { FREE_BUSY_FORMAT@ } else { LIST_EVENTS_FORMAT@ }] + Seq::new(
            i as nat,
            |k: int| if busy_only { busy_line(account.id@, calendar@, events@[k]) } else { event_line(account.id@, calendar@, events@[k]) },
        ));
    }
    proof {
        reveal_strlit("\n");
    }
    assert("\n"@ =~= seq!['\n']);
    crate::text::join_strings(&lines, "\n")
}

/// Format line of a calendar list.
pub const LIST_CALENDARS_FORMAT: &'static str = "format: account calendar flags backend display_name";

/// A calendar a backend lists for an account.
pub struct CalendarListing {
    pub id: String,
    pub display_name: String,
    pub read_only: bool,
}

/// One calendar's line: account, calendar id, `read_only` or `writable`,
/// backend kind and display name.
pub open spec fn calendar_line(account: ValidatedAccount, c: CalendarListing) -> Seq<char> {
    safe_field_text(account.id@) + " "@ + safe_field_text(c.id@) + " "@
        + (if c.read_only { "read_only"@ } else { "writable"@ }) + " "@
        + safe_field_text(backend_kind_name(account.backend)) + " "@ + safe_field_text(c.display_name@)
}

/// The calendar lines of the first `n` accounts: only accounts with an
/// iCalendar feed list calendars; each lists its own, in order.
pub open spec fn calendar_lines(accounts: Seq<&ValidatedAccount>, listings: Seq<Vec<CalendarListing>>, n: nat) -> Seq<Seq<char>>
    decreases n,
{
    if n == 0 {
        Seq::empty()
    } else {
        let a = *accounts[n - 1];
        let own: Seq<Seq<char>> = if a.backend matches Some(ValidatedBackendConfig::IcsFeed { .. }) {
            Seq::new(listings[n - 1]@.len(), |k: int| calendar_line(a, listings[n - 1]@[k]))
        } else {
            Seq::empty()
        };
        calendar_lines(accounts, listings, (n - 1) as nat) + own
    }
}

/// The `list_calendars` answer for the accounts read, `listings[k]` being
/// what the backend listed for `accounts[k]`: a format line, then one line
/// per calendar of each iCalendar feed account.
pub fn format_calendars(accounts: &Vec<&ValidatedAccount>, listings: &Vec<Vec<CalendarListing>>) -> (res: String)
    requires
        accounts@.len() == listings@.len(),
    ensures
        res@ == join(seq![LIST_CALENDARS_FORMAT@] + calendar_lines(accounts@, listings@, accounts@.len()), seq!['\n']),
{
    let mut lines: Vec<String> = Vec::new();
    lines.push(owned(LIST_CALENDARS_FORMAT));
    let mut i: usize = 0;
    while i < accounts.len()
        invariant
            accounts@.len() == listings@.len(),
            i <= accounts@.len(),
            views(lines@) == seq![LIST_CALENDARS_FORMAT@] + calendar_lines(accounts@, listings@, i as nat),
        decreases accounts@.len() - i,
    {
        let account: &ValidatedAccount = accounts[i];
        let ghost start = views(lines@);
        let is_feed = match &account.backend {
            Some(ValidatedBackendConfig::IcsFeed { .. }) => true,
            _ => false,
        };
        if is_feed {
            let cals = &listings[i];
            let mut j: usize = 0;
            while j < cals.len()
                invariant
                    j <= cals@.len(),
                    cals@ == listings@[i as int]@,
                    *accounts@[i as int] == *account,
                    views(lines@) == start + Seq::new(j as nat, |k: int| calendar_line(*account, cals@[k])),
                decreases cals@.len() - j,
            {
                let c = &cals[j];
                let mut line = safe_field(account.id.as_str());
                push_str(&mut line, " ");
                push_str(&mut line, safe_field(c.id.as_str()).as_str());
                push_str(&mut line, " ");
                push_str(&mut line, if c.read_only { "read_only" } else { "writable" });
                push_str(&mut line, " ");
                push_str(&mut line, safe_field(account.backend_kind()).as_str());
                push_str(&mut line, " ");
                push_str(&mut line, safe_field(c.display_name.as_str()).as_str());
                assert(line@ =~= calendar_line(*account, cals@[j as int]));
                let ghost before = views(lines@);
                let ghost lv = line@;
                lines.push(line);
                assert(views(lines@) =~= before.push(lv));
                j = j + 1;
                assert(views(lines@) =~= start + Seq::new(j as nat, |k: int| calendar_line(*account, cals@[k])));
            }
            assert(views(lines@) =~= seq![LIST_CALENDARS_FORMAT@] + calendar_lines(accounts@, listings@, (i + 1) as nat));
        } else {
            assert(views(lines@) =~= seq![LIST_CALENDARS_FORMAT@] + calendar_lines(accounts@, listings@, (i + 1) as nat));
        }
        i = i + 1;
    }
    proof {
        reveal_strlit("\n");
    }
    assert("\n"@ =~= seq!['\n']);
    crate::text::join_strings(&lines, "\n")
}

/// The error for an operation the account's backend cannot do yet.
pub open spec fn unsupported_text(account_id: Seq<char>, b: Option<ValidatedBackendConfig>, operation: Seq<char>) -> Seq<char> {
    "calendar account `"@ + account_id + "` backend `"@ + backend_kind_name(b) + "` does not support "@ + operation + " yet"@
}

/// The error for `operation` on an account whose backend cannot do it
/// yet: `event reads` for listings, `read_event` for single reads.
pub fn unsupported_backend_error(account: &ValidatedAccount, operation: &str) -> (res: String)
    ensures
        res@ == unsupported_text(account.id@, account.backend, operation@),
{
    let mut msg = owned("calendar account `");
    push_str(&mut msg, account.id.as_str());
    push_str(&mut msg, "` backend `");
    push_str(&mut msg, account.backend_kind());
    push_str(&mut msg, "` does not support ");
    push_str(&mut msg, operation);
    push_str(&mut msg, " yet");
    msg
}

/// The error for a write command, which read-only backends refuse.
pub fn write_unavailable_error(command: CalendarCommand) -> (res: String)
    ensures
        res@ == "calendar command `"@ + command_text(command) + "` is not available for read-only backends yet"@,
{
    let mut msg = owned("calendar command `");
    push_str(&mut msg, command_name(command));
    push_str(&mut msg, "` is not available for read-only backends yet");
    msg
}

/// The error for calls to a module whose configuration was rejected.
fn rejection_text(reason: &str) -> (res: String)
    ensures
        res@ == "calendar module configuration was rejected: "@ + reason@,
{
    let mut msg = owned("calendar module configuration was rejected: ");
    push_str(&mut msg, reason);
    msg
}

impl RuntimeState {
    /// Why tool calls cannot run: the module is not configured, or its
    /// configuration was rejected; none once it is configured.
    pub fn unavailable_reason(&self) -> (res: Option<String>)
        ensures
            match self.config_state {
                ConfigState::Unconfigured => res matches Some(m) && m@ == "calendar module has not been configured"@,
                ConfigState::Rejected { reason } => res matches Some(m)
                    && m@ == "calendar module configuration was rejected: "@ + reason@,
                ConfigState::Configured { .. } => res is None,
            },
    {
        match &self.config_state {
            ConfigState::Unconfigured => Some(owned("calendar module has not been configured")),
            ConfigState::Rejected { reason } => Some(rejection_text(reason.as_str())),
            ConfigState::Configured { .. } => None,
        }
    }
}

/// `res` is the event that answers the call `invoke` with `answer`: the
/// answer text as its result, or the error message.
pub open spec fn answers(invoke: crate::tool::ToolStarted, answer: Result<String, String>, res: crate::tool::ToolOutcome) -> bool {
    match answer {
        Ok(text) => {
            &&& crate::tool::final_result_of(res, invoke, crate::tool::PromptOriginator::User)
            &&& res matches crate::tool::ToolOutcome::Result { result, display, .. }
                && result@ == crate::cbor::CborView::Text(text@) && display is None
        },
        Err(message) => {
            &&& crate::tool::error_of(res, invoke, crate::tool::PromptOriginator::User, message@)
            &&& res matches crate::tool::ToolOutcome::Error { details, display, .. } && details is None && display is None
        },
    }
}

/// The event that answers the calendar call `invoke`: the answer text as
/// its result, or the error message.
pub fn answer_call(invoke: crate::tool::ToolStarted, answer: Result<String, String>) -> (res: crate::tool::ToolOutcome)
    ensures
        answers(invoke, answer, res),
{
    match answer {
        Ok(text) => crate::tool::ToolOutcome::Result {
            call_id: invoke.call_id,
            tool_name: invoke.tool_name,
            tool_type: crate::tool::ToolType::Function,
            result: crate::cbor::CborValue::Text(text),
            kind: crate::tool::ToolResultKind::Final,
            display: None,
            originator: crate::tool::PromptOriginator::User,
        },
        Err(message) => crate::tool::ToolOutcome::Error {
            call_id: invoke.call_id,
            tool_name: invoke.tool_name,
            tool_type: crate::tool::ToolType::Function,
            message,
            details: None,
            display: None,
            originator: crate::tool::PromptOriginator::User,
        },
    }
}

/// `res` is how a module in `config_state` answers the calendar call
/// `invoke`, a configured module with an answer of `engine`.
pub open spec fn dispatched<F>(config_state: ConfigState, invoke: crate::tool::ToolStarted, engine: F, res: crate::tool::ToolOutcome) -> bool
    where
        F: FnOnce(&ValidatedConfig, &Vec<(String, SecretValue)>, &crate::cbor::CborValue) -> Result<String, String>,
{
    match config_state {
        ConfigState::Unconfigured => exists|m: String| m@ == "calendar module has not been configured"@
            && #[trigger] answers(invoke, Err(m), res),
        ConfigState::Rejected { reason } => exists|m: String| m@ == "calendar module configuration was rejected: "@ + reason@
            && #[trigger] answers(invoke, Err(m), res),
        ConfigState::Configured { config, secrets } => exists|r: Result<String, String>|
            engine.ensures((&config, &secrets, &invoke.arguments), r) && #[trigger] answers(invoke, r, res),
    }
}

impl RuntimeState {
    /// Answers one `calendar` tool call: a configured module runs `engine`
    /// on its configuration, the authorized secrets and the call's
    /// arguments, and answers with what it returns; otherwise the call is
    /// refused with the reason the module cannot serve it.
    pub fn dispatch<F>(&self, invoke: crate::tool::ToolStarted, engine: F) -> (res: crate::tool::ToolOutcome)
        where
            F: FnOnce(&ValidatedConfig, &Vec<(String, SecretValue)>, &crate::cbor::CborValue) -> Result<String, String>,
        requires
            forall|c: &ValidatedConfig, s: &Vec<(String, SecretValue)>, a: &crate::cbor::CborValue| engine.requires((c, s, a)),
        ensures
            dispatched(self.config_state, invoke, engine, res),
    {
        match &self.config_state {
            ConfigState::Configured { config, secrets } => {
                let answer = engine(config, secrets, &invoke.arguments);
                answer_call(invoke, answer)
            },
            ConfigState::Unconfigured => answer_call(invoke, Err(owned("calendar module has not been configured"))),
            ConfigState::Rejected { reason } => answer_call(invoke, Err(rejection_text(reason.as_str()))),
        }
    }
}

/// Calendar commands of the tool.
#[derive(Clone, Copy, Debug, PartialEq, Eq, Structural)]
pub enum CalendarCommand {
    ListAccounts,
    ListCalendars,
    ListEvents,
    ReadEvent,
    FreeBusy,
    CreateEvent,
    UpdateEvent,
    DeleteEvent,
    RespondInvite,
}

/// The wire name of a calendar command.
pub open spec fn command_text(command: CalendarCommand) -> Seq<char> {
    match command {
        CalendarCommand::ListAccounts => "list_accounts"@,
        CalendarCommand::ListCalendars => "list_calendars"@,
        CalendarCommand::ListEvents => "list_events"@,
        CalendarCommand::ReadEvent => "read_event"@,
        CalendarCommand::FreeBusy => "free_busy"@,
        CalendarCommand::CreateEvent => "create_event"@,
        CalendarCommand::UpdateEvent => "update_event"@,
        CalendarCommand::DeleteEvent => "delete_event"@,
        CalendarCommand::RespondInvite => "respond_invite"@,
    }
}

/// The wire name of a calendar command.
pub fn command_name(command: CalendarCommand) -> (res: &'static str)
    ensures
        res@ == command_text(command),
        res@ == (match command {
            CalendarCommand::ListAccounts => "list_accounts"@,
            CalendarCommand::ListCalendars => "list_calendars"@,
            CalendarCommand::ListEvents => "list_events"@,
            CalendarCommand::ReadEvent => "read_event"@,
            CalendarCommand::FreeBusy => "free_busy"@,
            CalendarCommand::CreateEvent => "create_event"@,
            CalendarCommand::UpdateEvent => "update_event"@,
            CalendarCommand::DeleteEvent => "delete_event"@,
            CalendarCommand::RespondInvite => "respond_invite"@,
        }),
{
    match command {
        CalendarCommand::ListAccounts => "list_accounts",
        CalendarCommand::ListCalendars => "list_calendars",
        CalendarCommand::ListEvents => "list_events",
        CalendarCommand::ReadEvent => "read_event",
        CalendarCommand::FreeBusy => "free_busy",
        CalendarCommand::CreateEvent => "create_event",
        CalendarCommand::UpdateEvent => "update_event",
        CalendarCommand::DeleteEvent => "delete_event",
        CalendarCommand::RespondInvite => "respond_invite",
    }
}

/// What the engine does with one call's arguments.
pub enum CalendarRoute {
    /// The call is answered with this text or error right away.
    Answer(Result<String, String>),
    /// A read command that needs the account's backend.
    Read(CalendarCommand),
}

/// Whether a command writes to a calendar.
pub open spec fn is_write(command: CalendarCommand) -> bool {
    command == CalendarCommand::CreateEvent || command == CalendarCommand::UpdateEvent
        || command == CalendarCommand::DeleteEvent || command == CalendarCommand::RespondInvite
}

/// Routes a call once its arguments were decoded (`Err` holds the
/// decoder's message): undecodable arguments are an error, the account
/// list is answered from the configuration, write commands are refused
/// while backends are read-only, and the other commands read from the
/// backend.
pub fn route_calendar_command(config: &ValidatedConfig, decoded: Result<CalendarCommand, String>) -> (res: CalendarRoute)
    ensures
        match decoded {
            Err(e) => res matches CalendarRoute::Answer(Err(m)) && m@ == "invalid calendar tool arguments: "@ + e@,
            Ok(command) => if command == CalendarCommand::ListAccounts {
                res matches CalendarRoute::Answer(Ok(text)) && text@ == join(
                    seq![accounts_header()] + (if config.enable { enabled_account_lines(config.accounts@) } else { Seq::empty() }),
                    seq!['\n'],
                )
            } else if is_write(command) {
                res matches CalendarRoute::Answer(Err(m))
                    && m@ == "calendar command `"@ + command_text(command) + "` is not available for read-only backends yet"@
            } else {
                res == CalendarRoute::Read(command)
            },
        },
{
    match decoded {
        Err(e) => {
            let mut m = owned("invalid calendar tool arguments: ");
            push_str(&mut m, e.as_str());
            CalendarRoute::Answer(Err(m))
        },
        Ok(command) => match command {
            CalendarCommand::ListAccounts => CalendarRoute::Answer(Ok(config.list_accounts())),
            CalendarCommand::CreateEvent
            | CalendarCommand::UpdateEvent
            | CalendarCommand::DeleteEvent
            | CalendarCommand::RespondInvite => CalendarRoute::Answer(Err(write_unavailable_error(command))),
            _ => CalendarRoute::Read(command),
        },
    }
}

} // verus!
