//! Authentication and authorization (including ACL topic-level access control).
//!
//! # ACL File Format
//!
//! Each non-empty, non-comment (`#`) line defines one rule:
//!
//! ```text
//! user <username> topic <publish|subscribe|readwrite> <topic_filter>
//! ```
//!
//! Rules are evaluated in order; a user may publish (subscribe) where some
//! rule of theirs grants it. If no rule does, access is denied (default-deny).

use vstd::prelude::*;
use crate::config::AuthMethod;
use crate::common::{topic_levels, filter_levels_match, levels_match};
use crate::text::{
    chars_of, char_vecs_view, split_chars, split_chars_exec, join_chars, join_chars_exec,
    chars_eq, trimmed, trim_whitespace, string_from_chars, str_eq, text_lines, lines_exec,
    find_char, find_char_exec,
};
use crate::v3::types::ConnectReturnCode;
use crate::v5::types::ReasonCode;

verus! {

/// Reason for authentication failure.
#[derive(Debug, Clone, Copy, PartialEq, Eq, Structural)]
pub enum AuthErrorKind {
    /// Invalid username or password (used with file-based auth).
    BadUsernameOrPassword,
    /// Anonymous connections are not allowed.
    AnonymousDisallowed,
    /// Client not authorized (generic).
    NotAuthorized,
}

/// Authentication result.
#[derive(Debug, Clone, PartialEq, Eq)]
pub enum AuthResult {
    /// Authentication successful, with username.
    Success { username: String },
    /// Authentication denied.
    Denied { reason: AuthErrorKind },
}

impl AuthErrorKind {
    /// Return the MQTT 3.1.1 CONNACK return code for this error: every
    /// authentication failure is refused as not authorized (0x05).
    pub fn to_v3_return_code(&self) -> (c: ConnectReturnCode)
        ensures
            c == ConnectReturnCode::NotAuthorized,
    {
        match self {
            AuthErrorKind::BadUsernameOrPassword => ConnectReturnCode::NotAuthorized,
            AuthErrorKind::AnonymousDisallowed => ConnectReturnCode::NotAuthorized,
            AuthErrorKind::NotAuthorized => ConnectReturnCode::NotAuthorized,
        }
    }

    /// Return the MQTT 5.0 reason code for this error.
    pub fn to_v5_reason_code(&self) -> (c: ReasonCode)
        ensures
            c == (match *self {
                AuthErrorKind::BadUsernameOrPassword => ReasonCode::BadUserNameOrPassword,
                _ => ReasonCode::NotAuthorized,
            }),
    {
        match self {
            AuthErrorKind::BadUsernameOrPassword => ReasonCode::BadUserNameOrPassword,
            AuthErrorKind::AnonymousDisallowed => ReasonCode::NotAuthorized,
            AuthErrorKind::NotAuthorized => ReasonCode::NotAuthorized,
        }
    }
}

/// What an authentication decision says.
pub enum AuthOutcome {
    Success(Seq<char>),
    Denied(AuthErrorKind),
}

impl View for AuthResult {
    type V = AuthOutcome;

    open spec fn view(&self) -> AuthOutcome {
        match self {
            AuthResult::Success { username } => AuthOutcome::Success(username@),
            AuthResult::Denied { reason } => AuthOutcome::Denied(*reason),
        }
    }
}

/// The credentials a password-file line gives: the trimmed text before its
/// first ':' and the trimmed text after it; a line without ':' gives none.
pub open spec fn spec_credential_line(line: Seq<char>) -> Option<(Seq<char>, Seq<char>)> {
    match find_char(line, ':') {
        None => None,
        Some(i) => Some((trimmed(line.take(i as int)), trimmed(line.skip(i as int + 1)))),
    }
}

/// The credentials of the given password-file lines, in order.
pub open spec fn spec_credentials(lines: Seq<Seq<char>>) -> Seq<(Seq<char>, Seq<char>)>
    decreases lines.len(),
{
    if lines.len() == 0 {
        Seq::empty()
    } else {
        let prev = spec_credentials(lines.drop_last());
        match spec_credential_line(lines.last()) {
            Some(c) => prev.push(c),
            None => prev,
        }
    }
}

/// Who authenticates how: the decision for a method (file-based or not),
/// its known credentials, whether anonymous clients are allowed, and the
/// username and password a client gave.
pub open spec fn spec_authenticate(
    file_based: bool,
    users: Seq<(Seq<char>, Seq<char>)>,
    allow_anonymous: bool,
    username: Option<Seq<char>>,
    password: Option<Seq<char>>,
) -> AuthOutcome {
    if !file_based {
        if allow_anonymous {
            AuthOutcome::Success(
                match username {
                    Some(u) => u,
                    None => "anonymous"@,
                },
            )
        } else {
            match username {
                Some(u) => AuthOutcome::Success(u),
                None => AuthOutcome::Denied(AuthErrorKind::AnonymousDisallowed),
            }
        }
    } else {
        match username {
            Some(u) => {
                let pass = match password {
                    Some(p) => p,
                    None => ""@,
                };
                if users.contains((u, pass)) {
                    AuthOutcome::Success(u)
                } else if allow_anonymous {
                    AuthOutcome::Success("anonymous"@)
                } else {
                    AuthOutcome::Denied(AuthErrorKind::BadUsernameOrPassword)
                }
            },
            None => if allow_anonymous {
                AuthOutcome::Success("anonymous"@)
            } else {
                AuthOutcome::Denied(AuthErrorKind::BadUsernameOrPassword)
            },
        }
    }
}

/// With a password file, a username and password that the file lists
/// authenticate as that username, whether or not anonymous access is
/// allowed; anonymous access is only the fallback for credentials the file
/// does not list, and a denial only comes when neither holds.
pub proof fn lemma_listed_credentials_authenticate(
    users: Seq<(Seq<char>, Seq<char>)>,
    allow_anonymous: bool,
    u: Seq<char>,
    p: Seq<char>,
)
    ensures
        users.contains((u, p)) ==> spec_authenticate(true, users, allow_anonymous, Some(u), Some(p))
            == AuthOutcome::Success(u),
        !users.contains((u, p)) ==> spec_authenticate(true, users, allow_anonymous, Some(u), Some(p)) == (if allow_anonymous {
            AuthOutcome::Success("anonymous"@)
        } else {
            AuthOutcome::Denied(AuthErrorKind::BadUsernameOrPassword)
        }),
        users.contains((u, ""@)) ==> spec_authenticate(true, users, allow_anonymous, Some(u), None)
            == AuthOutcome::Success(u),
{
}

/// The characters of an optional string slice.
pub open spec fn opt_str_view(s: Option<&str>) -> Option<Seq<char>> {
    match s {
        Some(v) => Some(v@),
        None => None,
    }
}

/// Simple authenticator (stage 1: authentication).
pub struct Authenticator {
    method: AuthMethod,
    /// In-memory user database for file-based auth.
    users: Vec<(String, String)>,
}

impl Authenticator {
    /// Whether credentials come from a password file.
    pub closed spec fn file_based(&self) -> bool {
        self.method is File
    }

    /// The known (username, password) pairs, in file order.
    pub closed spec fn users(&self) -> Seq<(Seq<char>, Seq<char>)> {
        self.users@.map_values(|p: (String, String)| (p.0@, p.1@))
    }

    /// An authenticator for `method`; for file-based authentication,
    /// `content` is the password file's text, one "user:password" per line.
    pub fn new(method: &AuthMethod, content: &str) -> (a: Self)
        ensures
            a.file_based() == (method is File),
            a.users() == (if method is File {
                spec_credentials(text_lines(content@))
            } else {
                Seq::empty()
            }),
    {
        match method {
            AuthMethod::Disabled => {
                let a = Authenticator { method: AuthMethod::Disabled, users: Vec::new() };
                assert(a.users() =~= Seq::<(Seq<char>, Seq<char>)>::empty());
                a
            },
            AuthMethod::File { path } => {
                let users = parse_credentials(content);
                Authenticator { method: AuthMethod::File { path: path.clone() }, users }
            },
        }
    }

    /// Authenticate a client.
    pub fn authenticate(&self, allow_anonymous: bool, username: Option<&str>, password: Option<&str>) -> (r: AuthResult)
        ensures
            r@ == spec_authenticate(
                self.file_based(),
                self.users(),
                allow_anonymous,
                opt_str_view(username),
                opt_str_view(password),
            ),
            self.file_based() ==> match (username, password) {
                (Some(u), Some(p)) => self.users().contains((u@, p@)) ==> r@ == AuthOutcome::Success(u@),
                _ => true,
            },
    {
        match &self.method {
            AuthMethod::Disabled => {
                if allow_anonymous {
                    let username = match username {
                        Some(u) => u.to_owned(),
                        None => "anonymous".to_owned(),
                    };
                    AuthResult::Success { username }
                } else {
                    match username {
                        Some(user) => AuthResult::Success { username: user.to_owned() },
                        None => AuthResult::Denied { reason: AuthErrorKind::AnonymousDisallowed },
                    }
                }
            },
            AuthMethod::File { .. } => {
                match username {
                    Some(user) => {
                        let pass = match password {
                            Some(p) => p,
                            None => "",
                        };
                        if self.has_user(user, pass) {
                            AuthResult::Success { username: user.to_owned() }
                        } else if allow_anonymous {
                            AuthResult::Success { username: "anonymous".to_owned() }
                        } else {
                            AuthResult::Denied { reason: AuthErrorKind::BadUsernameOrPassword }
                        }
                    },
                    None => {
                        if allow_anonymous {
                            AuthResult::Success { username: "anonymous".to_owned() }
                        } else {
                            AuthResult::Denied { reason: AuthErrorKind::BadUsernameOrPassword }
                        }
                    },
                }
            },
        }
    }

    /// Whether (`user`, `pass`) is among the known credentials.
    fn has_user(&self, user: &str, pass: &str) -> (b: bool)
        ensures
            b == self.users().contains((user@, pass@)),
    {
        let mut i: usize = 0;
        while i < self.users.len()
            invariant
                i <= self.users.len(),
                forall|j: int| 0 <= j < i ==> self.users()[j] != (user@, pass@),
            decreases self.users.len() - i,
        {
            let (u, p) = &self.users[i];
            if str_eq(u.as_str(), user) && str_eq(p.as_str(), pass) {
                assert(self.users()[i as int] == (user@, pass@));
                return true;
            }
            i = i + 1;
        }
        false
    }
}

/// The credentials of a password file's text.
fn parse_credentials(content: &str) -> (users: Vec<(String, String)>)
    ensures
        users@.map_values(|p: (String, String)| (p.0@, p.1@)) == spec_credentials(text_lines(content@)),
{
    let lines = lines_exec(content);
    let ghost lv = char_vecs_view(lines@);
    let mut users: Vec<(String, String)> = Vec::new();
    let mut i: usize = 0;
    while i < lines.len()
        invariant
            i <= lines.len(),
            lv == char_vecs_view(lines@),
            lv == text_lines(content@),
            users@.map_values(|p: (String, String)| (p.0@, p.1@)) == spec_credentials(lv.take(i as int)),
        decreases lines.len() - i,
    {
        let line = &lines[i];
        proof {
            assert(lv.take(i + 1).drop_last() =~= lv.take(i as int));
            assert(lv.take(i + 1).last() == line@);
        }
        let ghost before = users@.map_values(|p: (String, String)| (p.0@, p.1@));
        match find_char_exec(line.as_slice(), ':') {
            Some(k) => {
                let user_part = string_from_chars(&line.as_slice()[0..k]);
                let pass_part = string_from_chars(&line.as_slice()[k + 1..line.len()]);
                assert(line@.subrange(0, k as int) =~= line@.take(k as int));
                assert(line@.subrange(k + 1, line@.len() as int) =~= line@.skip(k + 1));
                let u = trim_whitespace(user_part.as_str()).to_owned();
                let p = trim_whitespace(pass_part.as_str()).to_owned();
                let ghost entry = (u@, p@);
                users.push((u, p));
                assert(users@.map_values(|p: (String, String)| (p.0@, p.1@)) =~= before.push(entry));
            },
            None => {},
        }
        i = i + 1;
    }
    assert(lv.take(i as int) =~= lv);
    users
}

// ──────────────────────────────────────────────────────────────────────────
// ACL (Access Control List) — stage 3: topic-level authorization
// ──────────────────────────────────────────────────────────────────────────

/// ACL operation type.
#[derive(Debug, Clone, Copy, PartialEq, Eq, Structural)]
pub enum AclAccess {
    /// Client can publish to matching topics.
    Publish,
    /// Client can subscribe to matching topics.
    Subscribe,
    /// Client can both publish and subscribe.
    ReadWrite,
}

/// A single ACL rule.
#[derive(Debug, Clone)]
pub struct AclEntry {
    /// The username this rule applies to; `*` applies to every user.
    pub username: String,
    /// Topic filter (may contain `+` / `#` wildcards).
    pub filter: String,
    /// Access type granted.
    pub access: AclAccess,
}

/// What an ACL rule says: username, access, filter.
pub open spec fn acl_entry_view(e: AclEntry) -> (Seq<char>, AclAccess, Seq<char>) {
    (e.username@, e.access, e.filter@)
}

/// ACL checker: applies topic-level authorization.
pub struct AclChecker {
    /// ACL entries, in file order.
    pub entries: Vec<AclEntry>,
    /// Whether ACL is enabled.
    pub enabled: bool,
}

/// The access a rule's access word names.
pub open spec fn spec_access_word(w: Seq<char>) -> Option<AclAccess> {
    if w == "publish"@ {
        Some(AclAccess::Publish)
    } else if w == "subscribe"@ {
        Some(AclAccess::Subscribe)
    } else if w == "readwrite"@ {
        Some(AclAccess::ReadWrite)
    } else {
        None
    }
}

/// The rule an ACL file line gives: after trimming, blank lines and comments
/// give none; otherwise the line splits at its first four spaces into
/// "user", the username, "topic", an access word, and the filter.
pub open spec fn spec_parse_acl_line(line: Seq<char>) -> Option<(Seq<char>, AclAccess, Seq<char>)> {
    let t = trimmed(line);
    if t.len() == 0 || t[0] == '#' {
        None
    } else {
        let ps = split_chars(t, ' ');
        if ps.len() < 5 || ps[0] != "user"@ || ps[2] != "topic"@ {
            None
        } else {
            match spec_access_word(ps[3]) {
                None => None,
                Some(a) => Some((ps[1], a, join_chars(ps.skip(4), ' '))),
            }
        }
    }
}

/// The rules of the given ACL file lines, in order.
pub open spec fn spec_acl_rules(lines: Seq<Seq<char>>) -> Seq<(Seq<char>, AclAccess, Seq<char>)>
    decreases lines.len(),
{
    if lines.len() == 0 {
        Seq::empty()
    } else {
        let prev = spec_acl_rules(lines.drop_last());
        match spec_parse_acl_line(lines.last()) {
            Some(r) => prev.push(r),
            None => prev,
        }
    }
}

/// Whether `topic` matches the ACL `filter` by MQTT rules.
pub open spec fn spec_topic_matches(topic: Seq<char>, filter: Seq<char>) -> bool {
    filter_levels_match(topic_levels(filter), topic_levels(topic))
}

/// Whether a rule for `rule_user` applies to `username`: the same name, or
/// `*`, which stands for every user.
pub open spec fn spec_rule_applies(rule_user: Seq<char>, username: Seq<char>) -> bool {
    rule_user == username || rule_user == "*"@
}

/// Whether the rules grant `username` access of the kind asked (publish, or
/// else subscribe) to `topic`.
pub open spec fn spec_granted(
    rules: Seq<(Seq<char>, AclAccess, Seq<char>)>,
    username: Seq<char>,
    topic: Seq<char>,
    publish: bool,
) -> bool {
    exists|i: int|
        0 <= i < rules.len() && spec_rule_applies(#[trigger] rules[i].0, username) && (if publish {
            rules[i].1 != AclAccess::Subscribe
        } else {
            rules[i].1 != AclAccess::Publish
        }) && spec_topic_matches(topic, rules[i].2)
}

impl AclChecker {
    /// The rules, in order.
    pub open spec fn rules(&self) -> Seq<(Seq<char>, AclAccess, Seq<char>)> {
        self.entries@.map_values(|e: AclEntry| acl_entry_view(e))
    }

    /// An ACL checker for the rule file at `path`, given its text when it
    /// could be read. An empty path, an unreadable file or a file without
    /// rules disables ACL (allow all).
    pub fn new(path: &str, content: Option<&str>) -> (c: Self)
        ensures
            c.rules() == (if path@.len() == 0 || content is None {
                Seq::empty()
            } else {
                spec_acl_rules(text_lines(content.unwrap()@))
            }),
            c.enabled == (c.rules().len() > 0),
    {
        if chars_of(path).len() == 0 {
            let c = AclChecker { entries: Vec::new(), enabled: false };
            assert(c.rules() =~= Seq::<(Seq<char>, AclAccess, Seq<char>)>::empty());
            return c;
        }
        let text = match content {
            Some(t) => t,
            None => {
                let c = AclChecker { entries: Vec::new(), enabled: false };
                assert(c.rules() =~= Seq::<(Seq<char>, AclAccess, Seq<char>)>::empty());
                return c;
            },
        };
        let lines = lines_exec(text);
        let ghost lv = char_vecs_view(lines@);
        let mut entries: Vec<AclEntry> = Vec::new();
        let mut i: usize = 0;
        while i < lines.len()
            invariant
                i <= lines.len(),
                lv == char_vecs_view(lines@),
                lv == text_lines(text@),
                entries@.map_values(|e: AclEntry| acl_entry_view(e)) == spec_acl_rules(lv.take(i as int)),
            decreases lines.len() - i,
        {
            proof {
                assert(lv.take(i + 1).drop_last() =~= lv.take(i as int));
                assert(lv.take(i + 1).last() == lines@[i as int]@);
            }
            let ghost before = entries@.map_values(|e: AclEntry| acl_entry_view(e));
            let line = string_from_chars(lines[i].as_slice());
            match parse_acl_line(line.as_str()) {
                Some(e) => {
                    let ghost ev = acl_entry_view(e);
                    entries.push(e);
                    assert(entries@.map_values(|e: AclEntry| acl_entry_view(e)) =~= before.push(ev));
                },
                None => {},
            }
            i = i + 1;
        }
        assert(lv.take(i as int) =~= lv);
        let enabled = entries.len() > 0;
        AclChecker { entries, enabled }
    }

    /// Check if a user is authorised to publish on a topic: always when ACL
    /// is disabled, else when some rule of theirs with publish access
    /// matches the topic (default-deny).
    pub fn authorize_publish(&self, username: &str, topic: &str) -> (b: bool)
        ensures
            b == (!self.enabled || spec_granted(self.rules(), username@, topic@, true)),
    {
        self.authorize(username, topic, true)
    }

    /// Check if a user is authorised to subscribe to a topic filter: always
    /// when ACL is disabled, else when some rule of theirs with subscribe
    /// access matches the filter (default-deny).
    pub fn authorize_subscribe(&self, username: &str, topic_filter: &str) -> (b: bool)
        ensures
            b == (!self.enabled || spec_granted(self.rules(), username@, topic_filter@, false)),
    {
        self.authorize(username, topic_filter, false)
    }

    fn authorize(&self, username: &str, topic: &str, publish: bool) -> (b: bool)
        ensures
            b == (!self.enabled || spec_granted(self.rules(), username@, topic@, publish)),
    {
        if !self.enabled {
            return true;
        }
        let ghost rules = self.rules();
        let mut i: usize = 0;
        while i < self.entries.len()
            invariant
                i <= self.entries.len(),
                rules == self.rules(),
                forall|j: int|
                    0 <= j < i ==> !(spec_rule_applies(#[trigger] rules[j].0, username@) && (if publish {
                        rules[j].1 != AclAccess::Subscribe
                    } else {
                        rules[j].1 != AclAccess::Publish
                    }) && spec_topic_matches(topic@, rules[j].2)),
            decreases self.entries.len() - i,
        {
            let entry = &self.entries[i];
            assert(rules[i as int] == acl_entry_view(*entry));
            if str_eq(entry.username.as_str(), username) || str_eq(entry.username.as_str(), "*") {
                let allowed = if publish {
                    match entry.access {
                        AclAccess::Publish | AclAccess::ReadWrite => true,
                        AclAccess::Subscribe => false,
                    }
                } else {
                    match entry.access {
                        AclAccess::Subscribe | AclAccess::ReadWrite => true,
                        AclAccess::Publish => false,
                    }
                };
                if allowed && topic_matches_filter(topic, entry.filter.as_str()) {
                    assert(spec_rule_applies(rules[i as int].0, username@));
                    assert(spec_topic_matches(topic@, rules[i as int].2));
                    return true;
                }
            }
            i = i + 1;
        }
        false
    }
}

/// The access named by an access word.
fn access_word(w: &[char]) -> (r: Option<AclAccess>)
    ensures
        r == spec_access_word(w@),
{
    let publish = chars_of("publish");
    let subscribe = chars_of("subscribe");
    let readwrite = chars_of("readwrite");
    if chars_eq(w, publish.as_slice()) {
        Some(AclAccess::Publish)
    } else if chars_eq(w, subscribe.as_slice()) {
        Some(AclAccess::Subscribe)
    } else if chars_eq(w, readwrite.as_slice()) {
        Some(AclAccess::ReadWrite)
    } else {
        None
    }
}

/// Parse a single ACL file line.
/// Format: `user <username> topic <publish|subscribe|readwrite> <topic_filter>`
pub fn parse_acl_line(line: &str) -> (r: Option<AclEntry>)
    ensures
        match r {
            Some(e) => spec_parse_acl_line(line@) == Some(acl_entry_view(e)),
            None => spec_parse_acl_line(line@) is None,
        },
{
    let line = trim_whitespace(line);
    let chars = chars_of(line);
    if chars.len() == 0 || chars[0] == '#' {
        return None;
    }

    let parts = split_chars_exec(chars.as_slice(), ' ');
    let ghost pv = char_vecs_view(parts@);
    let user_word = chars_of("user");
    let topic_word = chars_of("topic");
    if parts.len() < 5 || !chars_eq(parts[0].as_slice(), user_word.as_slice()) || !chars_eq(
        parts[2].as_slice(),
        topic_word.as_slice(),
    ) {
        return None;
    }
    assert(pv[0] == parts@[0]@ && pv[2] == parts@[2]@ && pv[1] == parts@[1]@ && pv[3] == parts@[3]@);

    let username = string_from_chars(parts[1].as_slice());
    let access = match access_word(parts[3].as_slice()) {
        Some(a) => a,
        None => return None,
    };
    let rest = &parts.as_slice()[4..parts.len()];
    assert(char_vecs_view(rest@) =~= pv.skip(4));
    let filter_chars = join_chars_exec(rest, ' ');
    let filter = string_from_chars(filter_chars.as_slice());

    Some(AclEntry { username, filter, access })
}

/// Check whether `topic` matches a `filter` that may contain `+` / `#`, by
/// the MQTT standard matching rules.
pub fn topic_matches_filter(topic: &str, filter: &str) -> (b: bool)
    ensures
        b == spec_topic_matches(topic@, filter@),
{
    if str_eq(filter, "#") {
        proof {
            lemma_hash_filter_matches_all(filter@, topic@);
        }
        return true;
    }

    let topic_chars = chars_of(topic);
    let filter_chars = chars_of(filter);
    let topic_segments = split_chars_exec(topic_chars.as_slice(), '/');
    let filter_segments = split_chars_exec(filter_chars.as_slice(), '/');
    levels_match(&filter_segments, &topic_segments)
}

/// The ACL matches topics as subscription filters do: for a filter without
/// surrounding whitespace (which `TopicFilter::new` would trim),
/// `topic_matches_filter` agrees with `TopicFilter::matches`.
pub proof fn lemma_acl_matching_is_filter_matching(topic: Seq<char>, filter: Seq<char>)
    requires
        trimmed(filter) == filter,
    ensures
        spec_topic_matches(topic, filter) == filter_levels_match(topic_levels(trimmed(filter)), topic_levels(topic)),
{
}

proof fn lemma_hash_filter_matches_all(filter: Seq<char>, topic: Seq<char>)
    requires
        filter == "#"@,
    ensures
        spec_topic_matches(topic, filter),
{
    reveal_strlit("#");
    assert(filter =~= seq!['#']);
    assert(filter.drop_last() =~= Seq::<char>::empty());
    let prev = split_chars(filter.drop_last(), '/');
    assert(prev == seq![Seq::<char>::empty()]);
    assert(filter.last() == '#');
    assert(prev.last().push('#') =~= seq!['#']);
    assert(split_chars(filter, '/') == prev.update(0, prev.last().push('#')));
    assert(topic_levels(filter) =~= seq![seq!['#']]);
}

} // verus!
