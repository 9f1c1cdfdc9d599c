//! Application state that the library decides: unique names for new groups
//! and connections, the session password cache with its verification marks,
//! the connection clipboard, the active document, credential decisions,
//! import planning and history trimming. The managers that keep connections,
//! groups and documents on disk are the window's part; they hand this state
//! plain values (names, identifiers, flags) and apply what comes back.

use std::collections::{HashMap, HashSet};
use vstd::prelude::*;
use vstd::relations::injective_on;
use vstd::set_lib::{lemma_int_range, lemma_len_subset, lemma_map_size, set_int_range};
use vstd::string::StringExecFns;
use crate::ids::{new_id, version4_marks};
use crate::strings::{
    ascii_lower, blank, dec, eq_ignore_ascii_case, is_blank, lemma_ascii_lower_add,
    lemma_ascii_lower_digits, lemma_dec_digits, lemma_dec_injective, opt_string_view, push_dec, string_views,
};

verus! {

// ---------------------------------------------------------------------------
// Unique names
// ---------------------------------------------------------------------------

/// Whether `name` is taken: some existing name equals it ignoring ASCII case.
pub open spec fn name_taken(names: Seq<Seq<char>>, name: Seq<char>) -> bool {
    exists|i: int| 0 <= i < names.len() && #[trigger] ascii_lower(names[i]) == ascii_lower(name)
}

/// The `k`-th alternative of a base name: `base (k)`.
pub open spec fn numbered(base: Seq<char>, k: nat) -> Seq<char> {
    base + " ("@ + dec(k) + ")"@
}

/// The least number from 1 up whose alternative of `base` is free.
pub open spec fn first_free_number(names: Seq<Seq<char>>, base: Seq<char>) -> nat {
    choose|k: nat|
        k >= 1 && !name_taken(names, numbered(base, k)) && forall|j: nat|
            1 <= j < k ==> name_taken(names, #[trigger] numbered(base, j))
}

/// A name not taken among `names`: the base itself when free, otherwise
/// `base (k)` for the least `k` from 1 up whose alternative is free.
pub open spec fn unique_name(names: Seq<Seq<char>>, base: Seq<char>) -> Seq<char> {
    if !name_taken(names, base) {
        base
    } else {
        numbered(base, first_free_number(names, base))
    }
}

proof fn lemma_numbered_lower(base: Seq<char>, k: nat)
    ensures
        ascii_lower(numbered(base, k)) == ascii_lower(base) + " ("@ + dec(k) + ")"@,
{
    reveal_strlit(" (");
    reveal_strlit(")");
    lemma_dec_digits(k);
    lemma_ascii_lower_digits(dec(k));
    lemma_ascii_lower_add(base + " ("@ + dec(k), ")"@);
    lemma_ascii_lower_add(base + " ("@, dec(k));
    lemma_ascii_lower_add(base, " ("@);
    assert(ascii_lower(" ("@) =~= " ("@);
    assert(ascii_lower(")"@) =~= ")"@);
}

/// Two alternatives of one base name that match ignoring case are the same
/// alternative.
proof fn lemma_numbered_distinct(base: Seq<char>, j: nat, k: nat)
    requires
        ascii_lower(numbered(base, j)) == ascii_lower(numbered(base, k)),
    ensures
        j == k,
{
    lemma_numbered_lower(base, j);
    lemma_numbered_lower(base, k);
    reveal_strlit(" (");
    reveal_strlit(")");
    let l = ascii_lower(base);
    let x = l + " ("@ + dec(j) + ")"@;
    let y = l + " ("@ + dec(k) + ")"@;
    assert(x.len() == y.len());
    let start = l.len() + 2;
    assert(dec(j) =~= x.subrange(start as int, (start + dec(j).len()) as int));
    assert(dec(k) =~= y.subrange(start as int, (start + dec(k).len()) as int));
    lemma_dec_injective(j, k);
}

/// If the alternatives 1 to `m` of a base name are all taken, there are at
/// least `m` names: each name matches at most one alternative.
proof fn lemma_taken_alternatives_bounded(names: Seq<Seq<char>>, base: Seq<char>, m: nat)
    requires
        forall|j: nat| 1 <= j <= m ==> name_taken(names, #[trigger] numbered(base, j)),
    ensures
        m <= names.len(),
{
    let a = set_int_range(1, (m + 1) as int);
    let r = set_int_range(0, names.len() as int);
    let f = |j: int|
        choose|i: int|
            0 <= i < names.len() && #[trigger] ascii_lower(names[i]) == ascii_lower(
                numbered(base, j as nat),
            );
    lemma_int_range(1, (m + 1) as int);
    lemma_int_range(0, names.len() as int);
    assert forall|j: int| a.contains(j) implies 0 <= #[trigger] f(j) < names.len() && ascii_lower(
        names[f(j)],
    ) == ascii_lower(numbered(base, j as nat)) by {
        assert(name_taken(names, numbered(base, j as nat)));
    }
    assert(injective_on(f, a)) by {
        assert forall|x: int, y: int|
            a.contains(x) && a.contains(y) && #[trigger] f(x) == #[trigger] f(y) implies x == y by {
            lemma_numbered_distinct(base, x as nat, y as nat);
        }
    }
    assert(a.map(f).subset_of(r)) by {
        assert forall|i: int| a.map(f).contains(i) implies r.contains(i) by {
            let j = choose|j: int| a.contains(j) && f(j) == i;
        }
    }
    lemma_map_size(a, a.map(f), f);
    lemma_len_subset(a.map(f), r);
}

/// Whether a name is taken among `names`, ignoring ASCII case.
pub fn name_exists(names: &Vec<String>, name: &str) -> (b: bool)
    ensures
        b == name_taken(string_views(names@), name@),
{
    let mut i: usize = 0;
    while i < names.len()
        invariant
            i <= names@.len(),
            forall|k: int|
                0 <= k < i ==> ascii_lower(#[trigger] string_views(names@)[k]) != ascii_lower(
                    name@,
                ),
        decreases names@.len() - i,
    {
        if eq_ignore_ascii_case(names[i].as_str(), name) {
            proof {
                assert(string_views(names@)[i as int] == names@[i as int]@);
            }
            return true;
        }
        i += 1;
    }
    false
}

/// Checks if a connection with the given name exists, among the names of
/// the existing connections.
pub fn connection_exists_by_name(connection_names: &Vec<String>, name: &str) -> (b: bool)
    ensures
        b == name_taken(string_views(connection_names@), name@),
{
    name_exists(connection_names, name)
}

/// Checks if a group with the given name exists, among the names of the
/// existing groups.
pub fn group_exists_by_name(group_names: &Vec<String>, name: &str) -> (b: bool)
    ensures
        b == name_taken(string_views(group_names@), name@),
{
    name_exists(group_names, name)
}

fn numbered_name(base: &str, k: u64) -> (s: String)
    ensures
        s@ == numbered(base@, k as nat),
{
    let mut s = base.to_string();
    s.append(" (");
    push_dec(&mut s, k);
    s.append(")");
    s
}

fn unique_among(names: &Vec<String>, base: &str) -> (s: String)
    requires
        names@.len() < u64::MAX,
    ensures
        s@ == unique_name(string_views(names@), base@),
{
    let ghost views = string_views(names@);
    if !name_exists(names, base) {
        return base.to_string();
    }
    let mut k: u64 = 1;
    loop
        invariant
            views == string_views(names@),
            name_taken(views, base@),
            names@.len() < u64::MAX,
            1 <= k <= names@.len() + 1,
            forall|j: nat| 1 <= j < k ==> name_taken(views, #[trigger] numbered(base@, j)),
        decreases names@.len() + 1 - k,
    {
        let candidate = numbered_name(base, k);
        if !name_exists(names, candidate.as_str()) {
            proof {
                let kk = k as nat;
                assert(kk >= 1 && !name_taken(views, numbered(base@, kk)) && forall|j: nat|
                    1 <= j < kk ==> name_taken(views, #[trigger] numbered(base@, j)));
                let c = first_free_number(views, base@);
                if c < kk {
                    assert(name_taken(views, numbered(base@, c)));
                } else if c > kk {
                    assert(name_taken(views, numbered(base@, kk)));
                }
            }
            return candidate;
        }
        proof {
            if k == names@.len() + 1 {
                assert forall|j: nat| 1 <= j <= k implies name_taken(
                    views,
                    #[trigger] numbered(base@, j),
                ) by {}
                lemma_taken_alternatives_bounded(views, base@, k as nat);
            }
        }
        k += 1;
    }
}

/// Generates a unique group name: the base name when free, otherwise
/// `base (k)` with the least free `k` from 1 up (see `unique_name`).
pub fn generate_unique_group_name(group_names: &Vec<String>, base_name: &str) -> (s: String)
    requires
        group_names@.len() < u64::MAX,
    ensures
        s@ == unique_name(string_views(group_names@), base_name@),
{
    unique_among(group_names, base_name)
}

/// Generates a unique connection name the same way, without a protocol
/// suffix.
pub fn generate_unique_connection_name_simple(connection_names: &Vec<String>, base_name: &str) -> (s:
    String)
    requires
        connection_names@.len() < u64::MAX,
    ensures
        s@ == unique_name(string_views(connection_names@), base_name@),
{
    unique_among(connection_names, base_name)
}

/// A generated name is free: it matches none of the existing names, even
/// ignoring ASCII case.
pub proof fn unique_name_is_free(names: Seq<Seq<char>>, base: Seq<char>)
    ensures
        !name_taken(names, unique_name(names, base)),
{
    if name_taken(names, base) {
        let n = names.len();
        // Some alternative from 1 to n + 1 is free.
        if forall|j: nat| 1 <= j <= n + 1 ==> name_taken(names, #[trigger] numbered(base, j)) {
            lemma_taken_alternatives_bounded(names, base, (n + 1) as nat);
        }
        let w = choose|j: nat| 1 <= j <= n + 1 && !name_taken(names, #[trigger] numbered(base, j));
        lemma_least_free(names, base, w);
    }
}

proof fn lemma_least_free(names: Seq<Seq<char>>, base: Seq<char>, w: nat)
    requires
        w >= 1,
        !name_taken(names, numbered(base, w)),
    ensures
        first_free_number(names, base) >= 1,
        !name_taken(names, numbered(base, first_free_number(names, base))),
    decreases w,
{
    if forall|j: nat| 1 <= j < w ==> name_taken(names, #[trigger] numbered(base, j)) {
        assert(w >= 1 && !name_taken(names, numbered(base, w)) && forall|j: nat|
            1 <= j < w ==> name_taken(names, #[trigger] numbered(base, j)));
    } else {
        let v = choose|j: nat| 1 <= j < w && !name_taken(names, #[trigger] numbered(base, j));
        lemma_least_free(names, base, v);
    }
}

// ---------------------------------------------------------------------------
// Secrets
// ---------------------------------------------------------------------------

/// A password held in a `secrecy::SecretString`, which keeps the text out of
/// debug output and wipes it when dropped. Verus does not take a declaration
/// of `secrecy::SecretBox` (its parameter is bound by the outside trait
/// `zeroize::Zeroize`), so the secret sits in a private field here and is
/// reached only through `secret_from` and `expose_password`.
#[verifier::external_body]
pub struct SecretPassword {
    inner: secrecy::SecretString,
}

/// The text a secret password holds.
pub uninterp spec fn secret_text(s: SecretPassword) -> Seq<char>;

/// Wraps a password in a `secrecy::SecretString` (`From<String>`); the
/// secret holds the password's text.
#[verifier::external_body]
fn secret_from(text: String) -> (s: SecretPassword)
    ensures
        secret_text(s) == text@,
{
    SecretPassword { inner: secrecy::SecretString::from(text) }
}

/// Reads the text of a secret (`secrecy::ExposeSecret::expose_secret`):
/// the text it was made from.
#[verifier::external_body]
fn expose_password(s: &SecretPassword) -> (text: &str)
    ensures
        text@ == secret_text(*s),
{
    secrecy::ExposeSecret::expose_secret(&s.inner)
}

// ---------------------------------------------------------------------------
// Password cache and verification marks
// ---------------------------------------------------------------------------

/// Cached credentials for a connection (session-only, not persisted).
pub struct CachedCredentials {
    /// Username
    pub username: String,
    /// Password (stored securely in memory)
    pub password: SecretPassword,
    /// Domain for Windows authentication
    pub domain: String,
}

/// Cached credentials as the contracts see them: user, password, domain.
pub open spec fn credentials_view(c: CachedCredentials) -> (Seq<char>, Seq<char>, Seq<char>) {
    (c.username@, secret_text(c.password), c.domain@)
}

/// A copy of the connection clipboard's content: the fields that copy and
/// paste change, and the rest of the connection, carried along.
pub struct CopiedConnection<T> {
    /// Connection identifier
    pub id: u128,
    /// Display name
    pub name: String,
    /// Creation time (milliseconds since the epoch)
    pub created_at: i64,
    /// Last update time (milliseconds since the epoch)
    pub updated_at: i64,
    /// Last connection time, if any
    pub last_connected: Option<i64>,
    /// The other settings of the connection
    pub rest: T,
}

/// Internal clipboard for connection copy/paste operations: a copied
/// connection and the group it was copied from.
pub struct ConnectionClipboard<T> {
    connection: Option<CopiedConnection<T>>,
    source_group: Option<u128>,
}

/// The current time in milliseconds since the epoch (`chrono::Utc::now`).
/// It depends on the clock: nothing is promised of it.
#[verifier::external_body]
pub(crate) fn now_millis() -> (t: i64) {
    chrono::Utc::now().timestamp_millis()
}

impl<T: Clone> ConnectionClipboard<T> {
    /// The copied connection, if any.
    pub closed spec fn content(&self) -> Option<CopiedConnection<T>> {
        self.connection
    }

    /// The group it was copied from.
    pub closed spec fn source_group_spec(&self) -> Option<u128> {
        self.source_group
    }

    /// Creates a new empty clipboard.
    pub fn new() -> (c: Self)
        ensures
            c.content() is None,
            c.source_group_spec() is None,
    {
        ConnectionClipboard { connection: None, source_group: None }
    }

    /// Copies a connection to the clipboard, with the group it came from.
    pub fn copy(&mut self, connection: CopiedConnection<T>, group_id: Option<u128>)
        ensures
            final(self).content() == Some(connection),
            final(self).source_group_spec() == group_id,
    {
        self.connection = Some(connection);
        self.source_group = group_id;
    }

    /// Pastes the connection as of time `now`: a duplicate with a fresh
    /// random (version 4) identifier, its other settings cloned, ` (Copy)`
    /// after its name, both timestamps `now`, and no
    /// last connection; `None` when the clipboard is empty.
    pub fn paste_at(&self, now: i64) -> (p: Option<CopiedConnection<T>>)
        ensures
            p is Some <==> self.content() is Some,
            p is Some ==> {
                let q = p->0;
                let c = self.content()->0;
                &&& q.name@ == c.name@ + " (Copy)"@
                &&& q.created_at == now
                &&& q.updated_at == now
                &&& q.last_connected is None
                &&& version4_marks(q.id)
                &&& cloned(c.rest, q.rest)
            },
    {
        match &self.connection {
            None => None,
            Some(conn) => {
                let mut name = conn.name.clone();
                name.append(" (Copy)");
                Some(
                    CopiedConnection {
                        id: new_id(),
                        name,
                        created_at: now,
                        updated_at: now,
                        last_connected: None,
                        rest: conn.rest.clone(),
                    },
                )
            },
        }
    }

    /// Pastes the connection, stamped with the current time (see
    /// `paste_at`).
    pub fn paste(&self) -> (p: Option<CopiedConnection<T>>)
        ensures
            p is Some <==> self.content() is Some,
            p is Some ==> {
                let q = p->0;
                &&& q.name@ == self.content()->0.name@ + " (Copy)"@
                &&& q.created_at == q.updated_at
                &&& q.last_connected is None
                &&& version4_marks(q.id)
                &&& cloned(self.content()->0.rest, q.rest)
            },
    {
        self.paste_at(now_millis())
    }

    /// Checks if the clipboard has content.
    pub fn has_content(&self) -> (b: bool)
        ensures
            b == (self.content() is Some),
    {
        self.connection.is_some()
    }

    /// Gets the source group ID where the connection was copied from.
    pub fn source_group(&self) -> (g: Option<u128>)
        ensures
            g == self.source_group_spec(),
    {
        self.source_group
    }

    /// Clears the clipboard.
    pub fn clear(&mut self)
        ensures
            final(self).content() is None,
            final(self).source_group_spec() is None,
    {
        self.connection = None;
        self.source_group = None;
    }
}

/// The state the application keeps for a session: cached passwords,
/// verification marks, the connection clipboard and the active document.
pub struct AppState<T> {
    password_cache: HashMap<u128, CachedCredentials>,
    verified: HashSet<u128>,
    clipboard: ConnectionClipboard<T>,
    active_document_id: Option<u128>,
}

impl<T: Clone> AppState<T> {
    /// The cached credentials by connection.
    pub closed spec fn cache_spec(&self) -> Map<u128, CachedCredentials> {
        self.password_cache@
    }

    /// The connections whose credentials have been verified.
    pub closed spec fn verified_spec(&self) -> Set<u128> {
        self.verified@
    }

    /// The active document.
    pub closed spec fn active_document_spec(&self) -> Option<u128> {
        self.active_document_id
    }

    /// The clipboard.
    pub closed spec fn clipboard_spec(&self) -> ConnectionClipboard<T> {
        self.clipboard
    }

    /// Creates the state: nothing cached or verified, an empty clipboard, no
    /// active document.
    pub fn new() -> (s: Self)
        ensures
            s.cache_spec() == Map::<u128, CachedCredentials>::empty(),
            s.verified_spec() == Set::<u128>::empty(),
            s.clipboard_spec().content() is None,
            s.active_document_spec() is None,
    {
        AppState {
            password_cache: HashMap::new(),
            verified: HashSet::new(),
            clipboard: ConnectionClipboard::new(),
            active_document_id: None,
        }
    }

    /// Caches credentials for a connection (session-only), replacing what
    /// was cached for it.
    pub fn cache_credentials(
        &mut self,
        connection_id: u128,
        username: &str,
        password: &str,
        domain: &str,
    )
        ensures
            final(self).cache_spec().dom() == old(self).cache_spec().dom().insert(connection_id),
            forall|k: u128|
                k != connection_id && old(self).cache_spec().contains_key(k) ==> final(self).cache_spec()[k] == old(self).cache_spec()[k],
            credentials_view(final(self).cache_spec()[connection_id]) == (
                username@,
                password@,
                domain@,
            ),
            final(self).verified_spec() == old(self).verified_spec(),
            final(self).active_document_spec() == old(self).active_document_spec(),
            final(self).clipboard_spec() == old(self).clipboard_spec(),
    {
        broadcast use vstd::std_specs::hash::group_hash_axioms;
        let creds = CachedCredentials {
            username: username.to_string(),
            password: secret_from(password.to_string()),
            domain: domain.to_string(),
        };
        self.password_cache.insert(connection_id, creds);
    }

    /// Gets cached credentials for a connection.
    pub fn get_cached_credentials(&self, connection_id: u128) -> (c: Option<&CachedCredentials>)
        ensures
            match c {
                Some(v) => self.cache_spec().contains_key(connection_id) && *v
                    == self.cache_spec()[connection_id],
                None => !self.cache_spec().contains_key(connection_id),
            },
    {
        broadcast use vstd::std_specs::hash::group_hash_axioms;
        self.password_cache.get(&connection_id)
    }

    /// The cached credentials of a connection as plain texts (user,
    /// password, domain), to hand to a session.
    pub fn cached_credentials_text(&self, connection_id: u128) -> (c: Option<(String, String, String)>)
        ensures
            match c {
                Some((u, p, d)) => self.cache_spec().contains_key(connection_id) && credentials_view(
                    self.cache_spec()[connection_id],
                ) == (u@, p@, d@),
                None => !self.cache_spec().contains_key(connection_id),
            },
    {
        match self.get_cached_credentials(connection_id) {
            Some(c) => Some(
                (c.username.clone(), expose_password(&c.password).to_string(), c.domain.clone()),
            ),
            None => None,
        }
    }

    /// Checks if credentials are cached for a connection.
    pub fn has_cached_credentials(&self, connection_id: u128) -> (b: bool)
        ensures
            b == self.cache_spec().contains_key(connection_id),
    {
        broadcast use vstd::std_specs::hash::group_hash_axioms;
        self.password_cache.contains_key(&connection_id)
    }

    /// Clears cached credentials for a connection.
    pub fn clear_cached_credentials(&mut self, connection_id: u128)
        ensures
            final(self).cache_spec() == old(self).cache_spec().remove(connection_id),
            final(self).verified_spec() == old(self).verified_spec(),
            final(self).active_document_spec() == old(self).active_document_spec(),
            final(self).clipboard_spec() == old(self).clipboard_spec(),
    {
        broadcast use vstd::std_specs::hash::group_hash_axioms;
        self.password_cache.remove(&connection_id);
    }

    /// Clears all cached credentials.
    pub fn clear_all_cached_credentials(&mut self)
        ensures
            final(self).cache_spec() == Map::<u128, CachedCredentials>::empty(),
            final(self).verified_spec() == old(self).verified_spec(),
            final(self).active_document_spec() == old(self).active_document_spec(),
            final(self).clipboard_spec() == old(self).clipboard_spec(),
    {
        self.password_cache.clear();
    }

    /// Marks credentials as verified for a connection after successful
    /// authentication.
    pub fn mark_credentials_verified(&mut self, connection_id: u128)
        ensures
            final(self).verified_spec() == old(self).verified_spec().insert(connection_id),
            final(self).cache_spec() == old(self).cache_spec(),
            final(self).active_document_spec() == old(self).active_document_spec(),
            final(self).clipboard_spec() == old(self).clipboard_spec(),
    {
        broadcast use vstd::std_specs::hash::group_hash_axioms;
        self.verified.insert(connection_id);
    }

    /// Marks credentials as unverified for a connection after failed
    /// authentication; the error text is for the log.
    pub fn mark_credentials_unverified(&mut self, connection_id: u128, error: Option<String>)
        ensures
            final(self).verified_spec() == old(self).verified_spec().remove(connection_id),
            final(self).cache_spec() == old(self).cache_spec(),
            final(self).active_document_spec() == old(self).active_document_spec(),
            final(self).clipboard_spec() == old(self).clipboard_spec(),
    {
        broadcast use vstd::std_specs::hash::group_hash_axioms;
        self.verified.remove(&connection_id);
    }

    /// Checks if credentials are verified for a connection.
    pub fn are_credentials_verified(&self, connection_id: u128) -> (b: bool)
        ensures
            b == self.verified_spec().contains(connection_id),
    {
        broadcast use vstd::std_specs::hash::group_hash_axioms;
        self.verified.contains(&connection_id)
    }

    /// Checks if the password dialog can be skipped: the credentials are
    /// verified and cached.
    pub fn can_skip_password_dialog(&self, connection_id: u128) -> (b: bool)
        ensures
            b == (self.verified_spec().contains(connection_id) && self.cache_spec().contains_key(
                connection_id,
            )),
    {
        if !self.are_credentials_verified(connection_id) {
            return false;
        }
        self.has_cached_credentials(connection_id)
    }

    /// Gets a reference to the connection clipboard.
    pub fn clipboard(&self) -> (c: &ConnectionClipboard<T>)
        ensures
            *c == self.clipboard_spec(),
    {
        &self.clipboard
    }

    /// Copies a connection to the clipboard, with its group.
    pub fn copy_connection(&mut self, connection: CopiedConnection<T>, group_id: Option<u128>)
        ensures
            final(self).clipboard_spec().content() == Some(connection),
            final(self).clipboard_spec().source_group_spec() == group_id,
            final(self).cache_spec() == old(self).cache_spec(),
            final(self).verified_spec() == old(self).verified_spec(),
            final(self).active_document_spec() == old(self).active_document_spec(),
    {
        self.clipboard.copy(connection, group_id);
    }

    /// The connection to add on paste, with the group it goes into (the one
    /// it was copied from), or `None` when the clipboard is empty.
    pub fn paste_connection(&self) -> (p: Option<(CopiedConnection<T>, Option<u128>)>)
        ensures
            p is Some <==> self.clipboard_spec().content() is Some,
            p is Some ==> {
                let (q, g) = p->0;
                &&& q.name@ == self.clipboard_spec().content()->0.name@ + " (Copy)"@
                &&& q.created_at == q.updated_at
                &&& q.last_connected is None
                &&& version4_marks(q.id)
                &&& cloned(self.clipboard_spec().content()->0.rest, q.rest)
                &&& g == self.clipboard_spec().source_group_spec()
            },
    {
        match self.clipboard.paste() {
            Some(c) => Some((c, self.clipboard.source_group())),
            None => None,
        }
    }

    /// Checks if the clipboard has content.
    pub fn has_clipboard_content(&self) -> (b: bool)
        ensures
            b == (self.clipboard_spec().content() is Some),
    {
        self.clipboard.has_content()
    }

    /// Gets the currently active document ID.
    pub fn active_document_id(&self) -> (id: Option<u128>)
        ensures
            id == self.active_document_spec(),
    {
        self.active_document_id
    }

    /// Sets the active document.
    pub fn set_active_document(&mut self, id: Option<u128>)
        ensures
            final(self).active_document_spec() == id,
            final(self).cache_spec() == old(self).cache_spec(),
            final(self).verified_spec() == old(self).verified_spec(),
            final(self).clipboard_spec() == old(self).clipboard_spec(),
    {
        self.active_document_id = id;
    }

    /// A document was created: it becomes active when none is.
    pub fn create_document(&mut self, id: u128)
        ensures
            final(self).active_document_spec() == if old(self).active_document_spec() is None {
                Some(id)
            } else {
                old(self).active_document_spec()
            },
            final(self).cache_spec() == old(self).cache_spec(),
            final(self).verified_spec() == old(self).verified_spec(),
            final(self).clipboard_spec() == old(self).clipboard_spec(),
    {
        if self.active_document_id.is_none() {
            self.active_document_id = Some(id);
        }
    }

    /// A document was closed: when it was the active one, the first of the
    /// remaining documents (if any) becomes active.
    pub fn close_document(&mut self, id: u128, remaining_ids: &Vec<u128>)
        ensures
            final(self).active_document_spec() == if old(self).active_document_spec() == Some(id) {
                if remaining_ids@.len() > 0 {
                    Some(remaining_ids@[0])
                } else {
                    None
                }
            } else {
                old(self).active_document_spec()
            },
            final(self).cache_spec() == old(self).cache_spec(),
            final(self).verified_spec() == old(self).verified_spec(),
            final(self).clipboard_spec() == old(self).clipboard_spec(),
    {
        if self.active_document_id == Some(id) {
            self.active_document_id = if remaining_ids.len() > 0 {
                Some(remaining_ids[0])
            } else {
                None
            };
        }
    }
}

/// What is cached for a connection is what was cached last, until it is
/// cleared; caching for one connection leaves the others alone.
pub proof fn cache_reads_back_last_write(
    before: Map<u128, CachedCredentials>,
    after: Map<u128, CachedCredentials>,
    id: u128,
    other: u128,
    written: (Seq<char>, Seq<char>, Seq<char>),
)
    requires
        after.dom() == before.dom().insert(id),
        credentials_view(after[id]) == written,
        forall|k: u128| k != id && before.contains_key(k) ==> after[k] == before[k],
        other != id,
    ensures
        after.contains_key(id),
        credentials_view(after[id]) == written,
        after.contains_key(other) == before.contains_key(other),
        before.contains_key(other) ==> after[other] == before[other],
{
}

// ---------------------------------------------------------------------------
// Credential decisions
// ---------------------------------------------------------------------------

/// Where a connection's password comes from.
#[derive(Debug, Clone, Copy, PartialEq, Eq, Structural)]
pub enum PasswordSource {
    /// No source: the fallback chain, when enabled
    NoSource,
    /// Ask the user
    Prompt,
    /// The password saved with the connection
    Stored,
    /// A KeePass database
    KeePass,
    /// The system keyring
    Keyring,
}

/// Whether the user is asked for credentials, given whether a secret
/// backend is available: always for `Prompt`, never for `Stored`; for no
/// source when the fallback is off or no backend is there; for KeePass when
/// the integration is off; for the keyring when no backend is there.
pub open spec fn prompts_for_credentials(
    source: PasswordSource,
    enable_fallback: bool,
    kdbx_enabled: bool,
    has_backend: bool,
) -> bool {
    match source {
        PasswordSource::Prompt => true,
        PasswordSource::Stored => false,
        PasswordSource::NoSource => !enable_fallback || !has_backend,
        PasswordSource::KeePass => !kdbx_enabled,
        PasswordSource::Keyring => !has_backend,
    }
}

/// Whether deciding to prompt needs to know if a secret backend is
/// available (so that the caller asks the backends only then).
pub fn needs_backend_check(source: PasswordSource, enable_fallback: bool) -> (b: bool)
    ensures
        b == (source == PasswordSource::Keyring || (source == PasswordSource::NoSource
            && enable_fallback)),
{
    match source {
        PasswordSource::Keyring => true,
        PasswordSource::NoSource => enable_fallback,
        _ => false,
    }
}

/// Determines if credentials should be prompted for a connection (see
/// `prompts_for_credentials`).
pub fn should_prompt_for_credentials(
    source: PasswordSource,
    enable_fallback: bool,
    kdbx_enabled: bool,
    has_backend: bool,
) -> (b: bool)
    ensures
        b == prompts_for_credentials(source, enable_fallback, kdbx_enabled, has_backend),
{
    match source {
        PasswordSource::Prompt => true,
        PasswordSource::Stored => false,
        PasswordSource::NoSource => !enable_fallback || !has_backend,
        PasswordSource::KeePass => !kdbx_enabled,
        PasswordSource::Keyring => !has_backend,
    }
}

/// The entry a KeePass lookup searches for: the connection's name, or its
/// host when the name is blank, then the protocol in parentheses.
pub open spec fn keepass_key(name: Seq<char>, host: Seq<char>, protocol: Seq<char>) -> Seq<char> {
    (if blank(name) {
        host
    } else {
        name
    }) + " ("@ + protocol + ")"@
}

/// Builds the KeePass lookup key of a connection (see `keepass_key`).
pub fn keepass_lookup_key(name: &str, host: &str, protocol: &str) -> (key: String)
    ensures
        key@ == keepass_key(name@, host@, protocol@),
{
    let mut key = if is_blank(name) {
        host.to_string()
    } else {
        name.to_string()
    };
    key.append(" (");
    key.append(protocol);
    key.append(")");
    key
}

/// Credentials read for a connection: its user name, if it has one, and a
/// password.
pub struct ResolvedCredentials {
    /// The connection's user name
    pub username: Option<String>,
    /// The password found
    pub password: SecretPassword,
}

/// What a KeePass lookup leads to, given its outcome: a password found
/// gives credentials with the connection's user name (if any) and that
/// password; no entry, or a lookup error, gives `None`, and the standard
/// resolver decides instead.
pub fn keepass_credentials(username: Option<String>, found: Result<Option<String>, String>) -> (r:
    Option<ResolvedCredentials>)
    ensures
        match found {
            Ok(Some(p)) => r matches Some(c) && opt_string_view(c.username) == opt_string_view(
                username,
            ) && secret_text(c.password) == p@,
            _ => r is None,
        },
{
    match found {
        Ok(Some(p)) => Some(ResolvedCredentials { username, password: secret_from(p) }),
        _ => None,
    }
}

/// Whether credentials are read from the KeePass database directly: the
/// connection's source is KeePass, the integration is on and a database is
/// configured.
pub fn uses_keepass_lookup(source: PasswordSource, kdbx_enabled: bool, has_kdbx_path: bool) -> (b:
    bool)
    ensures
        b == (source == PasswordSource::KeePass && kdbx_enabled && has_kdbx_path),
{
    source == PasswordSource::KeePass && kdbx_enabled && has_kdbx_path
}

/// Checks if KeePass integration is currently active: enabled, with a
/// database configured.
pub fn is_keepass_active(kdbx_enabled: bool, has_kdbx_path: bool) -> (b: bool)
    ensures
        b == (kdbx_enabled && has_kdbx_path),
{
    kdbx_enabled && has_kdbx_path
}

/// What happens to the KeePass settings at startup.
#[derive(Debug, Clone, Copy, PartialEq, Eq, Structural)]
pub enum KdbxStartup {
    /// The integration is off: nothing to do
    Unchanged,
    /// The database is missing or not configured: turn the integration
    /// off, forget the password and save the settings
    Disable,
    /// Restore the stored password from its encrypted form
    RestorePassword,
}

/// Validates the KeePass integration at startup: `kdbx_path_exists` is
/// `None` when no database is configured.
pub fn kdbx_startup(kdbx_enabled: bool, kdbx_path_exists: Option<bool>) -> (a: KdbxStartup)
    ensures
        a == if !kdbx_enabled {
            KdbxStartup::Unchanged
        } else if kdbx_path_exists == Some(true) {
            KdbxStartup::RestorePassword
        } else {
            KdbxStartup::Disable
        },
{
    if !kdbx_enabled {
        KdbxStartup::Unchanged
    } else {
        match kdbx_path_exists {
            Some(true) => KdbxStartup::RestorePassword,
            _ => KdbxStartup::Disable,
        }
    }
}

/// What happens to the KeePass password when settings are saved.
#[derive(Debug, Clone, Copy, PartialEq, Eq, Structural)]
pub enum KdbxPasswordOnSave {
    /// Encrypt the password before saving
    Encrypt,
    /// The integration is off: clear the password
    Clear,
    /// Leave it as it is
    Keep,
}

/// Decides the KeePass password handling when settings are saved.
pub fn kdbx_password_on_save(kdbx_enabled: bool, has_password: bool) -> (a: KdbxPasswordOnSave)
    ensures
        a == if kdbx_enabled && has_password {
            KdbxPasswordOnSave::Encrypt
        } else if !kdbx_enabled {
            KdbxPasswordOnSave::Clear
        } else {
            KdbxPasswordOnSave::Keep
        },
{
    if kdbx_enabled && has_password {
        KdbxPasswordOnSave::Encrypt
    } else if !kdbx_enabled {
        KdbxPasswordOnSave::Clear
    } else {
        KdbxPasswordOnSave::Keep
    }
}

/// The logging switch the session manager gets when settings are saved:
/// the new value when it changed, otherwise none.
pub fn logging_change(new_enabled: bool, old_enabled: bool) -> (c: Option<bool>)
    ensures
        c == if new_enabled != old_enabled {
            Some(new_enabled)
        } else {
            None
        },
{
    if new_enabled != old_enabled {
        Some(new_enabled)
    } else {
        None
    }
}

// ---------------------------------------------------------------------------
// Templates
// ---------------------------------------------------------------------------

/// The position of the first template with identifier `id`, or -1.
pub open spec fn template_position<T>(templates: Seq<(u128, T)>, id: u128) -> int
    decreases templates.len(),
{
    if templates.len() == 0 {
        -1
    } else if templates[0].0 == id {
        0
    } else {
        let p = template_position(templates.drop_first(), id);
        if p < 0 {
            -1
        } else {
            p + 1
        }
    }
}

proof fn lemma_template_position<T>(templates: Seq<(u128, T)>, id: u128, j: int)
    requires
        0 <= j <= templates.len(),
        forall|k: int| 0 <= k < j ==> (#[trigger] templates[k]).0 != id,
        j == templates.len() || templates[j].0 == id,
    ensures
        template_position(templates, id) == if j == templates.len() {
            -1
        } else {
            j
        },
    decreases j,
{
    if j > 0 {
        let d = templates.drop_first();
        assert forall|k: int| 0 <= k < j - 1 implies (#[trigger] d[k]).0 != id by {
            assert(d[k] == templates[k + 1]);
        }
        if j < templates.len() {
            assert(d[j - 1] == templates[j]);
        }
        lemma_template_position(d, id, j - 1);
    } else if templates.len() == 0 {
    }
}

/// Puts an updated template in place of the first one with its identifier,
/// or adds it at the end when there is none.
pub fn upsert_template<T>(templates: &mut Vec<(u128, T)>, id: u128, template: T)
    ensures
        final(templates)@ == if template_position(old(templates)@, id) >= 0 {
            old(templates)@.update(template_position(old(templates)@, id), (id, template))
        } else {
            old(templates)@.push((id, template))
        },
{
    let mut j: usize = 0;
    while j < templates.len()
        invariant
            j <= templates@.len(),
            forall|k: int| 0 <= k < j ==> (#[trigger] templates@[k]).0 != id,
        ensures
            j <= templates@.len(),
            forall|k: int| 0 <= k < j ==> (#[trigger] templates@[k]).0 != id,
            j == templates@.len() || templates@[j as int].0 == id,
        decreases templates@.len() - j,
    {
        if templates[j].0 == id {
            break;
        }
        j += 1;
    }
    proof {
        lemma_template_position(templates@, id, j as int);
    }
    if j < templates.len() {
        templates.set(j, (id, template));
    } else {
        templates.push((id, template));
    }
}

/// The templates without those with identifier `id`, in order.
pub open spec fn without_template<T>(templates: Seq<(u128, T)>, id: u128) -> Seq<(u128, T)>
    decreases templates.len(),
{
    if templates.len() == 0 {
        Seq::empty()
    } else {
        let before = without_template(templates.drop_last(), id);
        if templates.last().0 == id {
            before
        } else {
            before.push(templates.last())
        }
    }
}

/// Removes every template with identifier `id`.
pub fn remove_template<T>(templates: Vec<(u128, T)>, id: u128) -> (r: Vec<(u128, T)>)
    ensures
        r@ == without_template(templates@, id),
{
    let ghost all = templates@;
    let total = templates.len();
    let mut rest = templates;
    let mut kept: Vec<(u128, T)> = Vec::new();
    let mut i: usize = 0;
    while rest.len() > 0
        invariant
            i <= all.len(),
            all.len() == total,
            rest@ == all.skip(i as int),
            kept@ == without_template(all.take(i as int), id),
        decreases rest@.len(),
    {
        let t = rest.remove(0);
        proof {
            assert(t == all[i as int]);
            assert(all.take(i + 1).drop_last() =~= all.take(i as int));
            assert(all.take(i + 1).last() == all[i as int]);
            assert(rest@ =~= all.skip(i + 1));
        }
        if t.0 != id {
            kept.push(t);
        }
        i += 1;
    }
    proof {
        assert(all.skip(i as int).len() == 0);
        assert(all.take(i as int) =~= all);
    }
    kept
}

/// Whether some template has identifier `id`.
pub open spec fn has_template<T>(templates: Seq<(u128, T)>, id: u128) -> bool {
    exists|i: int| 0 <= i < templates.len() && (#[trigger] templates[i]).0 == id
}

/// The saved templates followed by those of the document whose identifier
/// is not there yet, in order.
pub open spec fn merged_templates<T>(saved: Seq<(u128, T)>, document: Seq<(u128, T)>) -> Seq<
    (u128, T),
>
    decreases document.len(),
{
    if document.len() == 0 {
        saved
    } else {
        let before = merged_templates(saved, document.drop_last());
        if has_template(before, document.last().0) {
            before
        } else {
            before.push(document.last())
        }
    }
}

fn contains_template<T>(templates: &Vec<(u128, T)>, id: u128) -> (b: bool)
    ensures
        b == has_template(templates@, id),
{
    let mut i: usize = 0;
    while i < templates.len()
        invariant
            i <= templates@.len(),
            forall|k: int| 0 <= k < i ==> (#[trigger] templates@[k]).0 != id,
        decreases templates@.len() - i,
    {
        if templates[i].0 == id {
            return true;
        }
        i += 1;
    }
    false
}

/// All templates: the saved ones, then the active document's whose
/// identifier is not among them (see `merged_templates`).
pub fn merge_templates<T>(saved: Vec<(u128, T)>, document: Vec<(u128, T)>) -> (r: Vec<(u128, T)>)
    ensures
        r@ == merged_templates(saved@, document@),
{
    let ghost doc = document@;
    let total = document.len();
    let mut rest = document;
    let mut all = saved;
    let ghost first = all@;
    let mut i: usize = 0;
    while rest.len() > 0
        invariant
            i <= doc.len(),
            doc.len() == total,
            rest@ == doc.skip(i as int),
            all@ == merged_templates(first, doc.take(i as int)),
        decreases rest@.len(),
    {
        let t = rest.remove(0);
        proof {
            assert(t == doc[i as int]);
            assert(doc.take(i + 1).drop_last() =~= doc.take(i as int));
            assert(doc.take(i + 1).last() == doc[i as int]);
            assert(rest@ =~= doc.skip(i + 1));
        }
        if !contains_template(&all, t.0) {
            all.push(t);
        }
        i += 1;
    }
    proof {
        assert(doc.skip(i as int).len() == 0);
        assert(doc.take(i as int) =~= doc);
    }
    all
}

/// No identifier appears twice in the merged templates when none appeared
/// twice among the saved ones.
pub proof fn merged_templates_distinct<T>(saved: Seq<(u128, T)>, document: Seq<(u128, T)>)
    requires
        forall|i: int, j: int| 0 <= i < j < saved.len() ==> (#[trigger] saved[i]).0 != (
        #[trigger] saved[j]).0,
    ensures
        forall|i: int, j: int|
            0 <= i < j < merged_templates(saved, document).len() ==> (#[trigger] merged_templates(
                saved,
                document,
            )[i]).0 != (#[trigger] merged_templates(saved, document)[j]).0,
    decreases document.len(),
{
    if document.len() > 0 {
        merged_templates_distinct(saved, document.drop_last());
        let before = merged_templates(saved, document.drop_last());
        let m = merged_templates(saved, document);
        if !has_template(before, document.last().0) {
            assert forall|i: int, j: int| 0 <= i < j < m.len() implies (#[trigger] m[i]).0 != (
            #[trigger] m[j]).0 by {
                if j == before.len() {
                    assert(m[i] == before[i]);
                } else {
                    assert(m[i] == before[i] && m[j] == before[j]);
                }
            }
        }
    }
}

/// The sort orders that reordering connections assigns: each connection
/// its position in the list, as `i32` (as `as i32` converts it).
pub fn reorder_sort_orders(connection_ids: &Vec<u128>) -> (orders: Vec<(u128, i32)>)
    ensures
        orders@.len() == connection_ids@.len(),
        forall|i: int|
            0 <= i < orders@.len() ==> #[trigger] orders@[i] == (connection_ids@[i], i as i32),
{
    let mut orders: Vec<(u128, i32)> = Vec::new();
    let mut i: usize = 0;
    while i < connection_ids.len()
        invariant
            i <= connection_ids@.len(),
            orders@.len() == i,
            forall|k: int| 0 <= k < i ==> #[trigger] orders@[k] == (connection_ids@[k], k as i32),
        decreases connection_ids@.len() - i,
    {
        orders.push((connection_ids[i], i as i32));
        i += 1;
    }
    orders
}

} // verus!
