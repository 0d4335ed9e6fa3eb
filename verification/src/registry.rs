//! The account registry: the single source of truth for "is this user
//! logged in", and the authorization decision made on every request.
//!
//! Entries are keyed by username; keys are unique and an insert
//! replaces, never merges.  The caller guards the registry with its
//! read/write lock; the functions here are the serialized operations
//! under that lock.

use vstd::prelude::*;

verus! {

use crate::account::SpotifyAccount;
use crate::errors::ServerError;
use crate::account::{RefreshFollowUp, ResetFollowUp};
use crate::token::{Expiration, Token, MAX_INSTANT_SECONDS};

/// Case-preserving username wrapper.
#[derive(Debug)]
pub struct UserName(pub String);

impl View for UserName {
    type V = Seq<char>;

    open spec fn view(&self) -> Seq<char> {
        self.0@
    }
}

impl UserName {
    /// Wrap a borrowed name.
    pub fn new(username: &str) -> (r: UserName)
        ensures
            r@ == username@,
    {
        UserName(String::from_str(username))
    }

    /// The name as a string slice.
    pub fn as_str(&self) -> (r: &str)
        ensures
            r@ == self@,
    {
        self.0.as_str()
    }

    /// An owned copy of the name.
    pub fn duplicate(&self) -> (r: UserName)
        ensures
            r@ == self@,
    {
        UserName(self.0.clone())
    }
}

/// The accounts of every logged-in user, keyed by username.
pub struct SpotifyAccounts {
    entries: Vec<(UserName, SpotifyAccount)>,
}

impl SpotifyAccounts {
    /// The stored entries, for specifications.
    pub closed spec fn spec_entries(self) -> Seq<(UserName, SpotifyAccount)> {
        self.entries@
    }

    /// No two entries share a username, and every stored account is
    /// internally consistent.
    pub open spec fn wf(self) -> bool {
        (forall|i: int, j: int|
            0 <= i < j < self.spec_entries().len() ==> self.spec_entries()[i].0@ != self.spec_entries()[j].0@)
            && (forall|i: int|
            0 <= i < self.spec_entries().len() ==> (#[trigger] self.spec_entries()[i].1).wf()
                && self.spec_entries()[i].1.spec_secret().len() == 16)
    }

    /// Index of the entry for `name`, or -1 when no entry holds it.
    pub closed spec fn spec_index_of(self, name: Seq<char>) -> int {
        spec_entry_index(self.entries@, name)
    }

    /// Whether some account is registered under `name`.
    pub open spec fn spec_contains(self, name: Seq<char>) -> bool {
        self.spec_index_of(name) >= 0
    }

    /// The account registered under `name`.
    pub open spec fn spec_at(self, name: Seq<char>) -> SpotifyAccount
        recommends
            self.spec_contains(name),
    {
        self.spec_entries()[self.spec_index_of(name)].1
    }

    /// An empty registry.
    pub fn new() -> (s: SpotifyAccounts)
        ensures
            s.wf(),
            s.spec_entries().len() == 0,
            forall|name: Seq<char>| !s.spec_contains(name),
    {
        let s = SpotifyAccounts { entries: Vec::new() };
        proof {
            assert forall|name: Seq<char>| !s.spec_contains(name) by {
                assert(s.spec_index_of(name) == -1);
            }
        }
        s
    }

    /// Number of registered accounts.
    pub fn len(&self) -> (n: usize)
        ensures
            n == self.spec_entries().len(),
    {
        self.entries.len()
    }

    fn index_of(&self, username: &UserName) -> (r: Option<usize>)
        ensures
            r is Some <==> self.spec_contains(username@),
            r matches Some(i) ==> i == self.spec_index_of(username@) && i
                < self.spec_entries().len(),
    {
        let mut i: usize = 0;
        while i < self.entries.len()
            invariant
                i <= self.entries@.len(),
                forall|j: int| 0 <= j < i ==> self.entries@[j].0@ != username@,
                spec_entry_index(self.entries@, username@) >= 0 ==> spec_entry_index(
                    self.entries@,
                    username@,
                ) >= i,
            decreases self.entries@.len() - i,
        {
            if self.entries[i].0.0 == username.0 {
                proof {
                    lemma_entry_index_first(self.entries@, username@, i as int);
                }
                return Some(i);
            }
            i = i + 1;
            proof {
                if spec_entry_index(self.entries@, username@) >= 0 {
                    lemma_entry_index_bound(self.entries@, username@, i as int);
                }
            }
        }
        proof {
            lemma_entry_index_none(self.entries@, username@);
        }
        None
    }

    /// Look up the account logged in under `username`.
    pub fn get(&self, username: &UserName) -> (r: Option<&SpotifyAccount>)
        ensures
            r is Some <==> self.spec_contains(username@),
            r matches Some(a) ==> *a == self.spec_at(username@),
    {
        match self.index_of(username) {
            Some(i) => Some(&self.entries[i].1),
            None => None,
        }
    }

    /// Whether `username` is logged in.
    pub fn contains_key(&self, username: &UserName) -> (b: bool)
        ensures
            b == self.spec_contains(username@),
    {
        self.index_of(username).is_some()
    }

    /// Register `account` under `username`, replacing any account that
    /// name already had; every other entry stays untouched.
    pub fn insert(&mut self, username: UserName, account: SpotifyAccount)
        requires
            old(self).wf(),
            account.wf(),
            account.spec_secret().len() == 16,
        ensures
            final(self).wf(),
            final(self).spec_contains(username@),
            final(self).spec_at(username@) == account,
            forall|name: Seq<char>|
                name != username@ ==> #[trigger] final(self).spec_contains(name)
                    == old(self).spec_contains(name),
            forall|name: Seq<char>|
                name != username@ && old(self).spec_contains(name)
                    ==> #[trigger] final(self).spec_at(name) == old(self).spec_at(name),
    {
        let ghost pre = self.entries@;
        match self.index_of(&username) {
            Some(i) => {
                proof {
                    lemma_entry_index_general(pre, username@);
                }
                self.entries.set(i, (username, account));
                proof {
                    lemma_entry_index_update(pre, self.entries@, username@, i as int);
                    assert forall|name: Seq<char>|
                        name != username@ && spec_entry_index(pre, name) >= 0 implies self.entries@[
                        spec_entry_index(self.entries@, name)
                    ].1 == pre[spec_entry_index(pre, name)].1 by {
                        lemma_entry_index_general(pre, name);
                    }
                }
            },
            None => {
                self.entries.push((username, account));
                proof {
                    lemma_entry_index_general(pre, username@);
                    lemma_entry_index_push(pre, self.entries@, username@);
                    assert forall|name: Seq<char>|
                        name != username@ && spec_entry_index(pre, name) >= 0 implies self.entries@[
                        spec_entry_index(self.entries@, name)
                    ].1 == pre[spec_entry_index(pre, name)].1 by {
                        lemma_entry_index_general(pre, name);
                    }
                }
            },
        }
    }

    /// Run the outcome of the upstream token request against the
    /// account logged in under `username`: a grant is published, a
    /// denial demands a session reset; every other entry stays
    /// untouched.  Returns nothing for an unknown username.
    pub fn apply_token_outcome(&mut self, username: &UserName, result: Option<Token>, now: u64) -> (r:
        Option<RefreshFollowUp>)
        requires
            old(self).wf(),
            now <= MAX_INSTANT_SECONDS,
        ensures
            final(self).wf(),
            r is Some <==> old(self).spec_contains(username@),
            forall|name: Seq<char>|
                #[trigger] final(self).spec_contains(name) == old(self).spec_contains(name),
            forall|name: Seq<char>|
                name != username@ && old(self).spec_contains(name)
                    ==> #[trigger] final(self).spec_at(name) == old(self).spec_at(name),
            r matches Some(f) ==> ({
                let before = old(self).spec_at(username@);
                let after = final(self).spec_at(username@);
                &&& (result matches Some(t) ==> f == RefreshFollowUp::Done && after.token == Some(
                    t,
                ) && after.expiration == (Expiration {
                    expires_in: t.expires_in as u64,
                    refreshed_at: now,
                }))
                &&& (result is None ==> f == RefreshFollowUp::ResetSession && after == before)
                &&& after.credentials == before.credentials
                &&& after.config == before.config
                &&& after.session_generation == before.session_generation
                &&& after.spec_secret() == before.spec_secret()
            }),
    {
        let i = match self.index_of(username) {
            Some(i) => i,
            None => {
                return None;
            },
        };
        let ghost pre = self.entries@;
        proof {
            lemma_entry_index_general(pre, username@);
        }
        let mut pair = self.entries.remove(i);
        let f = pair.1.apply_token_result(result, now);
        self.entries.insert(i, pair);
        proof {
            assert(self.entries@ =~= pre.update(i as int, self.entries@[i as int]));
            lemma_entry_index_update(pre, self.entries@, username@, i as int);
            assert forall|name: Seq<char>|
                name != username@ && spec_entry_index(pre, name) >= 0 implies self.entries@[
                spec_entry_index(self.entries@, name)
            ].1 == pre[spec_entry_index(pre, name)].1 by {
                lemma_entry_index_general(pre, name);
            }
        }
        Some(f)
    }

    /// Run one reconnect outcome of the session reset loop against the
    /// account logged in under `username`: a success publishes the new
    /// session generation, a failure changes nothing and is retried.
    pub fn apply_reset_outcome(&mut self, username: &UserName, connected: bool) -> (r: Option<
        ResetFollowUp,
    >)
        requires
            old(self).wf(),
            old(self).spec_contains(username@) ==> old(self).spec_at(
                username@,
            ).session_generation < u64::MAX,
        ensures
            final(self).wf(),
            r is Some <==> old(self).spec_contains(username@),
            forall|name: Seq<char>|
                #[trigger] final(self).spec_contains(name) == old(self).spec_contains(name),
            forall|name: Seq<char>|
                name != username@ && old(self).spec_contains(name)
                    ==> #[trigger] final(self).spec_at(name) == old(self).spec_at(name),
            r matches Some(f) ==> ({
                let before = old(self).spec_at(username@);
                let after = final(self).spec_at(username@);
                &&& (!connected ==> f == ResetFollowUp::RetryConnect && after == before)
                &&& (connected ==> f == ResetFollowUp::FetchTokenOnce && after.session_generation
                    == before.session_generation + 1)
                &&& after.credentials == before.credentials
                &&& after.config == before.config
                &&& after.token == before.token
                &&& after.expiration == before.expiration
                &&& after.spec_secret() == before.spec_secret()
            }),
    {
        let i = match self.index_of(username) {
            Some(i) => i,
            None => {
                return None;
            },
        };
        let ghost pre = self.entries@;
        proof {
            lemma_entry_index_general(pre, username@);
        }
        let mut pair = self.entries.remove(i);
        let f = pair.1.apply_reset_result(connected);
        self.entries.insert(i, pair);
        proof {
            assert(self.entries@ =~= pre.update(i as int, self.entries@[i as int]));
            lemma_entry_index_update(pre, self.entries@, username@, i as int);
            assert forall|name: Seq<char>|
                name != username@ && spec_entry_index(pre, name) >= 0 implies self.entries@[
                spec_entry_index(self.entries@, name)
            ].1 == pre[spec_entry_index(pre, name)].1 by {
                lemma_entry_index_general(pre, name);
            }
        }
        Some(f)
    }

    /// Run the single post-reset token request's outcome against the
    /// account logged in under `username`: a grant is published, a
    /// denial leaves the token stale for the bounded outer retry.
    pub fn apply_post_reset_outcome(&mut self, username: &UserName, result: Option<Token>, now: u64) -> (applied:
        bool)
        requires
            old(self).wf(),
            now <= MAX_INSTANT_SECONDS,
        ensures
            final(self).wf(),
            applied <==> old(self).spec_contains(username@),
            forall|name: Seq<char>|
                #[trigger] final(self).spec_contains(name) == old(self).spec_contains(name),
            forall|name: Seq<char>|
                name != username@ && old(self).spec_contains(name)
                    ==> #[trigger] final(self).spec_at(name) == old(self).spec_at(name),
            applied ==> ({
                let before = old(self).spec_at(username@);
                let after = final(self).spec_at(username@);
                &&& (result matches Some(t) ==> after.token == Some(t) && after.expiration == (
                Expiration { expires_in: t.expires_in as u64, refreshed_at: now }))
                &&& (result is None ==> after == before)
                &&& after.credentials == before.credentials
                &&& after.config == before.config
                &&& after.session_generation == before.session_generation
                &&& after.spec_secret() == before.spec_secret()
            }),
    {
        let i = match self.index_of(username) {
            Some(i) => i,
            None => {
                return false;
            },
        };
        let ghost pre = self.entries@;
        proof {
            lemma_entry_index_general(pre, username@);
        }
        let mut pair = self.entries.remove(i);
        pair.1.apply_post_reset_token(result, now);
        self.entries.insert(i, pair);
        proof {
            assert(self.entries@ =~= pre.update(i as int, self.entries@[i as int]));
            lemma_entry_index_update(pre, self.entries@, username@, i as int);
            assert forall|name: Seq<char>|
                name != username@ && spec_entry_index(pre, name) >= 0 implies self.entries@[
                spec_entry_index(self.entries@, name)
            ].1 == pre[spec_entry_index(pre, name)].1 by {
                lemma_entry_index_general(pre, name);
            }
        }
        true
    }

    /// The registered usernames, one for each entry.
    pub fn keys(&self) -> (r: Vec<UserName>)
        ensures
            r@.len() == self.spec_entries().len(),
            forall|i: int|
                0 <= i < r@.len() ==> (#[trigger] r@[i])@ == self.spec_entries()[i].0@,
    {
        let mut r: Vec<UserName> = Vec::new();
        let mut i: usize = 0;
        while i < self.entries.len()
            invariant
                i <= self.entries@.len(),
                r@.len() == i,
                forall|j: int| 0 <= j < i ==> (#[trigger] r@[j])@ == self.entries@[j].0@,
            decreases self.entries@.len() - i,
        {
            r.push(self.entries[i].0.duplicate());
            i = i + 1;
        }
        r
    }
}

spec fn spec_entry_index(entries: Seq<(UserName, SpotifyAccount)>, name: Seq<char>) -> int
    decreases entries.len(),
{
    if entries.len() == 0 {
        -1
    } else if entries[0].0@ == name {
        0
    } else {
        let r = spec_entry_index(entries.drop_first(), name);
        if r < 0 {
            -1
        } else {
            r + 1
        }
    }
}

proof fn lemma_entry_index_first(entries: Seq<(UserName, SpotifyAccount)>, name: Seq<char>, i: int)
    requires
        0 <= i < entries.len(),
        entries[i].0@ == name,
        forall|j: int| 0 <= j < i ==> entries[j].0@ != name,
    ensures
        spec_entry_index(entries, name) == i,
    decreases entries.len(),
{
    if i > 0 {
        lemma_entry_index_first(entries.drop_first(), name, i - 1);
    }
}

proof fn lemma_entry_index_bound(entries: Seq<(UserName, SpotifyAccount)>, name: Seq<char>, i: int)
    requires
        0 <= i <= entries.len(),
        forall|j: int| 0 <= j < i ==> entries[j].0@ != name,
        spec_entry_index(entries, name) >= 0,
    ensures
        spec_entry_index(entries, name) >= i,
    decreases i,
{
    if i > 0 {
        lemma_entry_index_bound(entries.drop_first(), name, i - 1);
    }
}

proof fn lemma_entry_index_none(entries: Seq<(UserName, SpotifyAccount)>, name: Seq<char>)
    requires
        forall|j: int| 0 <= j < entries.len() ==> entries[j].0@ != name,
    ensures
        spec_entry_index(entries, name) < 0,
    decreases entries.len(),
{
    if entries.len() > 0 {
        lemma_entry_index_none(entries.drop_first(), name);
    }
}

proof fn lemma_entry_index_general(entries: Seq<(UserName, SpotifyAccount)>, name: Seq<char>)
    ensures
        spec_entry_index(entries, name) >= 0 ==> (spec_entry_index(entries, name) < entries.len()
            && entries[spec_entry_index(entries, name)].0@ == name),
        spec_entry_index(entries, name) < 0 ==> (forall|j: int|
            0 <= j < entries.len() ==> entries[j].0@ != name),
        spec_entry_index(entries, name) >= -1,
    decreases entries.len(),
{
    if entries.len() > 0 {
        lemma_entry_index_general(entries.drop_first(), name);
        if spec_entry_index(entries, name) < 0 {
            assert forall|j: int| 0 <= j < entries.len() implies entries[j].0@ != name by {
                if j > 0 {
                    assert(entries.drop_first()[j - 1] == entries[j]);
                }
            }
        }
    }
}

proof fn lemma_entry_index_update(
    pre: Seq<(UserName, SpotifyAccount)>,
    post: Seq<(UserName, SpotifyAccount)>,
    name: Seq<char>,
    i: int,
)
    requires
        0 <= i < pre.len(),
        post =~= pre.update(i, post[i]),
        post.len() == pre.len(),
        pre[i].0@ == name,
        post[i].0@ == name,
        forall|a: int, b: int| 0 <= a < b < pre.len() ==> pre[a].0@ != pre[b].0@,
    ensures
        forall|n: Seq<char>|
            #![trigger spec_entry_index(post, n)]
            spec_entry_index(post, n) == spec_entry_index(pre, n),
{
    assert forall|n: Seq<char>| spec_entry_index(post, n) == spec_entry_index(pre, n) by {
        lemma_entry_index_same_keys(pre, post, n);
    }
}

proof fn lemma_entry_index_same_keys(
    pre: Seq<(UserName, SpotifyAccount)>,
    post: Seq<(UserName, SpotifyAccount)>,
    n: Seq<char>,
)
    requires
        pre.len() == post.len(),
        forall|j: int| 0 <= j < pre.len() ==> pre[j].0@ == post[j].0@,
    ensures
        spec_entry_index(post, n) == spec_entry_index(pre, n),
    decreases pre.len(),
{
    if pre.len() > 0 {
        assert forall|j: int|
            0 <= j < pre.drop_first().len() implies pre.drop_first()[j].0@ == post.drop_first()[j].0@ by {
            assert(pre.drop_first()[j] == pre[j + 1]);
            assert(post.drop_first()[j] == post[j + 1]);
        }
        lemma_entry_index_same_keys(pre.drop_first(), post.drop_first(), n);
    }
}

proof fn lemma_entry_index_push(
    pre: Seq<(UserName, SpotifyAccount)>,
    post: Seq<(UserName, SpotifyAccount)>,
    name: Seq<char>,
)
    requires
        post =~= pre.push(post[pre.len() as int]),
        post.len() == pre.len() + 1,
        post[pre.len() as int].0@ == name,
        spec_entry_index(pre, name) < 0,
    ensures
        spec_entry_index(post, name) == pre.len(),
        forall|n: Seq<char>|
            n != name ==> #[trigger] spec_entry_index(post, n) == spec_entry_index(pre, n),
    decreases pre.len(),
{
    lemma_entry_index_general(pre, name);
    lemma_entry_index_first(post, name, pre.len() as int);
    assert forall|n: Seq<char>| n != name implies #[trigger] spec_entry_index(post, n)
        == spec_entry_index(pre, n) by {
        lemma_entry_index_push_other(pre, post, n);
    }
}

proof fn lemma_entry_index_push_other(
    pre: Seq<(UserName, SpotifyAccount)>,
    post: Seq<(UserName, SpotifyAccount)>,
    n: Seq<char>,
)
    requires
        post.len() == pre.len() + 1,
        forall|j: int| 0 <= j < pre.len() ==> post[j] == pre[j],
        post[pre.len() as int].0@ != n,
    ensures
        spec_entry_index(post, n) == spec_entry_index(pre, n),
    decreases pre.len(),
{
    if pre.len() == 0 {
        assert(spec_entry_index(pre, n) == -1);
        assert(post.drop_first().len() == 0);
        assert(spec_entry_index(post.drop_first(), n) == -1);
        assert(spec_entry_index(post, n) == -1);
    } else {
        assert(post[0] == pre[0]);
        assert forall|j: int|
            0 <= j < pre.drop_first().len() implies post.drop_first()[j] == pre.drop_first()[j] by {
            assert(pre.drop_first()[j] == pre[j + 1]);
            assert(post.drop_first()[j] == post[j + 1]);
        }
        assert(post.drop_first()[pre.drop_first().len() as int] == post[pre.len() as int]);
        lemma_entry_index_push_other(pre.drop_first(), post.drop_first(), n);
        if pre[0].0@ == n {
            assert(spec_entry_index(post, n) == 0 && spec_entry_index(pre, n) == 0);
        } else {
            assert(spec_entry_index(post, n) == (if spec_entry_index(post.drop_first(), n) < 0 {
                -1int
            } else {
                spec_entry_index(post.drop_first(), n) + 1
            }));
            assert(spec_entry_index(pre, n) == (if spec_entry_index(pre.drop_first(), n) < 0 {
                -1int
            } else {
                spec_entry_index(pre.drop_first(), n) + 1
            }));
        }
    }
}

/// What an authorization check asks the caller to do next.
#[derive(Clone, Copy, Debug, PartialEq, Eq, Structural)]
pub enum Authorization {
    /// The account's token is fresh; proceed with the request.
    Ready,
    /// The account exists but its token is expiring; run the refresh
    /// path (under the account's refresh lock) and check again.
    RefreshNeeded,
}

/// The server's account store: the registry and the catalog client id
/// every token request is scoped to.
pub struct AppStore {
    /// Client identifier presented upstream when requesting tokens.
    pub client_id: String,
    /// The registry of logged-in accounts.
    pub accounts: SpotifyAccounts,
}

impl AppStore {
    /// A store with no accounts.
    pub fn new(client_id: &str) -> (s: AppStore)
        ensures
            s.accounts.wf(),
            s.client_id@ == client_id@,
            forall|name: Seq<char>| !s.accounts.spec_contains(name),
    {
        AppStore { client_id: String::from_str(client_id), accounts: SpotifyAccounts::new() }
    }

    /// Register an account under `username`; replaces, never merges.
    pub fn insert_account(&mut self, username: UserName, account: SpotifyAccount)
        requires
            old(self).accounts.wf(),
            account.wf(),
            account.spec_secret().len() == 16,
        ensures
            final(self).accounts.wf(),
            final(self).accounts.spec_contains(username@),
            final(self).accounts.spec_at(username@) == account,
            final(self).client_id == old(self).client_id,
            forall|name: Seq<char>|
                name != username@ ==> #[trigger] final(self).accounts.spec_contains(name)
                    == old(self).accounts.spec_contains(name),
    {
        self.accounts.insert(username, account);
    }

    /// The authorization check run on every request: an unknown
    /// username is rejected — never silently turned into an account —
    /// and a known one is admitted, with a refresh demanded first
    /// exactly when its token is expiring.
    pub fn authorize(&self, username: &UserName, now: u64) -> (r: Result<
        Authorization,
        ServerError,
    >)
        requires
            self.accounts.wf(),
            now <= MAX_INSTANT_SECONDS,
        ensures
            r is Ok <==> self.accounts.spec_contains(username@),
            r matches Ok(a) ==> a == (if self.accounts.spec_at(
                username@,
            ).expiration.spec_expires(now) {
                Authorization::RefreshNeeded
            } else {
                Authorization::Ready
            }),
            r matches Err(e) ==> e matches ServerError::AuthenticationError,
    {
        proof {
            lemma_entry_index_general(self.accounts.spec_entries(), username@);
        }
        match self.accounts.get(username) {
            Some(account) => {
                if account.token_expires(now) {
                    Ok(Authorization::RefreshNeeded)
                } else {
                    Ok(Authorization::Ready)
                }
            },
            None => Err(ServerError::AuthenticationError),
        }
    }

    /// Pick the username a cookie-login binds to: a requested name is
    /// honoured only if it is logged in; with no name requested, any
    /// logged-in account serves; an empty registry rejects the login.
    pub fn pick_login_username(&self, requested: Option<&UserName>) -> (r: Result<
        UserName,
        ServerError,
    >)
        ensures
            r matches Ok(u) ==> self.accounts.spec_contains(u@),
            requested matches Some(q) ==> (r matches Ok(u) ==> u@ == q@),
            requested matches Some(q) ==> ((r is Ok) <==> self.accounts.spec_contains(q@)),
            requested is None ==> ((r is Ok) <==> self.accounts.spec_entries().len() > 0),
            r matches Err(e) ==> e matches ServerError::NoLoginError,
    {
        match requested {
            Some(q) => {
                if self.accounts.contains_key(q) {
                    Ok(q.duplicate())
                } else {
                    Err(ServerError::NoLoginError)
                }
            },
            None => {
                let keys = self.accounts.keys();
                if keys.len() > 0 {
                    let u = keys[0].duplicate();
                    proof {
                        lemma_entry_index_first(self.accounts.spec_entries(), u@, 0);
                    }
                    Ok(u)
                } else {
                    Err(ServerError::NoLoginError)
                }
            },
        }
    }
}

} // verus!
