//! The keys of named peers, asked for at the peer's own `/_matrix/key/v2/server`.
//!
//! A resolved key is kept for the lifetime of the process: a peer that changes its key gives it a
//! new identifier. The request and the check of the peer's signature are made outside.

use vstd::prelude::*;
use vstd::string::StringExecFns;

use crate::ids::{check_server_name, server_name_complaint, valid_server_name};
use crate::table::Table;
use crate::text::texts;

verus! {

/// Why a key could not be had.
#[derive(Debug, PartialEq, Eq)]
pub struct KeyResolveError {
    pub server_name: String,
    pub key_id: String,
    pub reason: String,
}

impl KeyResolveError {
    /// Whether this error is of a key, for a reason.
    pub open spec fn is(
        self,
        server_name: Seq<char>,
        key_id: Seq<char>,
        reason: Seq<char>,
    ) -> bool {
        self.server_name@ == server_name && self.key_id@ == key_id && self.reason@ == reason
    }

    fn new(server_name: &str, key_id: &str, reason: String) -> (error: KeyResolveError)
        ensures
            error.is(server_name@, key_id@, reason@),
    {
        KeyResolveError {
            server_name: server_name.to_owned(),
            key_id: key_id.to_owned(),
            reason,
        }
    }
}

/// What to do for a key.
#[derive(Debug, PartialEq, Eq)]
pub enum KeyPlan {
    /// It is known.
    Known([u8; 32]),
    /// Its server is to be asked.
    Fetch,
    /// It cannot be had.
    Refused(KeyResolveError),
}

/// Where the key of a server is kept.
pub open spec fn key_place(server_name: Seq<char>, key_id: Seq<char>) -> Seq<Seq<char>> {
    seq![server_name, key_id]
}

/// Resolves the keys of peers that have a name, and remembers them.
#[derive(Debug, PartialEq, Eq)]
pub struct HttpKeyResolver {
    pub cache: Table<[u8; 32]>,
}

impl View for HttpKeyResolver {
    type V = Map<Seq<Seq<char>>, [u8; 32]>;

    open spec fn view(&self) -> Map<Seq<Seq<char>>, [u8; 32]> {
        self.cache@
    }
}

fn place(server_name: &str, key_id: &str) -> (key: Vec<String>)
    ensures
        texts(key@) == key_place(server_name@, key_id@),
{
    let mut key: Vec<String> = Vec::new();
    key.push(server_name.to_owned());
    key.push(key_id.to_owned());
    assert(texts(key@) =~= key_place(server_name@, key_id@));
    key
}

impl HttpKeyResolver {
    /// No key is kept twice.
    pub open spec fn wf(self) -> bool {
        self.cache.wf()
    }

    /// A resolver that knows no key yet.
    pub fn new() -> (resolver: HttpKeyResolver)
        ensures
            resolver.wf(),
            resolver@ == Map::<Seq<Seq<char>>, [u8; 32]>::empty(),
    {
        HttpKeyResolver { cache: Table::new() }
    }

    /// The key, if it is known.
    pub fn cached(&self, server_name: &str, key_id: &str) -> (key: Option<[u8; 32]>)
        ensures
            match key {
                Some(key) => {
                    &&& self@.contains_key(key_place(server_name@, key_id@))
                    &&& self@[key_place(server_name@, key_id@)] == key
                },
                None => !self@.contains_key(key_place(server_name@, key_id@)),
            },
    {
        match self.cache.get(&place(server_name, key_id)) {
            Some(key) => Some(*key),
            None => None,
        }
    }

    /// What to do for a key: nothing if it is known, else to ask its server, if that is one.
    pub fn plan(&self, server_name: &str, key_id: &str) -> (plan: KeyPlan)
        ensures
            match plan {
                KeyPlan::Known(key) => {
                    &&& self@.contains_key(key_place(server_name@, key_id@))
                    &&& self@[key_place(server_name@, key_id@)] == key
                },
                KeyPlan::Fetch => {
                    &&& !self@.contains_key(key_place(server_name@, key_id@))
                    &&& valid_server_name(server_name@)
                },
                KeyPlan::Refused(error) => {
                    &&& !self@.contains_key(key_place(server_name@, key_id@))
                    &&& !valid_server_name(server_name@)
                    &&& error.is(
                        server_name@,
                        key_id@,
                        "not a valid server name: "@ + server_name_complaint(),
                    )
                },
            },
    {
        if let Some(key) = self.cached(server_name, key_id) {
            return KeyPlan::Known(key);
        }
        match check_server_name(server_name) {
            Ok(_) => KeyPlan::Fetch,
            Err(complaint) => KeyPlan::Refused(
                KeyResolveError::new(
                    server_name,
                    key_id,
                    "not a valid server name: ".to_owned().concat(complaint.as_str()),
                ),
            ),
        }
    }

    /// Takes what asking the server came to. A key is kept; a failure leaves nothing behind.
    pub fn settle(
        &mut self,
        server_name: &str,
        key_id: &str,
        fetched: Result<[u8; 32], String>,
    ) -> (key: Result<[u8; 32], KeyResolveError>)
        requires
            old(self).wf(),
        ensures
            final(self).wf(),
            match fetched {
                Ok(found) => {
                    &&& key == Ok::<[u8; 32], KeyResolveError>(found)
                    &&& final(self)@ == old(self)@.insert(key_place(server_name@, key_id@), found)
                },
                Err(reason) => {
                    &&& key matches Err(error) && error.is(server_name@, key_id@, reason@)
                    &&& final(self)@ == old(self)@
                },
            },
    {
        match fetched {
            Ok(found) => {
                self.cache.insert(place(server_name, key_id), found);
                Ok(found)
            },
            Err(reason) => Err(KeyResolveError::new(server_name, key_id, reason)),
        }
    }
}

/// A key that was resolved stays known, whatever becomes of other keys.
pub proof fn resolved_stays_known(
    known: Map<Seq<Seq<char>>, [u8; 32]>,
    server_name: Seq<char>,
    key_id: Seq<char>,
    key: [u8; 32],
    other_server: Seq<char>,
    other_id: Seq<char>,
    other_key: [u8; 32],
)
    requires
        other_server != server_name || other_id != key_id,
    ensures
        known.insert(key_place(server_name, key_id), key).insert(
            key_place(other_server, other_id),
            other_key,
        )[key_place(server_name, key_id)] == key,
{
    let here = key_place(server_name, key_id);
    let there = key_place(other_server, other_id);
    assert(here[0] != there[0] || here[1] != there[1]);
}

/// A key is asked for only where it is not known, and only from what is a server name.
pub proof fn asked_only_when_unknown(
    resolver: HttpKeyResolver,
    server_name: &str,
    key_id: &str,
    plan: KeyPlan,
)
    requires
        call_ensures(HttpKeyResolver::plan, (&resolver, server_name, key_id), plan),
    ensures
        ({
            let place = seq![server_name@, key_id@];
            &&& resolver@.contains_key(place) ==> plan == KeyPlan::Known(resolver@[place])
            &&& !resolver@.contains_key(place) && valid_server_name(server_name@) ==> plan is Fetch
            &&& !resolver@.contains_key(place) && !valid_server_name(server_name@) ==> plan
                is Refused
        }),
{
}

/// A key that was fetched is known from then on, and every other stays as it was; a fetch that failed
/// changes nothing.
pub proof fn fetched_is_kept(
    resolver: &mut HttpKeyResolver,
    server_name: &str,
    key_id: &str,
    fetched: Result<[u8; 32], String>,
    key: Result<[u8; 32], KeyResolveError>,
    other_server: Seq<char>,
    other_id: Seq<char>,
)
    requires
        call_ensures(HttpKeyResolver::settle, (resolver, server_name, key_id, fetched), key),
    ensures
        key is Ok <==> fetched is Ok,
        fetched matches Ok(found) ==> key->Ok_0 == found && final(resolver)@.contains_key(
            seq![server_name@, key_id@],
        ) && final(resolver)@[seq![server_name@, key_id@]] == found,
        fetched is Err ==> final(resolver)@ == old(resolver)@,
        fetched matches Err(reason) ==> key->Err_0.server_name@ == server_name@
            && key->Err_0.key_id@ == key_id@ && key->Err_0.reason@ == reason@,
        other_server != server_name@ || other_id != key_id@ ==> {
            let place = seq![other_server, other_id];
            &&& final(resolver)@.contains_key(place) == old(resolver)@.contains_key(place)
            &&& final(resolver)@[place] == old(resolver)@[place]
        },
{
    let place = seq![other_server, other_id];
    let own = key_place(server_name@, key_id@);
    assert(place[0] == other_server && place[1] == other_id);
    assert(own[0] == server_name@ && own[1] == key_id@);
    assert(own =~= seq![server_name@, key_id@]);
}

} // verus!
