//! The host registry (alias -> peer identity) and the key registry
//! (name -> secret identity with one designated default), as in-memory
//! documents. Aliases are unique, identities are unique across hosts, and
//! every mutation states exactly when it succeeds and what it changes.

use vstd::prelude::*;
use vstd::string::StringExecFns;
use crate::error::PoofError;

verus! {

/// The abstract value of a [`Host`].
pub struct HostView {
    pub alias: Seq<char>,
    pub public_key: Seq<char>,
    pub description: Option<Seq<char>>,
    pub added_at: u64,
    pub last_seen: Option<u64>,
    pub metadata: Seq<(Seq<char>, Seq<char>)>,
}

/// A locally named alias bound to one peer identity, with metadata and
/// timestamps in whole seconds.
#[derive(Debug)]
pub struct Host {
    pub alias: String,
    pub public_key: String,
    pub description: Option<String>,
    pub added_at: u64,
    pub last_seen: Option<u64>,
    pub metadata: Vec<(String, String)>,
}

impl View for Host {
    type V = HostView;

    open spec fn view(&self) -> HostView {
        HostView {
            alias: self.alias@,
            public_key: self.public_key@,
            description: match self.description {
                Some(d) => Some(d@),
                None => None,
            },
            added_at: self.added_at,
            last_seen: self.last_seen,
            metadata: self.metadata@.map_values(|p: (String, String)| (p.0@, p.1@)),
        }
    }
}

impl Host {
    /// Creates a host record added at time `now` (seconds), never seen yet.
    pub fn new(alias: String, public_key: String, description: Option<String>, now: u64) -> (h:
        Host)
        ensures
            h@.alias == alias@,
            h@.public_key == public_key@,
            h@.description == (match description {
                Some(d) => Some(d@),
                None => None::<Seq<char>>,
            }),
            h@.added_at == now,
            h@.last_seen is None,
            h@.metadata.len() == 0,
    {
        let h = Host {
            alias,
            public_key,
            description,
            added_at: now,
            last_seen: None,
            metadata: Vec::new(),
        };
        proof {
            assert(h@.metadata =~= Seq::<(Seq<char>, Seq<char>)>::empty());
        }
        h
    }

    /// Marks the host as seen at time `now`.
    pub fn update_last_seen(&mut self, now: u64)
        ensures
            final(self)@ == (HostView { last_seen: Some(now), ..old(self)@ }),
    {
        self.last_seen = Some(now);
    }

    /// Inserts or overwrites one metadata entry, keeping the first matching
    /// key's position.
    pub fn add_metadata(&mut self, key: String, value: String)
        ensures
            ({
                let m = old(self)@.metadata;
                let m2 = final(self)@.metadata;
                &&& final(self)@.alias == old(self)@.alias
                &&& final(self)@.public_key == old(self)@.public_key
                &&& final(self)@.description == old(self)@.description
                &&& final(self)@.added_at == old(self)@.added_at
                &&& final(self)@.last_seen == old(self)@.last_seen
                &&& if exists|i: int| 0 <= i < m.len() && m[i].0 == key@ {
                    exists|i: int|
                        {
                            &&& 0 <= i < m.len()
                            &&& m[i].0 == key@
                            &&& (forall|j: int| 0 <= j < i ==> m[j].0 != key@)
                            &&& m2 == m.update(i, (key@, value@))
                        }
                } else {
                    m2 == m.push((key@, value@))
                }
            }),
    {
        let ghost m = self@.metadata;
        let mut i: usize = 0;
        while i < self.metadata.len()
            invariant
                i <= self.metadata.len(),
                m == self@.metadata,
                *self == *old(self),
                forall|j: int| 0 <= j < i ==> m[j].0 != key@,
            decreases self.metadata.len() - i,
        {
            if self.metadata[i].0 == key {
                proof {
                    assert(m[i as int].0 == self.metadata@[i as int].0@);
                    assert(exists|k: int| 0 <= k < m.len() && m[k].0 == key@);
                }
                let _ = self.metadata.remove(i);
                self.metadata.insert(i, (key, value));
                proof {
                    assert(final(self)@.metadata =~= m.update(i as int, (key@, value@)));
                }
                return ;
            }
            i = i + 1;
        }
        self.metadata.push((key, value));
        proof {
            assert(final(self)@.metadata =~= m.push((key@, value@)));
        }
    }

    /// The time the host was added, in whole seconds.
    pub fn added_at(&self) -> (r: u64)
        ensures
            r == self@.added_at,
    {
        self.added_at
    }

    /// The time of the last successful catch from this host, if any.
    pub fn last_seen(&self) -> (r: Option<u64>)
        ensures
            r == self@.last_seen,
    {
        self.last_seen
    }
}

/// Whether some entry carries this alias.
pub open spec fn has_alias(s: Seq<HostView>, alias: Seq<char>) -> bool {
    exists|i: int| 0 <= i < s.len() && s[i].alias == alias
}

/// Whether some entry carries this peer identity.
pub open spec fn has_public_key(s: Seq<HostView>, pk: Seq<char>) -> bool {
    exists|i: int| 0 <= i < s.len() && s[i].public_key == pk
}

/// The registry invariant: aliases unique, identities unique across hosts.
pub open spec fn hosts_wf(s: Seq<HostView>) -> bool {
    forall|i: int, j: int|
        0 <= i < j < s.len() ==> s[i].alias != s[j].alias && s[i].public_key != s[j].public_key
}

/// The in-memory host directory: the whole persisted document.
#[derive(Debug)]
pub struct HostConfig {
    pub hosts: Vec<Host>,
}

impl View for HostConfig {
    type V = Seq<HostView>;

    open spec fn view(&self) -> Seq<HostView> {
        self.hosts@.map_values(|h: Host| h@)
    }
}

impl Default for HostConfig {
    /// The empty directory, used when no document exists yet.
    fn default() -> (c: HostConfig)
        ensures
            c@.len() == 0,
    {
        HostConfig { hosts: Vec::new() }
    }
}

/// The first index holding this alias, if any; `None` reports that no entry
/// does.
fn find_alias(hosts: &Vec<Host>, alias: &String) -> (r: Option<usize>)
    ensures
        ({
            let s = hosts@.map_values(|h: Host| h@);
            match r {
                Some(i) => i < s.len() && s[i as int].alias == alias@ && (forall|j: int|
                    0 <= j < i ==> s[j].alias != alias@),
                None => forall|j: int| 0 <= j < s.len() ==> s[j].alias != alias@,
            }
        }),
{
    let ghost s = hosts@.map_values(|h: Host| h@);
    let mut i: usize = 0;
    while i < hosts.len()
        invariant
            i <= hosts.len(),
            s == hosts@.map_values(|h: Host| h@),
            forall|j: int| 0 <= j < i ==> s[j].alias != alias@,
        decreases hosts.len() - i,
    {
        proof {
            assert(s[i as int] == hosts@[i as int]@);
        }
        if hosts[i].alias == *alias {
            return Some(i);
        }
        i = i + 1;
    }
    None
}

/// The first index holding this peer identity, if any.
pub(crate) fn find_public_key(hosts: &Vec<Host>, pk: &String) -> (r: Option<usize>)
    ensures
        ({
            let s = hosts@.map_values(|h: Host| h@);
            match r {
                Some(i) => i < s.len() && s[i as int].public_key == pk@ && (forall|j: int|
                    0 <= j < i ==> s[j].public_key != pk@),
                None => forall|j: int| 0 <= j < s.len() ==> s[j].public_key != pk@,
            }
        }),
{
    let ghost s = hosts@.map_values(|h: Host| h@);
    let mut i: usize = 0;
    while i < hosts.len()
        invariant
            i <= hosts.len(),
            s == hosts@.map_values(|h: Host| h@),
            forall|j: int| 0 <= j < i ==> s[j].public_key != pk@,
        decreases hosts.len() - i,
    {
        proof {
            assert(s[i as int] == hosts@[i as int]@);
        }
        if hosts[i].public_key == *pk {
            return Some(i);
        }
        i = i + 1;
    }
    None
}

impl HostConfig {
    /// Adds a host; rejected before any mutation if the alias is taken or the
    /// identity is already bound to some alias.
    pub fn add_host(&mut self, host: Host) -> (r: Result<(), PoofError>)
        ensures
            r is Ok <==> !has_alias(old(self)@, host@.alias) && !has_public_key(
                old(self)@,
                host@.public_key,
            ),
            r is Ok ==> final(self)@ == old(self)@.push(host@),
            r is Err ==> final(self)@ == old(self)@ && r->Err_0 is Conflict,
            hosts_wf(old(self)@) ==> hosts_wf(final(self)@),
    {
        if let Some(i) = find_alias(&self.hosts, &host.alias) {
            proof {
                assert(old(self)@[i as int].alias == host@.alias);
                assert(has_alias(old(self)@, host@.alias));
            }
            return Err(
                PoofError::Conflict {
                    message: "Host with alias '".to_owned().concat(host.alias.as_str()).concat(
                        "' already exists",
                    ),
                },
            );
        }
        if let Some(i) = find_public_key(&self.hosts, &host.public_key) {
            proof {
                assert(old(self)@[i as int].public_key == host@.public_key);
                assert(has_public_key(old(self)@, host@.public_key));
            }
            return Err(
                PoofError::Conflict {
                    message: "Host with public key '".to_owned().concat(
                        host.public_key.as_str(),
                    ).concat("' already exists"),
                },
            );
        }
        self.hosts.push(host);
        proof {
            assert(final(self)@ =~= old(self)@.push(host@));
        }
        Ok(())
    }

    /// Removes the host with this alias and returns it; fails if absent.
    pub fn remove_host(&mut self, alias: &String) -> (r: Result<Host, PoofError>)
        ensures
            r is Ok <==> has_alias(old(self)@, alias@),
            r is Err ==> final(self)@ == old(self)@ && r->Err_0 is NotFound,
            r matches Ok(h) ==> exists|i: int|
                {
                    &&& 0 <= i < old(self)@.len()
                    &&& old(self)@[i].alias == alias@
                    &&& (forall|j: int| 0 <= j < i ==> old(self)@[j].alias != alias@)
                    &&& h@ == old(self)@[i]
                    &&& final(self)@ == old(self)@.remove(i)
                },
            hosts_wf(old(self)@) ==> hosts_wf(final(self)@),
    {
        match find_alias(&self.hosts, alias) {
            Some(i) => {
                let h = self.hosts.remove(i);
                proof {
                    assert(final(self)@ =~= old(self)@.remove(i as int));
                }
                Ok(h)
            },
            None => Err(
                PoofError::NotFound {
                    message: "Host with alias '".to_owned().concat(alias.as_str()).concat(
                        "' not found",
                    ),
                },
            ),
        }
    }

    /// Looks the alias up; `None` reports that no entry carries it.
    pub fn get_host(&self, alias: &String) -> (r: Option<&Host>)
        ensures
            match r {
                Some(h) => exists|i: int|
                    {
                        &&& 0 <= i < self@.len()
                        &&& self@[i].alias == alias@
                        &&& (forall|j: int| 0 <= j < i ==> self@[j].alias != alias@)
                        &&& h@ == self@[i]
                    },
                None => !has_alias(self@, alias@),
            },
    {
        match find_alias(&self.hosts, alias) {
            Some(i) => {
                proof {
                    assert(self@[i as int] == self.hosts@[i as int]@);
                }
                Some(&self.hosts[i])
            },
            None => None,
        }
    }

    /// Looks a peer identity up; `None` reports that no entry carries it.
    pub fn find_by_public_key(&self, public_key: &String) -> (r: Option<&Host>)
        ensures
            match r {
                Some(h) => exists|i: int|
                    {
                        &&& 0 <= i < self@.len()
                        &&& self@[i].public_key == public_key@
                        &&& (forall|j: int| 0 <= j < i ==> self@[j].public_key != public_key@)
                        &&& h@ == self@[i]
                    },
                None => !has_public_key(self@, public_key@),
            },
    {
        match find_public_key(&self.hosts, public_key) {
            Some(i) => {
                proof {
                    assert(self@[i as int] == self.hosts@[i as int]@);
                }
                Some(&self.hosts[i])
            },
            None => None,
        }
    }

    /// All entries, in storage order.
    pub fn list_hosts(&self) -> (r: &Vec<Host>)
        ensures
            r@.map_values(|h: Host| h@) == self@,
    {
        &self.hosts
    }

    /// Marks the host with this alias as seen at `now`; a silent no-op if the
    /// alias is absent.
    pub fn update_last_seen(&mut self, alias: &String, now: u64)
        ensures
            !has_alias(old(self)@, alias@) ==> final(self)@ == old(self)@,
            has_alias(old(self)@, alias@) ==> exists|i: int|
                {
                    &&& 0 <= i < old(self)@.len()
                    &&& old(self)@[i].alias == alias@
                    &&& (forall|j: int| 0 <= j < i ==> old(self)@[j].alias != alias@)
                    &&& final(self)@ == old(self)@.update(
                        i,
                        HostView { last_seen: Some(now), ..old(self)@[i] },
                    )
                },
            hosts_wf(old(self)@) ==> hosts_wf(final(self)@),
    {
        match find_alias(&self.hosts, alias) {
            Some(i) => {
                let mut h = self.hosts.remove(i);
                h.update_last_seen(now);
                self.hosts.insert(i, h);
                proof {
                    assert(final(self)@ =~= old(self)@.update(
                        i as int,
                        HostView { last_seen: Some(now), ..old(self)@[i as int] },
                    ));
                }
            },
            None => {
                proof {
                    assert(final(self)@ =~= old(self)@);
                }
            },
        }
    }

    /// Renames a host atomically: fails if the old alias is absent or the new
    /// one is taken, and then changes nothing at all.
    pub fn update_host_alias(&mut self, old_alias: &String, new_alias: String) -> (r: Result<
        (),
        PoofError,
    >)
        ensures
            r is Ok <==> has_alias(old(self)@, old_alias@) && !has_alias(old(self)@, new_alias@),
            r is Err ==> final(self)@ == old(self)@,
            has_alias(old(self)@, new_alias@) ==> (r matches Err(e) && e is Conflict),
            (!has_alias(old(self)@, new_alias@) && !has_alias(old(self)@, old_alias@)) ==> (
            r matches Err(e) && e is NotFound),
            r is Ok ==> exists|i: int|
                {
                    &&& 0 <= i < old(self)@.len()
                    &&& old(self)@[i].alias == old_alias@
                    &&& (forall|j: int| 0 <= j < i ==> old(self)@[j].alias != old_alias@)
                    &&& final(self)@ == old(self)@.update(
                        i,
                        HostView { alias: new_alias@, ..old(self)@[i] },
                    )
                },
            hosts_wf(old(self)@) ==> hosts_wf(final(self)@),
    {
        if let Some(_) = find_alias(&self.hosts, &new_alias) {
            return Err(
                PoofError::Conflict {
                    message: "Host with alias '".to_owned().concat(new_alias.as_str()).concat(
                        "' already exists",
                    ),
                },
            );
        }
        match find_alias(&self.hosts, old_alias) {
            Some(i) => {
                let mut h = self.hosts.remove(i);
                h.alias = new_alias;
                self.hosts.insert(i, h);
                proof {
                    assert(final(self)@ =~= old(self)@.update(
                        i as int,
                        HostView { alias: new_alias@, ..old(self)@[i as int] },
                    ));
                }
                Ok(())
            },
            None => Err(
                PoofError::NotFound {
                    message: "Host with alias '".to_owned().concat(old_alias.as_str()).concat(
                        "' not found",
                    ),
                },
            ),
        }
    }
}

/// The abstract value of a [`HostKey`].
pub struct HostKeyView {
    pub name: Seq<char>,
    pub secret_key: Seq<char>,
    pub created_at: u64,
    pub description: Option<Seq<char>>,
}

/// A named secret identity, stored in its canonical string form.
#[derive(Debug)]
pub struct HostKey {
    pub name: String,
    pub secret_key: String,
    pub created_at: u64,
    pub description: Option<String>,
}

impl View for HostKey {
    type V = HostKeyView;

    open spec fn view(&self) -> HostKeyView {
        HostKeyView {
            name: self.name@,
            secret_key: self.secret_key@,
            created_at: self.created_at,
            description: match self.description {
                Some(d) => Some(d@),
                None => None,
            },
        }
    }
}

impl HostKey {
    /// Creates a key record created at time `now` (seconds).
    pub fn new(name: String, secret_key: String, description: Option<String>, now: u64) -> (k:
        HostKey)
        ensures
            k@.name == name@,
            k@.secret_key == secret_key@,
            k@.created_at == now,
            k@.description == (match description {
                Some(d) => Some(d@),
                None => None::<Seq<char>>,
            }),
    {
        HostKey { name, secret_key, created_at: now, description }
    }

    /// The time the key was created, in whole seconds.
    pub fn created_at(&self) -> (r: u64)
        ensures
            r == self@.created_at,
    {
        self.created_at
    }
}

/// Whether some key carries this name.
pub open spec fn has_key_name(s: Seq<HostKeyView>, name: Seq<char>) -> bool {
    exists|i: int| 0 <= i < s.len() && s[i].name == name
}

/// The key registry invariant: names unique, and the designated default, if
/// any, names a present key.
pub open spec fn keys_wf(keys: Seq<HostKeyView>, default_key: Option<Seq<char>>) -> bool {
    &&& forall|i: int, j: int| 0 <= i < j < keys.len() ==> keys[i].name != keys[j].name
    &&& (default_key matches Some(d) ==> has_key_name(keys, d))
}

/// The abstract value of a [`KeyConfig`].
pub struct KeyConfigView {
    pub keys: Seq<HostKeyView>,
    pub default_key: Option<Seq<char>>,
}

/// The in-memory key directory with its designated default: the whole
/// persisted document.
#[derive(Debug)]
pub struct KeyConfig {
    pub keys: Vec<HostKey>,
    pub default_key: Option<String>,
}

impl View for KeyConfig {
    type V = KeyConfigView;

    open spec fn view(&self) -> KeyConfigView {
        KeyConfigView {
            keys: self.keys@.map_values(|k: HostKey| k@),
            default_key: match self.default_key {
                Some(d) => Some(d@),
                None => None,
            },
        }
    }
}

impl Default for KeyConfig {
    /// The empty directory with no default, used when no document exists yet.
    fn default() -> (c: KeyConfig)
        ensures
            c@.keys.len() == 0,
            c@.default_key is None,
    {
        KeyConfig { keys: Vec::new(), default_key: None }
    }
}

/// The first index holding this key name, if any.
fn find_key_name(keys: &Vec<HostKey>, name: &String) -> (r: Option<usize>)
    ensures
        ({
            let s = keys@.map_values(|k: HostKey| k@);
            match r {
                Some(i) => i < s.len() && s[i as int].name == name@ && (forall|j: int|
                    0 <= j < i ==> s[j].name != name@),
                None => forall|j: int| 0 <= j < s.len() ==> s[j].name != name@,
            }
        }),
{
    let ghost s = keys@.map_values(|k: HostKey| k@);
    let mut i: usize = 0;
    while i < keys.len()
        invariant
            i <= keys.len(),
            s == keys@.map_values(|k: HostKey| k@),
            forall|j: int| 0 <= j < i ==> s[j].name != name@,
        decreases keys.len() - i,
    {
        proof {
            assert(s[i as int] == keys@[i as int]@);
        }
        if keys[i].name == *name {
            return Some(i);
        }
        i = i + 1;
    }
    None
}

impl KeyConfig {
    /// Adds a key; fails if the name is taken. The first key ever added
    /// becomes the default automatically.
    pub fn add_key(&mut self, key: HostKey) -> (r: Result<(), PoofError>)
        ensures
            r is Ok <==> !has_key_name(old(self)@.keys, key@.name),
            r is Ok ==> final(self)@.keys == old(self)@.keys.push(key@),
            r is Ok ==> final(self)@.default_key == (if old(self)@.default_key is None {
                Some(key@.name)
            } else {
                old(self)@.default_key
            }),
            r is Err ==> final(self)@ == old(self)@ && r->Err_0 is Conflict,
            keys_wf(old(self)@.keys, old(self)@.default_key) ==> keys_wf(
                final(self)@.keys,
                final(self)@.default_key,
            ),
    {
        if let Some(i) = find_key_name(&self.keys, &key.name) {
            proof {
                assert(old(self)@.keys[i as int].name == key@.name);
                assert(has_key_name(old(self)@.keys, key@.name));
            }
            return Err(
                PoofError::Conflict {
                    message: "Key with name '".to_owned().concat(key.name.as_str()).concat(
                        "' already exists",
                    ),
                },
            );
        }
        let name = key.name.clone();
        self.keys.push(key);
        if self.default_key.is_none() {
            self.default_key = Some(name);
        }
        proof {
            assert(final(self)@.keys =~= old(self)@.keys.push(key@));
            assert(final(self)@.keys[old(self)@.keys.len() as int].name == key@.name);
            if keys_wf(old(self)@.keys, old(self)@.default_key) {
                if old(self)@.default_key is Some {
                    let d = old(self)@.default_key.unwrap();
                    let i = choose|i: int|
                        0 <= i < old(self)@.keys.len() && old(self)@.keys[i].name == d;
                    assert(final(self)@.keys[i].name == d);
                }
            }
        }
        Ok(())
    }

    /// Removes the key with this name and returns it; fails if absent. If the
    /// removed key was the default, the default moves to the first remaining
    /// key, or is cleared when none remain.
    pub fn remove_key(&mut self, name: &String) -> (r: Result<HostKey, PoofError>)
        ensures
            r is Ok <==> has_key_name(old(self)@.keys, name@),
            r is Err ==> final(self)@ == old(self)@ && r->Err_0 is NotFound,
            r matches Ok(k) ==> exists|i: int|
                {
                    &&& 0 <= i < old(self)@.keys.len()
                    &&& old(self)@.keys[i].name == name@
                    &&& (forall|j: int| 0 <= j < i ==> old(self)@.keys[j].name != name@)
                    &&& k@ == old(self)@.keys[i]
                    &&& final(self)@.keys == old(self)@.keys.remove(i)
                },
            r is Ok ==> final(self)@.default_key == (if old(self)@.default_key == Some(name@) {
                if final(self)@.keys.len() == 0 {
                    None
                } else {
                    Some(final(self)@.keys[0].name)
                }
            } else {
                old(self)@.default_key
            }),
            keys_wf(old(self)@.keys, old(self)@.default_key) ==> keys_wf(
                final(self)@.keys,
                final(self)@.default_key,
            ),
    {
        match find_key_name(&self.keys, name) {
            Some(i) => {
                proof {
                    assert(old(self)@.keys[i as int].name == name@);
                }
                let k = self.keys.remove(i);
                let is_default = match &self.default_key {
                    Some(d) => *d == *name,
                    None => false,
                };
                if is_default {
                    if self.keys.len() == 0 {
                        self.default_key = None;
                    } else {
                        proof {
                            assert(self@.keys[0] == self.keys@[0]@);
                        }
                        self.default_key = Some(self.keys[0].name.clone());
                    }
                }
                proof {
                    assert(final(self)@.keys =~= old(self)@.keys.remove(i as int));
                    if keys_wf(old(self)@.keys, old(self)@.default_key) {
                        let oldk = old(self)@.keys;
                        let newk = self@.keys;
                        assert(forall|a: int, b: int|
                            0 <= a < b < newk.len() ==> newk[a].name != newk[b].name);
                        if self@.default_key is Some {
                            let d = self@.default_key.unwrap();
                            if old(self)@.default_key == Some(name@) {
                                assert(newk.len() > 0 && d == newk[0].name);
                            } else {
                                assert(old(self)@.default_key is Some);
                                assert(d == old(self)@.default_key.unwrap());
                                let j = choose|j: int|
                                    0 <= j < oldk.len() && oldk[j].name == d;
                                assert(oldk[j].name != name@);
                                assert(j != i);
                                if j < i {
                                    assert(newk[j].name == d);
                                } else {
                                    assert(newk[j - 1].name == d);
                                }
                            }
                            assert(has_key_name(newk, d));
                        }
                    }
                }
                Ok(k)
            },
            None => Err(
                PoofError::NotFound {
                    message: "Key with name '".to_owned().concat(name.as_str()).concat(
                        "' not found",
                    ),
                },
            ),
        }
    }

    /// Looks a key name up; `None` reports that no key carries it.
    pub fn get_key(&self, name: &String) -> (r: Option<&HostKey>)
        ensures
            match r {
                Some(k) => exists|i: int|
                    {
                        &&& 0 <= i < self@.keys.len()
                        &&& self@.keys[i].name == name@
                        &&& (forall|j: int| 0 <= j < i ==> self@.keys[j].name != name@)
                        &&& k@ == self@.keys[i]
                    },
                None => !has_key_name(self@.keys, name@),
            },
    {
        match find_key_name(&self.keys, name) {
            Some(i) => {
                proof {
                    assert(self@.keys[i as int] == self.keys@[i as int]@);
                }
                Some(&self.keys[i])
            },
            None => None,
        }
    }

    /// The designated default key, if one is set and present.
    pub fn get_default_key(&self) -> (r: Option<&HostKey>)
        ensures
            match r {
                Some(k) => self@.default_key matches Some(d) && exists|i: int|
                    {
                        &&& 0 <= i < self@.keys.len()
                        &&& self@.keys[i].name == d
                        &&& (forall|j: int| 0 <= j < i ==> self@.keys[j].name != d)
                        &&& k@ == self@.keys[i]
                    },
                None => self@.default_key is None || (self@.default_key matches Some(d)
                    && !has_key_name(self@.keys, d)),
            },
    {
        match &self.default_key {
            None => None,
            Some(d) => match find_key_name(&self.keys, d) {
                Some(i) => {
                    proof {
                        assert(self@.keys[i as int] == self.keys@[i as int]@);
                    }
                    Some(&self.keys[i])
                },
                None => None,
            },
        }
    }

    /// Designates the default key; fails if the name is unknown.
    pub fn set_default_key(&mut self, name: String) -> (r: Result<(), PoofError>)
        ensures
            r is Ok <==> has_key_name(old(self)@.keys, name@),
            r is Ok ==> final(self)@.keys == old(self)@.keys && final(self)@.default_key == Some(
                name@,
            ),
            r is Err ==> final(self)@ == old(self)@ && r->Err_0 is NotFound,
            keys_wf(old(self)@.keys, old(self)@.default_key) ==> keys_wf(
                final(self)@.keys,
                final(self)@.default_key,
            ),
    {
        match find_key_name(&self.keys, &name) {
            Some(i) => {
                proof {
                    assert(old(self)@.keys[i as int].name == name@);
                }
                self.default_key = Some(name);
                Ok(())
            },
            None => Err(
                PoofError::NotFound {
                    message: "Key with name '".to_owned().concat(name.as_str()).concat(
                        "' not found",
                    ),
                },
            ),
        }
    }

    /// Resolves the active identity for a process start: an explicitly
    /// requested name must exist, else the designated default is used, else
    /// there is none yet and the caller generates and persists a fresh one.
    pub fn active_key(&self, requested: Option<&String>) -> (r: Result<Option<&HostKey>, PoofError>)
        ensures
            requested matches Some(n) ==> (match r {
                Ok(o) => o matches Some(k) && has_key_name(self@.keys, n@) && exists|i: int|
                    {
                        &&& 0 <= i < self@.keys.len()
                        &&& self@.keys[i].name == n@
                        &&& (forall|j: int| 0 <= j < i ==> self@.keys[j].name != n@)
                        &&& k@ == self@.keys[i]
                    },
                Err(e) => e is NotFound && !has_key_name(self@.keys, n@),
            }),
            requested is None ==> (match r {
                Ok(o) => match o {
                    Some(k) => self@.default_key matches Some(d) && exists|i: int|
                        {
                            &&& 0 <= i < self@.keys.len()
                            &&& self@.keys[i].name == d
                            &&& (forall|j: int| 0 <= j < i ==> self@.keys[j].name != d)
                            &&& k@ == self@.keys[i]
                        },
                    None => self@.default_key is None || (self@.default_key matches Some(d)
                        && !has_key_name(self@.keys, d)),
                },
                Err(_) => false,
            }),
    {
        match requested {
            Some(name) => match self.get_key(name) {
                Some(k) => Ok(Some(k)),
                None => Err(
                    PoofError::NotFound {
                        message: "Key with name '".to_owned().concat(name.as_str()).concat(
                            "' not found",
                        ),
                    },
                ),
            },
            None => Ok(self.get_default_key()),
        }
    }

    /// All keys, in storage order.
    pub fn list_keys(&self) -> (r: &Vec<HostKey>)
        ensures
            r@.map_values(|k: HostKey| k@) == self@.keys,
    {
        &self.keys
    }
}

/// When keys remain after a removal, the reassigned default (the first
/// remaining key) names a key that is still present: removing the default
/// leaves the default among the remaining keys, or clears it when the last
/// key goes.
pub proof fn lemma_default_among_remaining(keys: Seq<HostKeyView>, i: int)
    requires
        0 <= i < keys.len(),
        keys.remove(i).len() > 0,
    ensures
        has_key_name(keys.remove(i), keys.remove(i)[0].name),
{
    assert(keys.remove(i)[0].name == keys.remove(i)[0].name);
}

/// After a successful add of `h1`, a second add whose alias equals `h1`'s
/// meets the conflict condition of `add_host`, whatever its identity: the
/// registry then stays as it was, holding only the first.
pub proof fn lemma_alias_reuse_conflicts(s: Seq<HostView>, h1: HostView, h2: HostView)
    requires
        h2.alias == h1.alias,
    ensures
        has_alias(s.push(h1), h2.alias),
{
    assert(s.push(h1)[s.len() as int] == h1);
}

/// After a successful add of `h1`, a second add whose identity equals `h1`'s
/// meets the conflict condition of `add_host`, whatever its alias.
pub proof fn lemma_identity_reuse_conflicts(s: Seq<HostView>, h1: HostView, h2: HostView)
    requires
        h2.public_key == h1.public_key,
    ensures
        has_public_key(s.push(h1), h2.public_key),
{
    assert(s.push(h1)[s.len() as int] == h1);
}

} // verus!
