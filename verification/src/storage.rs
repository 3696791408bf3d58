use vstd::prelude::*;
use vstd::string::StringExecFns;

use crate::remote::Remote;
use crate::RollingCodeStorage;

verus! {

/// Error of the in-memory store: no entry matches the remote's address.
#[derive(Debug, Clone, Copy, PartialEq, Eq, Structural)]
pub struct UnknownRemote;

/// One named pairing in the store.
#[derive(Debug)]
struct StorageEntry {
    name: String,
    remote: Remote,
}

/// In-memory table of named remotes, the pure half of a rolling-code store:
/// lookup by name, update by address. Reading entries from and writing them
/// back to a durable medium is the caller's concern.
#[derive(Debug)]
pub struct Storage {
    entries: Vec<StorageEntry>,
}

impl Storage {
    /// Names are unique, and so are addresses: the address is the join key
    /// used to locate the entry to update after a send.
    #[verifier::type_invariant]
    spec fn wf(self) -> bool {
        &&& forall|i: int, j: int|
            0 <= i < j < self.entries@.len() ==> self.entries@[i].name@ != self.entries@[j].name@
        &&& forall|i: int, j: int|
            0 <= i < j < self.entries@.len() ==> self.entries@[i].remote.spec_address()
                != self.entries@[j].remote.spec_address()
    }

    /// How many remotes the store knows.
    pub closed spec fn spec_len(self) -> nat {
        self.entries@.len()
    }

    /// Whether some entry is named `name`.
    pub closed spec fn has_name(self, name: Seq<char>) -> bool {
        exists|i: int| 0 <= i < self.entries@.len() && self.entries@[i].name@ == name
    }

    /// The remote of the entry named `name`.
    pub closed spec fn spec_remote(self, name: Seq<char>) -> Remote {
        self.entries@[choose|i: int|
            0 <= i < self.entries@.len() && self.entries@[i].name@ == name].remote
    }

    /// Whether some entry's remote has this receiver address.
    pub closed spec fn has_address(self, address: u32) -> bool {
        exists|i: int|
            0 <= i < self.entries@.len() && self.entries@[i].remote.spec_address() == address
    }

    /// An empty store.
    pub fn new() -> (storage: Storage)
        ensures
            storage.spec_len() == 0,
            forall|name: Seq<char>| !storage.has_name(name),
            forall|address: u32| !storage.has_address(address),
            storage.codes() == Map::<u32, u16>::empty(),
    {
        let storage = Storage { entries: Vec::new() };
        proof {
            assert(storage.codes() =~= Map::<u32, u16>::empty());
        }
        storage
    }

    /// Add a pairing under a fresh name and address. Returns whether it was
    /// added: a name or address already present leaves the store unchanged.
    pub fn add_remote(&mut self, name: String, address: u32, rolling_code: u16) -> (added: bool)
        requires
            address < 0x1000000,
        ensures
            added <==> (!old(self).has_name(name@) && !old(self).has_address(address)),
            added ==> final(self).spec_len() == old(self).spec_len() + 1 && final(self).has_name(
                name@,
            ) && final(self).spec_remote(name@).spec_address() == address && final(self).spec_remote(
                name@,
            ).spec_rolling_code() == rolling_code && final(self).codes() == old(self).codes().insert(
                address,
                rolling_code,
            ),
            !added ==> *final(self) == *old(self),
    {
        proof {
            use_type_invariant(&*self);
        }
        let mut i: usize = 0;
        while i < self.entries.len()
            invariant
                self == old(self),
                i <= self.entries@.len(),
                forall|j: int| 0 <= j < i ==> self.entries@[j].name@ != name@,
                forall|j: int|
                    0 <= j < i ==> self.entries@[j].remote.spec_address() != address,
            decreases self.entries@.len() - i,
        {
            if self.entries[i].name == name {
                return false;
            }
            if self.entries[i].remote.address() == address {
                return false;
            }
            i = i + 1;
        }
        let ghost pre = *self;
        let mut entries: Vec<StorageEntry> = Vec::new();
        core::mem::swap(&mut entries, &mut self.entries);
        entries.push(StorageEntry { name, remote: Remote::new(address, rolling_code) });
        core::mem::swap(&mut entries, &mut self.entries);
        proof {
            let n = pre.entries@.len() as int;
            assert(self.entries@ =~= pre.entries@.push(
                StorageEntry { name, remote: self.entries@[n].remote },
            ));
            assert(self.has_name(name@));
            assert forall|k: int|
                0 <= k < self.entries@.len() && self.entries@[k].name@ == name@ implies k
                == n by {
                if k < n {
                    assert(pre.entries@[k].name@ != name@);
                }
            }
            lemma_codes_insert(pre, *self, n, address, rolling_code);
        }
        true
    }

    /// Look up a remote by name.
    pub fn remote(&self, name: &str) -> (result: Option<&Remote>)
        ensures
            match result {
                Some(remote) => self.has_name(name@) && *remote == self.spec_remote(name@),
                None => !self.has_name(name@),
            },
    {
        proof {
            use_type_invariant(self);
        }
        let key: String = String::from_str(name);
        let mut i: usize = 0;
        while i < self.entries.len()
            invariant
                key@ == name@,
                i <= self.entries@.len(),
                forall|j: int| 0 <= j < i ==> self.entries@[j].name@ != name@,
                self.wf(),
            decreases self.entries@.len() - i,
        {
            if self.entries[i].name == key {
                proof {
                    let w = choose|k: int|
                        0 <= k < self.entries@.len() && self.entries@[k].name@ == name@;
                    assert(self.entries@[i as int].name@ == name@);
                    if w != i {
                        assert(self.entries@[w].name@ != self.entries@[i as int].name@);
                    }
                }
                return Some(&self.entries[i].remote);
            }
            i = i + 1;
        }
        None
    }

    /// The remotes the store knows, in entry order.
    pub fn remotes(&self) -> (remotes: Vec<Remote>)
        ensures
            remotes@.len() == self.spec_len(),
            forall|i: int|
                0 <= i < remotes@.len() ==> self.has_name(self.spec_name(i)) && #[trigger] remotes@[i]
                    == self.spec_remote(self.spec_name(i)),
    {
        proof {
            use_type_invariant(self);
        }
        let mut remotes: Vec<Remote> = Vec::new();
        let mut i: usize = 0;
        while i < self.entries.len()
            invariant
                i <= self.entries@.len(),
                remotes@.len() == i,
                self.wf(),
                forall|j: int|
                    0 <= j < i ==> #[trigger] remotes@[j] == self.entries@[j].remote,
            decreases self.entries@.len() - i,
        {
            remotes.push(self.entries[i].remote);
            i = i + 1;
        }
        proof {
            assert forall|i: int| 0 <= i < remotes@.len() implies self.has_name(self.spec_name(i))
                && #[trigger] remotes@[i] == self.spec_remote(self.spec_name(i)) by {
                assert(self.entries@[i].name@ == self.spec_name(i));
                let w = choose|k: int|
                    0 <= k < self.entries@.len() && self.entries@[k].name@ == self.spec_name(i);
                if w != i {
                    assert(self.entries@[w].name@ != self.entries@[i].name@);
                }
            }
        }
        remotes
    }

    /// The names the store knows, in the same entry order as `remotes`.
    pub fn names(&self) -> (names: Vec<String>)
        ensures
            names@.len() == self.spec_len(),
            forall|i: int| 0 <= i < names@.len() ==> #[trigger] names@[i]@ == self.spec_name(i),
    {
        proof {
            use_type_invariant(self);
        }
        let mut names: Vec<String> = Vec::new();
        let mut i: usize = 0;
        while i < self.entries.len()
            invariant
                i <= self.entries@.len(),
                names@.len() == i,
                forall|j: int| 0 <= j < i ==> #[trigger] names@[j]@ == self.entries@[j].name@,
            decreases self.entries@.len() - i,
        {
            names.push(self.entries[i].name.clone());
            i = i + 1;
        }
        names
    }

    /// The name of entry `i`.
    pub closed spec fn spec_name(self, i: int) -> Seq<char> {
        self.entries@[i].name@
    }

    /// Overwrite the rolling code of the entry whose address matches the
    /// remote's. Fails, leaving the store unchanged, exactly when no entry
    /// has that address.
    pub fn update_rolling_code(&mut self, remote: &Remote) -> (result: Result<(), UnknownRemote>)
        ensures
            result is Ok <==> old(self).has_address(remote.spec_address()),
            result is Ok ==> final(self).codes() == old(self).codes().insert(
                remote.spec_address(),
                remote.spec_rolling_code(),
            ),
            result is Err ==> *final(self) == *old(self),
    {
        proof {
            use_type_invariant(&*self);
        }
        let address = remote.address();
        let mut i: usize = 0;
        while i < self.entries.len()
            invariant
                self == old(self),
                self.wf(),
                address == remote.spec_address(),
                i <= self.entries@.len(),
                forall|j: int|
                    0 <= j < i ==> self.entries@[j].remote.spec_address() != address,
            decreases self.entries@.len() - i,
        {
            if self.entries[i].remote.address() == address {
                let ghost pre = *self;
                let mut entries: Vec<StorageEntry> = Vec::new();
                core::mem::swap(&mut entries, &mut self.entries);
                let entry = &mut entries[i];
                entry.remote = *remote;
                proof {
                    assert forall|x: int, y: int|
                        0 <= x < y < entries@.len() implies entries@[x].name@
                        != entries@[y].name@ && entries@[x].remote.spec_address()
                        != entries@[y].remote.spec_address() by {
                        assert(entries@[x].name@ == pre.entries@[x].name@);
                        assert(entries@[y].name@ == pre.entries@[y].name@);
                        assert(entries@[x].remote.spec_address()
                            == pre.entries@[x].remote.spec_address());
                        assert(entries@[y].remote.spec_address()
                            == pre.entries@[y].remote.spec_address());
                    }
                }
                core::mem::swap(&mut entries, &mut self.entries);
                proof {
                    lemma_codes_update(pre, *self, i as int, remote);
                }
                return Ok(());
            }
            i = i + 1;
        }
        Err(UnknownRemote)
    }
}

impl RollingCodeStorage for Storage {
    type Error = UnknownRemote;

    /// Persisting to the in-memory table succeeds for every known address.
    open spec fn spec_reliable() -> bool {
        true
    }

    /// The rolling code the store holds for each known address.
    closed spec fn codes(&self) -> Map<u32, u16> {
        Map::new(
            |address: u32| self.has_address(address),
            |address: u32|
                self.entries@[choose|i: int|
                    0 <= i < self.entries@.len() && self.entries@[i].remote.spec_address()
                        == address].remote.spec_rolling_code(),
        )
    }

    fn persist(&mut self, remote: &Remote) -> (result: Result<(), UnknownRemote>)
        ensures
            result is Ok <==> old(self).has_address(remote.spec_address()),
            result is Ok ==> final(self).codes() == old(self).codes().insert(
                remote.spec_address(),
                remote.spec_rolling_code(),
            ),
            result is Err ==> *final(self) == *old(self),
    {
        let result = self.update_rolling_code(remote);
        proof {
            assert(old(self).codes().contains_key(remote.spec_address()) == old(
                self,
            ).has_address(remote.spec_address()));
        }
        result
    }
}

/// After appending a fresh address, the code map gains exactly that entry.
proof fn lemma_codes_insert(pre: Storage, post: Storage, n: int, address: u32, rolling_code: u16)
    requires
        pre.wf(),
        post.entries@.len() == pre.entries@.len() + 1,
        n == pre.entries@.len(),
        forall|j: int| 0 <= j < n ==> post.entries@[j] == pre.entries@[j],
        post.entries@[n].remote.spec_address() == address,
        post.entries@[n].remote.spec_rolling_code() == rolling_code,
        !pre.has_address(address),
    ensures
        post.codes() == pre.codes().insert(address, rolling_code),
{
    assert forall|a: u32| #[trigger] post.has_address(a) implies a == address || pre.has_address(
        a,
    ) by {
        let i = choose|i: int|
            0 <= i < post.entries@.len() && post.entries@[i].remote.spec_address() == a;
        if i < n {
            assert(pre.entries@[i].remote.spec_address() == a);
        }
    }
    assert forall|a: u32| pre.has_address(a) implies post.has_address(a) by {
        let i = choose|i: int|
            0 <= i < pre.entries@.len() && pre.entries@[i].remote.spec_address() == a;
        assert(post.entries@[i].remote.spec_address() == a);
    }
    assert(post.has_address(address));
    assert forall|a: u32| #[trigger] post.codes().dom().contains(a) implies post.codes()[a]
        == pre.codes().insert(address, rolling_code)[a] by {
        let i = choose|i: int|
            0 <= i < post.entries@.len() && post.entries@[i].remote.spec_address() == a;
        if a == address {
            assert forall|k: int|
                0 <= k < post.entries@.len() && post.entries@[k].remote.spec_address()
                    == a implies k == n by {
                if k < n {
                    assert(pre.entries@[k].remote.spec_address() == a);
                }
            }
            assert(post.codes()[a] == rolling_code);
        } else {
            assert(i < n);
            assert(pre.has_address(a));
            let k = choose|k: int|
                0 <= k < pre.entries@.len() && pre.entries@[k].remote.spec_address() == a;
            assert(pre.entries@[k].remote.spec_address() == pre.entries@[i].remote.spec_address());
            if k != i {
                assert(false);
            }
            assert(pre.codes()[a] == pre.entries@[i].remote.spec_rolling_code());
        }
    }
    assert(post.codes() =~= pre.codes().insert(address, rolling_code));
}

/// After overwriting the remote of the entry whose address matches, the
/// code map is the old one with that address's code replaced.
proof fn lemma_codes_update(pre: Storage, post: Storage, n: int, remote: &Remote)
    requires
        pre.wf(),
        post.entries@.len() == pre.entries@.len(),
        0 <= n < pre.entries@.len(),
        forall|j: int| 0 <= j < pre.entries@.len() && j != n ==> post.entries@[j] == pre.entries@[j],
        post.entries@[n].remote == *remote,
        pre.entries@[n].remote.spec_address() == remote.spec_address(),
    ensures
        post.codes() == pre.codes().insert(remote.spec_address(), remote.spec_rolling_code()),
{
    let address = remote.spec_address();
    assert forall|a: u32| #[trigger] post.has_address(a) implies pre.has_address(a) by {
        let i = choose|i: int|
            0 <= i < post.entries@.len() && post.entries@[i].remote.spec_address() == a;
        if i == n {
            assert(pre.entries@[n].remote.spec_address() == a);
        } else {
            assert(pre.entries@[i].remote.spec_address() == a);
        }
    }
    assert forall|a: u32| pre.has_address(a) implies post.has_address(a) by {
        let i = choose|i: int|
            0 <= i < pre.entries@.len() && pre.entries@[i].remote.spec_address() == a;
        assert(post.entries@[i].remote.spec_address() == a);
    }
    assert(pre.has_address(address));
    assert forall|a: u32| #[trigger] post.codes().dom().contains(a) implies post.codes()[a]
        == pre.codes().insert(address, remote.spec_rolling_code())[a] by {
        let i = choose|i: int|
            0 <= i < post.entries@.len() && post.entries@[i].remote.spec_address() == a;
        assert forall|k: int|
            0 <= k < post.entries@.len() && post.entries@[k].remote.spec_address()
                == a implies k == i by {
            if k != i {
                let x = if k < i { k } else { i };
                let y = if k < i { i } else { k };
                assert(post.entries@[x].remote.spec_address() != post.entries@[y].remote.spec_address());
            }
        }
        if a == address {
            assert(post.entries@[n].remote.spec_address() == a);
            assert(i == n);
            assert(post.codes()[a] == remote.spec_rolling_code());
        } else {
            assert(i != n);
            let k = choose|k: int|
                0 <= k < pre.entries@.len() && pre.entries@[k].remote.spec_address() == a;
            if k != i {
                let x = if k < i { k } else { i };
                let y = if k < i { i } else { k };
                assert(pre.entries@[x].remote.spec_address() != pre.entries@[y].remote.spec_address());
            }
            assert(pre.codes()[a] == pre.entries@[i].remote.spec_rolling_code());
        }
    }
    assert(post.codes() =~= pre.codes().insert(address, remote.spec_rolling_code()));
}

} // verus!
