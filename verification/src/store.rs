use vstd::prelude::*;

verus! {

/// What a correlation key resolves to in a table: the first entry
/// carrying that key, if any.
pub open spec fn lookup(s: Seq<(u128, Vec<u8>)>, key: u128) -> Option<Seq<u8>>
    decreases s.len(),
{
    if s.len() == 0 {
        None
    } else if s[0].0 == key {
        Some(s[0].1@)
    } else {
        lookup(s.drop_first(), key)
    }
}

/// Keys are pairwise distinct: each key holds at most one pending
/// payload.
pub open spec fn keys_distinct(s: Seq<(u128, Vec<u8>)>) -> bool {
    forall|i: int, j: int|
        0 <= i < s.len() && 0 <= j < s.len() && i != j ==> (#[trigger] s[i]).0 != (#[trigger] s[j]).0
}

proof fn lemma_distinct_drop(s: Seq<(u128, Vec<u8>)>)
    requires
        keys_distinct(s),
        s.len() > 0,
    ensures
        keys_distinct(s.drop_first()),
{
    assert forall|i: int, j: int|
        0 <= i < s.drop_first().len() && 0 <= j < s.drop_first().len() && i != j implies (
    #[trigger] s.drop_first()[i]).0 != (#[trigger] s.drop_first()[j]).0 by {
        assert(s.drop_first()[i] == s[i + 1]);
        assert(s.drop_first()[j] == s[j + 1]);
    }
}

/// A key present at index `i` of a distinct-keyed table is what
/// lookup finds.
proof fn lemma_lookup_present(s: Seq<(u128, Vec<u8>)>, i: int, key: u128)
    requires
        keys_distinct(s),
        0 <= i < s.len(),
        s[i].0 == key,
    ensures
        lookup(s, key) == Some(s[i].1@),
    decreases s.len(),
{
    if i == 0 {
    } else {
        assert(s[0].0 != key);
        lemma_distinct_drop(s);
        assert(s.drop_first()[i - 1] == s[i]);
        lemma_lookup_present(s.drop_first(), i - 1, key);
    }
}

/// A key at no index of the table is one lookup does not find.
proof fn lemma_lookup_absent(s: Seq<(u128, Vec<u8>)>, key: u128)
    requires
        forall|i: int| 0 <= i < s.len() ==> (#[trigger] s[i]).0 != key,
    ensures
        lookup(s, key) is None,
    decreases s.len(),
{
    if s.len() > 0 {
        assert forall|i: int| 0 <= i < s.drop_first().len() implies (#[trigger] s.drop_first()[
            i
        ]).0 != key by {
            assert(s.drop_first()[i] == s[i + 1]);
        }
        lemma_lookup_absent(s.drop_first(), key);
    }
}

/// Appending an entry under a fresh key binds that key and leaves
/// every other key's resolution unchanged.
proof fn lemma_lookup_push(s: Seq<(u128, Vec<u8>)>, key: u128, v: Vec<u8>, k: u128)
    requires
        forall|i: int| 0 <= i < s.len() ==> (#[trigger] s[i]).0 != key,
    ensures
        lookup(s.push((key, v)), k) == (if k == key {
            Some(v@)
        } else {
            lookup(s, k)
        }),
    decreases s.len(),
{
    if s.len() == 0 {
        assert(s.push((key, v))[0] == (key, v));
        assert(s.push((key, v)).drop_first() =~= Seq::<(u128, Vec<u8>)>::empty());
    } else {
        assert(s.push((key, v))[0] == s[0]);
        assert(s.push((key, v)).drop_first() =~= s.drop_first().push((key, v)));
        assert forall|i: int| 0 <= i < s.drop_first().len() implies (#[trigger] s.drop_first()[
            i
        ]).0 != key by {
            assert(s.drop_first()[i] == s[i + 1]);
        }
        lemma_lookup_push(s.drop_first(), key, v, k);
    }
}

/// Removing the entry at index `i` of a distinct-keyed table unbinds
/// its key and leaves every other key's resolution unchanged.
proof fn lemma_lookup_remove(s: Seq<(u128, Vec<u8>)>, i: int, k: u128)
    requires
        keys_distinct(s),
        0 <= i < s.len(),
    ensures
        lookup(s.remove(i), k) == (if k == s[i].0 {
            None
        } else {
            lookup(s, k)
        }),
    decreases s.len(),
{
    lemma_distinct_drop(s);
    if i == 0 {
        assert(s.remove(0) =~= s.drop_first());
        if k == s[0].0 {
            assert forall|j: int| 0 <= j < s.drop_first().len() implies (#[trigger] s.drop_first()[
                j
            ]).0 != k by {
                assert(s.drop_first()[j] == s[j + 1]);
            }
            lemma_lookup_absent(s.drop_first(), k);
        }
    } else {
        assert(s.remove(i)[0] == s[0]);
        assert(s.remove(i).len() > 0);
        assert(s.remove(i).drop_first() =~= s.drop_first().remove(i - 1));
        assert(s.drop_first()[i - 1] == s[i]);
        lemma_lookup_remove(s.drop_first(), i - 1, k);
    }
}

/// The rendezvous table: pending payloads keyed by correlation
/// identifier, each key holding at most one payload. A single logical
/// owner processes a serial stream of commands against it, so no
/// locking is ever involved; the async actor around it lives outside
/// the core.
pub struct RendezvousTable {
    entries: Vec<(u128, Vec<u8>)>,
}

impl RendezvousTable {
    pub closed spec fn view(&self) -> Seq<(u128, Vec<u8>)> {
        self.entries@
    }

    pub open spec fn wf(&self) -> bool {
        keys_distinct(self@)
    }

    /// An empty table: no key resolves.
    pub fn new() -> (t: RendezvousTable)
        ensures
            t.wf(),
            forall|k: u128| lookup(t@, k) is None,
    {
        let t = RendezvousTable { entries: Vec::new() };
        proof {
            assert(t@.len() == 0);
        }
        t
    }

    /// The index holding `key`, if any.
    fn find_index(&self, key: u128) -> (r: Option<usize>)
        ensures
            r is Some ==> r->Some_0 < self@.len() && self@[r->Some_0 as int].0 == key,
            r is None ==> forall|i: int| 0 <= i < self@.len() ==> (#[trigger] self@[i]).0 != key,
    {
        let mut j: usize = 0;
        while j < self.entries.len()
            invariant
                j <= self@.len(),
                forall|i: int| 0 <= i < j ==> (#[trigger] self@[i]).0 != key,
            decreases self@.len() - j,
        {
            if self.entries[j].0 == key {
                return Some(j);
            }
            j = j + 1;
        }
        None
    }

    /// Insert a payload under `key`, replying with whatever payload
    /// was previously stored there (`None` if the key was free). The
    /// reply lets the caller detect a double-write to the same
    /// correlation identifier.
    pub fn write(&mut self, key: u128, value: Vec<u8>) -> (ousted: Option<Vec<u8>>)
        requires
            old(self).wf(),
        ensures
            final(self).wf(),
            lookup(final(self)@, key) == Some(value@),
            forall|k: u128| k != key ==> lookup(final(self)@, k) == lookup(old(self)@, k),
            ousted is Some ==> lookup(old(self)@, key) == Some(ousted->Some_0@),
            ousted is None ==> lookup(old(self)@, key) is None,
    {
        match self.find_index(key) {
            Some(i) => {
                proof {
                    lemma_lookup_present(self@, i as int, key);
                    let pre = self@;
                    assert forall|k: u128| true implies lookup(pre.remove(i as int), k) == (
                    if k == key {
                        None::<Seq<u8>>
                    } else {
                        lookup(pre, k)
                    }) by {
                        lemma_lookup_remove(pre, i as int, k);
                    }
                }
                let prior = self.entries.remove(i);
                proof {
                    assert forall|a: int, b: int|
                        0 <= a < self@.len() && 0 <= b < self@.len() && a != b implies (
                    #[trigger] self@[a]).0 != (#[trigger] self@[b]).0 by {
                        let s = old(self)@;
                        let ai: int = if a < i {
                            a
                        } else {
                            a + 1
                        };
                        let bi: int = if b < i {
                            b
                        } else {
                            b + 1
                        };
                        assert(self@[a] == s[ai]);
                        assert(self@[b] == s[bi]);
                    }
                    assert forall|j: int| 0 <= j < self@.len() implies (#[trigger] self@[j]).0
                        != key by {
                        let s = old(self)@;
                        let ji: int = if j < i {
                            j
                        } else {
                            j + 1
                        };
                        assert(self@[j] == s[ji]);
                    }
                    let mid = self@;
                    lemma_lookup_absent(mid, key);
                    assert forall|k: u128| true implies lookup(mid.push((key, value)), k) == (
                    if k == key {
                        Some(value@)
                    } else {
                        lookup(mid, k)
                    }) by {
                        lemma_lookup_push(mid, key, value, k);
                    }
                }
                self.entries.push((key, value));
                Some(prior.1)
            },
            None => {
                proof {
                    lemma_lookup_absent(self@, key);
                    let mid = self@;
                    assert forall|k: u128| true implies lookup(mid.push((key, value)), k) == (
                    if k == key {
                        Some(value@)
                    } else {
                        lookup(mid, k)
                    }) by {
                        lemma_lookup_push(mid, key, value, k);
                    }
                }
                self.entries.push((key, value));
                proof {
                    assert forall|a: int, b: int|
                        0 <= a < self@.len() && 0 <= b < self@.len() && a != b implies (
                    #[trigger] self@[a]).0 != (#[trigger] self@[b]).0 by {
                        let s = old(self)@;
                        if a < s.len() && b < s.len() {
                        } else if a == s.len() {
                            assert(self@[b] == s[b]);
                        } else {
                            assert(self@[a] == s[a]);
                        }
                    }
                }
                None
            },
        }
    }

    /// Remove the payload stored under `key`, replying with it
    /// (`None` if the key was free — reported, but non-fatal). A
    /// successful read of a rendezvous entry consumes it.
    pub fn remove(&mut self, key: u128) -> (removed: Option<Vec<u8>>)
        requires
            old(self).wf(),
        ensures
            final(self).wf(),
            lookup(final(self)@, key) is None,
            forall|k: u128| k != key ==> lookup(final(self)@, k) == lookup(old(self)@, k),
            removed is Some ==> lookup(old(self)@, key) == Some(removed->Some_0@),
            removed is None ==> lookup(old(self)@, key) is None,
    {
        match self.find_index(key) {
            Some(i) => {
                proof {
                    lemma_lookup_present(self@, i as int, key);
                    assert forall|k: u128| true implies lookup(self@.remove(i as int), k) == (
                    if k == key {
                        None
                    } else {
                        lookup(self@, k)
                    }) by {
                        lemma_lookup_remove(self@, i as int, k);
                    }
                }
                let prior = self.entries.remove(i);
                proof {
                    assert forall|a: int, b: int|
                        0 <= a < self@.len() && 0 <= b < self@.len() && a != b implies (
                    #[trigger] self@[a]).0 != (#[trigger] self@[b]).0 by {
                        let s = old(self)@;
                        let ai: int = if a < i {
                            a
                        } else {
                            a + 1
                        };
                        let bi: int = if b < i {
                            b
                        } else {
                            b + 1
                        };
                        assert(self@[a] == s[ai]);
                        assert(self@[b] == s[bi]);
                    }
                }
                Some(prior.1)
            },
            None => {
                proof {
                    lemma_lookup_absent(self@, key);
                }
                None
            },
        }
    }
}

/// A command against the rendezvous table, as carried by the store's
/// serial command stream.
#[derive(Debug)]
pub enum StoreCommand {
    /// Insert a payload under a correlation identifier.
    Write(u128, Vec<u8>),
    /// Consume the payload stored under a correlation identifier.
    Remove(u128),
}

/// Process one command against the table, returning the reply to
/// acknowledge with: the ousted payload for a write, the removed
/// payload for a remove.
pub fn apply_command(table: &mut RendezvousTable, cmd: StoreCommand) -> (reply: Option<Vec<u8>>)
    requires
        old(table).wf(),
    ensures
        final(table).wf(),
        match cmd {
            StoreCommand::Write(key, value) => {
                &&& lookup(final(table)@, key) == Some(value@)
                &&& (forall|k: u128| k != key ==> lookup(final(table)@, k) == lookup(old(table)@, k))
                &&& (reply is Some ==> lookup(old(table)@, key) == Some(reply->Some_0@))
                &&& (reply is None ==> lookup(old(table)@, key) is None)
            },
            StoreCommand::Remove(key) => {
                &&& lookup(final(table)@, key) is None
                &&& (forall|k: u128| k != key ==> lookup(final(table)@, k) == lookup(old(table)@, k))
                &&& (reply is Some ==> lookup(old(table)@, key) == Some(reply->Some_0@))
                &&& (reply is None ==> lookup(old(table)@, key) is None)
            },
        },
{
    match cmd {
        StoreCommand::Write(key, value) => table.write(key, value),
        StoreCommand::Remove(key) => table.remove(key),
    }
}

} // verus!
