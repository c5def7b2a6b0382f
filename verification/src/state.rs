//! The in-memory account state: an initialization flag and a small map of
//! string records with unique keys.

use vstd::prelude::*;

use crate::error::WalletError;

verus! {

/// One key/value pair held in an account's map.
#[derive(Debug)]
pub struct Record {
    pub key: String,
    pub value: String,
}

/// Mathematical model of a [`Record`].
#[verifier::ext_equal]
pub struct RecordView {
    pub key: Seq<char>,
    pub value: Seq<char>,
}

impl View for Record {
    type V = RecordView;

    open spec fn view(&self) -> RecordView {
        RecordView { key: self.key@, value: self.value@ }
    }
}

/// The state persisted in one account's data buffer: a lifecycle flag and
/// the record map, kept as a sequence of pairs with pairwise-distinct keys.
#[derive(Debug)]
pub struct AccountState {
    pub initialized: bool,
    pub records: Vec<Record>,
}

/// Mathematical model of an [`AccountState`].
#[verifier::ext_equal]
pub struct StateView {
    pub initialized: bool,
    pub records: Seq<RecordView>,
}

impl View for AccountState {
    type V = StateView;

    open spec fn view(&self) -> StateView {
        StateView { initialized: self.initialized, records: self.records@.map_values(|r: Record| r@) }
    }
}

impl StateView {
    /// Keys are pairwise distinct.
    pub open spec fn wf(self) -> bool {
        forall|i: int, j: int|
            0 <= i < j < self.records.len() ==> self.records[i].key != self.records[j].key
    }

    /// Some record holds the key `k`.
    pub open spec fn has_key(self, k: Seq<char>) -> bool {
        exists|i: int| 0 <= i < self.records.len() && self.records[i].key == k
    }

    /// The index of the record holding `k` (meaningful when `has_key(k)`).
    pub open spec fn key_index(self, k: Seq<char>) -> int {
        choose|i: int| 0 <= i < self.records.len() && self.records[i].key == k
    }

    /// The value stored under `k` (meaningful when `has_key(k)`).
    pub open spec fn value_of(self, k: Seq<char>) -> Seq<char> {
        self.records[self.key_index(k)].value
    }

    /// What `add` does: append the new record, or reject a duplicate key.
    pub open spec fn spec_add(self, k: Seq<char>, v: Seq<char>) -> Result<StateView, WalletError> {
        if self.has_key(k) {
            Err(WalletError::DuplicateKey)
        } else {
            Ok(
                StateView {
                    initialized: self.initialized,
                    records: self.records.push(RecordView { key: k, value: v }),
                },
            )
        }
    }

    /// What `remove` does: take out the record holding `k` and return its
    /// value, or reject a missing key.
    pub open spec fn spec_remove(self, k: Seq<char>) -> Result<
        (Seq<char>, StateView),
        WalletError,
    > {
        if !self.has_key(k) {
            Err(WalletError::KeyNotFound)
        } else {
            Ok(
                (
                    self.value_of(k),
                    StateView {
                        initialized: self.initialized,
                        records: self.records.remove(self.key_index(k)),
                    },
                ),
            )
        }
    }
}

impl AccountState {
    /// A fresh, uninitialized state with no records.
    pub fn new() -> (r: AccountState)
        ensures
            r@.initialized == false,
            r@.records.len() == 0,
            r@.wf(),
    {
        AccountState { initialized: false, records: Vec::new() }
    }

    /// Whether the lifecycle flag is set.
    pub fn is_initialized(&self) -> (r: bool)
        ensures
            r == self@.initialized,
    {
        self.initialized
    }

    /// Set the lifecycle flag.
    pub fn set_initialized(&mut self)
        ensures
            final(self)@ == (StateView { initialized: true, records: old(self)@.records }),
    {
        self.initialized = true;
    }

    /// Insert `key -> value`; fails with `DuplicateKey` (and leaves the map
    /// unchanged) when the key is already present.
    pub fn add(&mut self, key: String, value: String) -> (r: Result<(), WalletError>)
        requires
            old(self)@.wf(),
        ensures
            final(self)@.wf(),
            match r {
                Ok(()) => old(self)@.spec_add(key@, value@) == Ok::<StateView, WalletError>(
                    final(self)@,
                ),
                Err(e) => {
                    &&& old(self)@.spec_add(key@, value@) == Err::<StateView, WalletError>(e)
                    &&& final(self)@ == old(self)@
                },
            },
    {
        let n = self.records.len();
        let mut i: usize = 0;
        while i < n
            invariant
                i <= n,
                n == self.records.len(),
                *self == *old(self),
                old(self)@.wf(),
                forall|j: int| 0 <= j < i ==> self@.records[j].key != key@,
            decreases n - i,
        {
            if self.records[i].key == key {
                proof {
                    assert(self@.records[i as int].key == key@);
                    assert(old(self)@.has_key(key@));
                }
                return Err(WalletError::DuplicateKey);
            }
            i += 1;
        }
        assert(!old(self)@.has_key(key@));
        self.records.push(Record { key, value });
        proof {
            assert(self@.records =~= old(self)@.records.push(
                RecordView { key: key@, value: value@ },
            ));
            assert(self@ =~= old(self)@.spec_add(key@, value@)->Ok_0);
        }
        Ok(())
    }

    /// Remove the record under `key` and return its value; fails with
    /// `KeyNotFound` (and leaves the map unchanged) when the key is absent.
    pub fn remove(&mut self, key: &String) -> (r: Result<String, WalletError>)
        requires
            old(self)@.wf(),
        ensures
            final(self)@.wf(),
            match r {
                Ok(v) => old(self)@.spec_remove(key@) == Ok::<(Seq<char>, StateView), WalletError>(
                    (v@, final(self)@),
                ),
                Err(e) => {
                    &&& old(self)@.spec_remove(key@) == Err::<(Seq<char>, StateView), WalletError>(
                        e,
                    )
                    &&& final(self)@ == old(self)@
                },
            },
    {
        let n = self.records.len();
        let mut i: usize = 0;
        while i < n
            invariant
                i <= n,
                n == self.records.len(),
                *self == *old(self),
                old(self)@.wf(),
                forall|j: int| 0 <= j < i ==> self@.records[j].key != key@,
            decreases n - i,
        {
            if self.records[i].key == *key {
                proof {
                    assert(self@.records[i as int].key == key@);
                    assert(old(self)@.has_key(key@));
                    let i0 = old(self)@.key_index(key@);
                    assert(old(self)@.records[i0].key == key@);
                    assert(i0 == i as int);
                }
                let rec = self.records.remove(i);
                proof {
                    assert(self@.records =~= old(self)@.records.remove(i as int));
                    lemma_wf_remove(old(self)@.records, i as int);
                }
                return Ok(rec.value);
            }
            i += 1;
        }
        assert(!old(self)@.has_key(key@));
        Err(WalletError::KeyNotFound)
    }
}

/// Law: adding a fresh key and then removing that key returns the value
/// that was added and restores the map exactly as it was before the add.
pub proof fn lemma_add_then_remove(st: StateView, k: Seq<char>, v: Seq<char>)
    requires
        st.wf(),
        !st.has_key(k),
    ensures
        st.spec_add(k, v) matches Ok(st2) && st2.spec_remove(k) == Ok::<
            (Seq<char>, StateView),
            WalletError,
        >((v, st)),
{
    let st2 = st.spec_add(k, v)->Ok_0;
    let last = st.records.len() as int;
    assert(st2.records[last].key == k);
    assert(st2.has_key(k));
    let i0 = st2.key_index(k);
    assert(st2.records[i0].key == k);
    if i0 < last {
        assert(st.records[i0].key == k);
        assert(st.has_key(k));
    }
    assert(i0 == last);
    assert(st2.records.remove(last) =~= st.records);
    assert(st2.spec_remove(k)->Ok_0.1 =~= st);
}

/// Removing a record keeps the remaining keys pairwise distinct.
proof fn lemma_wf_remove(records: Seq<RecordView>, at: int)
    requires
        0 <= at < records.len(),
        forall|i: int, j: int| 0 <= i < j < records.len() ==> records[i].key != records[j].key,
    ensures
        forall|i: int, j: int|
            0 <= i < j < records.remove(at).len() ==> records.remove(at)[i].key != records.remove(
                at,
            )[j].key,
{
    let cut = records.remove(at);
    assert forall|i: int, j: int| 0 <= i < j < cut.len() implies cut[i].key != cut[j].key by {
        let i0 = if i < at {
            i
        } else {
            i + 1
        };
        let j0 = if j < at {
            j
        } else {
            j + 1
        };
        assert(cut[i] == records[i0]);
        assert(cut[j] == records[j0]);
    }
}

} // verus!
