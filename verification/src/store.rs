//! The keyed record store.
//!
//! A [`Store`] models the record tree: at most one byte string per
//! `(namespace, key)` identity, the identity fully determining the location
//! `res/<namespace>/<key>.rmp`.  A [`Data`] handle pairs an identity with an
//! in-memory payload and drives the lifecycle — save, load, delete, rename,
//! clone — whose rules are stated against the store's map of records and
//! proved below as the store's laws.

use crate::codec::Encodable;
use crate::kvseq::{keys_distinct, lemma_keys_distinct_remove, lemma_map_of_entries,
    lemma_map_of_remove, map_of};
use crate::text::str_eq;
use vstd::prelude::*;

verus! {

/// Why a store operation failed.
#[derive(Clone, Copy, Debug, PartialEq, Eq, Structural)]
pub enum StoreError {
    /// No record exists under the identity.
    NotFound,
    /// The stored bytes do not parse as the requested payload type.
    DecodeError,
    /// The payload could not be serialized.
    EncodeError,
    /// The backing file could not be touched.
    IoError,
    /// The namespace or key cannot form a valid relative path component.
    PathError,
}

/// A character that may not appear in a path component.
pub open spec fn is_path_sep(c: char) -> bool {
    c == '/' || c == '\\' || c == '\u{0}'
}

/// Whether `s` can stand as one relative path segment: non-empty, free of
/// separators and NUL, and not a traversal segment.
pub open spec fn valid_component(s: Seq<char>) -> bool {
    &&& s.len() > 0
    &&& s != seq!['.']
    &&& s != seq!['.', '.']
    &&& forall|i: int| 0 <= i < s.len() ==> !is_path_sep(#[trigger] s[i])
}

/// Checks that `s` can stand as one relative path segment.
pub fn check_component(s: &str) -> (r: bool)
    ensures
        r == valid_component(s@),
{
    let len = s.unicode_len();
    if len == 0 {
        return false;
    }
    let mut i: usize = 0;
    while i < len
        invariant
            0 <= i <= len,
            len == s@.len(),
            forall|j: int| 0 <= j < i ==> !is_path_sep(#[trigger] s@[j]),
        decreases len - i,
    {
        let c = s.get_char(i);
        if c == '/' || c == '\\' || c == '\u{0}' {
            return false;
        }
        i = i + 1;
    }
    if len == 1 && s.get_char(0) == '.' {
        proof {
            assert(s@ =~= seq!['.']);
        }
        return false;
    }
    if len == 2 && s.get_char(0) == '.' && s.get_char(1) == '.' {
        proof {
            assert(s@ =~= seq!['.', '.']);
        }
        return false;
    }
    proof {
        if s@ == seq!['.'] {
            assert(s@[0] == '.');
        }
        if s@ == seq!['.', '.'] {
            assert(s@[0] == '.' && s@[1] == '.');
        }
    }
    true
}

/// The directory all records live under, as characters.
pub open spec fn res_root() -> Seq<char> {
    seq!['r', 'e', 's']
}

/// The directory of a namespace: `res/<dir>`.
pub open spec fn spec_dir_path(dir: Seq<char>) -> Seq<char> {
    res_root() + seq!['/'] + dir
}

/// The file of a record: `res/<dir>/<key>.rmp`.
pub open spec fn spec_rec_path(dir: Seq<char>, key: Seq<char>) -> Seq<char> {
    spec_dir_path(dir) + seq!['/'] + key + seq!['.', 'r', 'm', 'p']
}

/// One stored record: an identity and its bytes.
struct StoreEntry {
    dir: String,
    key: String,
    bytes: Vec<u8>,
}

/// The record tree: at most one byte string per `(namespace, key)` identity.
pub struct Store {
    entries: Vec<StoreEntry>,
}

impl Store {
    /// The identity/bytes pairs held, in insertion order.
    closed spec fn pairs(self) -> Seq<((Seq<char>, Seq<char>), Seq<u8>)> {
        self.entries@.map(|i: int, e: StoreEntry| ((e.dir@, e.key@), e.bytes@))
    }

    /// Identities are pairwise distinct.
    pub closed spec fn wf(self) -> bool {
        keys_distinct(self.pairs())
    }

    /// The records held, as a map from identity to bytes.
    pub closed spec fn records(self) -> Map<(Seq<char>, Seq<char>), Seq<u8>> {
        map_of(self.pairs())
    }

    /// An empty store.
    pub fn new() -> (r: Store)
        ensures
            r.wf(),
            r.records() == Map::<(Seq<char>, Seq<char>), Seq<u8>>::empty(),
    {
        Store { entries: Vec::new() }
    }

    /// The index of the entry under the identity, if any.
    fn find(&self, dir: &str, key: &str) -> (r: Option<usize>)
        requires
            self.wf(),
        ensures
            match r {
                Some(i) => i < self.entries@.len() && self.entries@[i as int].dir@ == dir@
                    && self.entries@[i as int].key@ == key@ && self.records().contains_key(
                    (dir@, key@),
                ) && self.records()[(dir@, key@)] == self.entries@[i as int].bytes@,
                None => !self.records().contains_key((dir@, key@)),
            },
    {
        proof {
            lemma_map_of_entries(self.pairs());
        }
        let n = self.entries.len();
        let mut i: usize = 0;
        while i < n
            invariant
                0 <= i <= n,
                n == self.entries@.len(),
                self.wf(),
                forall|j: int|
                    0 <= j < i ==> ((#[trigger] self.entries@[j]).dir@ != dir@
                        || self.entries@[j].key@ != key@),
            decreases n - i,
        {
            let e = &self.entries[i];
            if str_eq(e.dir.as_str(), dir) && str_eq(e.key.as_str(), key) {
                proof {
                    lemma_map_of_entries(self.pairs());
                    assert(self.pairs()[i as int].0 == (dir@, key@));
                }
                return Some(i);
            }
            i = i + 1;
        }
        proof {
            if self.records().contains_key((dir@, key@)) {
                lemma_map_of_entries(self.pairs());
                let j = choose|j: int|
                    0 <= j < self.pairs().len() && (#[trigger] self.pairs()[j]).0 == (dir@, key@);
                assert(self.entries@[j].dir@ == dir@ && self.entries@[j].key@ == key@);
            }
        }
        None
    }

    /// The bytes stored under the identity, if any.
    pub fn read(&self, dir: &str, key: &str) -> (r: Option<&Vec<u8>>)
        requires
            self.wf(),
        ensures
            match r {
                Some(b) => self.records().contains_key((dir@, key@)) && b@ == self.records()[
                    (dir@, key@)
                ],
                None => !self.records().contains_key((dir@, key@)),
            },
    {
        match self.find(dir, key) {
            Some(i) => Some(&self.entries[i].bytes),
            None => None,
        }
    }

    /// Stores `bytes` under the identity, replacing any previous record.
    pub fn write(&mut self, dir: &str, key: &str, bytes: Vec<u8>)
        requires
            old(self).wf(),
        ensures
            final(self).wf(),
            final(self).records() == old(self).records().insert((dir@, key@), bytes@),
    {
        let ghost p = self.pairs();
        match self.find(dir, key) {
            Some(i) => {
                let _ = self.entries.remove(i);
                proof {
                    assert(self.pairs() =~= p.remove(i as int));
                    lemma_keys_distinct_remove(p, i as int);
                    lemma_map_of_remove(p, i as int);
                    let q = p.remove(i as int);
                    assert(p[i as int].0 == (dir@, key@));
                    assert forall|j: int| 0 <= j < q.len() implies (#[trigger] q[j]).0 != (
                    dir@,
                    key@,
                    ) by {
                        let j0 = if j < i {
                            j
                        } else {
                            j + 1
                        };
                        assert(q[j] == p[j0]);
                        assert(p[j0].0 != p[i as int].0);
                    };
                }
            },
            None => {
                proof {
                    lemma_map_of_entries(p);
                    assert forall|j: int| 0 <= j < p.len() implies (#[trigger] p[j]).0 != (
                    dir@,
                    key@,
                    ) by {
                        if p[j].0 == (dir@, key@) {
                            assert(map_of(p).contains_key((dir@, key@)));
                        }
                    };
                }
            },
        }
        let ghost q = self.pairs();
        let entry = StoreEntry { dir: dir.to_owned(), key: key.to_owned(), bytes };
        self.entries.push(entry);
        proof {
            let qp = q.push(((dir@, key@), bytes@));
            assert(self.pairs() =~= qp);
            assert forall|a: int, b: int| 0 <= a < b < qp.len() implies (#[trigger] qp[a]).0 != (
            #[trigger] qp[b]).0 by {
                if b < q.len() {
                    assert(qp[a] == q[a] && qp[b] == q[b]);
                } else {
                    assert(qp[b].0 == (dir@, key@));
                    assert(qp[a] == q[a]);
                }
            };
            assert(qp.drop_last() =~= q);
            assert(self.records() =~= old(self).records().insert((dir@, key@), bytes@));
        }
    }

    /// Removes the record under the identity, returning its bytes.
    pub fn erase(&mut self, dir: &str, key: &str) -> (r: Option<Vec<u8>>)
        requires
            old(self).wf(),
        ensures
            final(self).wf(),
            match r {
                Some(b) => old(self).records().contains_key((dir@, key@)) && b@ == old(self).records()[(dir@, key@)] && final(self).records() == old(self).records().remove(
                    (dir@, key@),
                ),
                None => !old(self).records().contains_key((dir@, key@)) && *final(self) == *old(self),
            },
    {
        let ghost p = self.pairs();
        match self.find(dir, key) {
            Some(i) => {
                let entry = self.entries.remove(i);
                proof {
                    assert(self.pairs() =~= p.remove(i as int));
                    lemma_keys_distinct_remove(p, i as int);
                    lemma_map_of_remove(p, i as int);
                }
                Some(entry.bytes)
            },
            None => None,
        }
    }
}

/// What loading an identity from the records `m` must produce, at the byte
/// level: the stored bytes, or the exact error owed.
pub open spec fn load_result<T: Encodable>(
    m: Map<(Seq<char>, Seq<char>), Seq<u8>>,
    dir: Seq<char>,
    key: Seq<char>,
) -> Result<Seq<u8>, StoreError> {
    if !(valid_component(dir) && valid_component(key)) {
        Err(StoreError::PathError)
    } else if !m.contains_key((dir, key)) {
        Err(StoreError::NotFound)
    } else if !T::decodable(m[(dir, key)]) {
        Err(StoreError::DecodeError)
    } else {
        Ok(m[(dir, key)])
    }
}

/// A record handle: an identity and the payload held in memory for it.
pub struct Data<T: Encodable> {
    dir: String,
    key: String,
    value: T,
}

impl<T: Encodable> Data<T> {
    /// The namespace this handle points at.
    pub closed spec fn spec_dir(&self) -> Seq<char> {
        self.dir@
    }

    /// The key this handle points at.
    pub closed spec fn spec_key(&self) -> Seq<char> {
        self.key@
    }

    /// The payload held in memory.
    pub closed spec fn spec_value(&self) -> T {
        self.value
    }

    /// The directory all records live under.
    pub fn root() -> (r: String)
        ensures
            r@ == res_root(),
    {
        proof {
            reveal_strlit("res");
            assert("res"@ =~= res_root());
        }
        String::from_str("res")
    }

    /// The directory of the namespace `dir`, or `PathError` if `dir` cannot
    /// stand as a path component.
    pub fn dir_from(dir: &str) -> (r: Result<String, StoreError>)
        ensures
            match r {
                Ok(p) => valid_component(dir@) && p@ == spec_dir_path(dir@),
                Err(e) => e == StoreError::PathError && !valid_component(dir@),
            },
    {
        if !check_component(dir) {
            return Err(StoreError::PathError);
        }
        proof {
            reveal_strlit("res/");
            assert("res/"@ =~= res_root() + seq!['/']);
        }
        let mut p = String::from_str("res/");
        p.append(dir);
        proof {
            assert(p@ =~= spec_dir_path(dir@));
        }
        Ok(p)
    }

    /// The file of the record `(dir, key)`, or `PathError` if either part
    /// cannot stand as a path component.
    pub fn path_from(dir: &str, key: &str) -> (r: Result<String, StoreError>)
        ensures
            match r {
                Ok(p) => valid_component(dir@) && valid_component(key@) && p@ == spec_rec_path(
                    dir@,
                    key@,
                ),
                Err(e) => e == StoreError::PathError && !(valid_component(dir@)
                    && valid_component(key@)),
            },
    {
        let mut p = match Self::dir_from(dir) {
            Ok(p) => p,
            Err(e) => {
                return Err(e);
            },
        };
        if !check_component(key) {
            return Err(StoreError::PathError);
        }
        proof {
            reveal_strlit("/");
            reveal_strlit(".rmp");
            assert("/"@ =~= seq!['/']);
            assert(".rmp"@ =~= seq!['.', 'r', 'm', 'p']);
        }
        p.append("/");
        p.append(key);
        p.append(".rmp");
        proof {
            assert(p@ =~= spec_rec_path(dir@, key@));
        }
        Ok(p)
    }

    /// A handle for `(dir, key)` holding `value` in memory.  Nothing is
    /// stored until the handle is saved.
    pub fn new(dir: String, key: String, value: T) -> (r: Self)
        ensures
            r.spec_dir() == dir@,
            r.spec_key() == key@,
            r.spec_value() == value,
    {
        Data { dir, key, value }
    }

    /// Loads the record under `(dir, key)` from the store: the stored bytes
    /// parsed as a payload, or the exact error `load_result` owes.
    pub fn load(store: &Store, dir: &str, key: &str) -> (r: Result<Self, StoreError>)
        requires
            store.wf(),
        ensures
            match r {
                Ok(d) => load_result::<T>(store.records(), dir@, key@) == Ok::<
                    Seq<u8>,
                    StoreError,
                >(d.spec_value().encoding()) && d.spec_dir() == dir@ && d.spec_key() == key@,
                Err(e) => load_result::<T>(store.records(), dir@, key@) == Err::<
                    Seq<u8>,
                    StoreError,
                >(e),
            },
    {
        if !check_component(dir) || !check_component(key) {
            return Err(StoreError::PathError);
        }
        let bytes = match store.read(dir, key) {
            Some(b) => b,
            None => {
                return Err(StoreError::NotFound);
            },
        };
        match T::decode(bytes.as_slice()) {
            Some(value) => Ok(Data { dir: dir.to_owned(), key: key.to_owned(), value }),
            None => Err(StoreError::DecodeError),
        }
    }

    /// The directory this handle's namespace maps to.
    pub fn dir(&self) -> (r: Result<String, StoreError>)
        ensures
            match r {
                Ok(p) => valid_component(self.spec_dir()) && p@ == spec_dir_path(self.spec_dir()),
                Err(e) => e == StoreError::PathError && !valid_component(self.spec_dir()),
            },
    {
        Self::dir_from(self.dir.as_str())
    }

    /// The file this handle's identity maps to.
    pub fn path(&self) -> (r: Result<String, StoreError>)
        ensures
            match r {
                Ok(p) => valid_component(self.spec_dir()) && valid_component(self.spec_key())
                    && p@ == spec_rec_path(self.spec_dir(), self.spec_key()),
                Err(e) => e == StoreError::PathError && !(valid_component(self.spec_dir())
                    && valid_component(self.spec_key())),
            },
    {
        Self::path_from(self.dir.as_str(), self.key.as_str())
    }

    /// Saves the payload's encoding under this handle's identity, replacing
    /// any previous record; `PathError` (and no change) if the identity
    /// cannot form a path.
    pub fn res_save(&self, store: &mut Store) -> (r: Result<(), StoreError>)
        requires
            old(store).wf(),
        ensures
            final(store).wf(),
            match r {
                Ok(()) => valid_component(self.spec_dir()) && valid_component(self.spec_key())
                    && final(store).records() == old(store).records().insert(
                    (self.spec_dir(), self.spec_key()),
                    self.spec_value().encoding(),
                ),
                Err(e) => e == StoreError::PathError && !(valid_component(self.spec_dir())
                    && valid_component(self.spec_key())) && *final(store) == *old(store),
            },
    {
        if !check_component(self.dir.as_str()) || !check_component(self.key.as_str()) {
            return Err(StoreError::PathError);
        }
        let bytes = self.value.encode();
        store.write(self.dir.as_str(), self.key.as_str(), bytes);
        Ok(())
    }

    /// Gives the payload up to the caller.
    pub fn res_unwrap(self) -> (r: T)
        ensures
            r == self.spec_value(),
    {
        self.value
    }

    /// Removes the record under this handle's identity and returns the
    /// in-memory payload as salvage; `IoError` if no record backs the
    /// identity, `PathError` if the identity cannot form a path.
    pub fn res_delete(self, store: &mut Store) -> (r: Result<T, StoreError>)
        requires
            old(store).wf(),
        ensures
            final(store).wf(),
            match r {
                Ok(v) => v == self.spec_value() && valid_component(self.spec_dir())
                    && valid_component(self.spec_key()) && old(store).records().contains_key(
                    (self.spec_dir(), self.spec_key()),
                ) && final(store).records() == old(store).records().remove(
                    (self.spec_dir(), self.spec_key()),
                ),
                Err(e) => *final(store) == *old(store) && ((e == StoreError::PathError && !(
                valid_component(self.spec_dir()) && valid_component(self.spec_key()))) || (e
                    == StoreError::IoError && valid_component(self.spec_dir()) && valid_component(
                    self.spec_key(),
                ) && !old(store).records().contains_key((self.spec_dir(), self.spec_key())))),
            },
    {
        if !check_component(self.dir.as_str()) || !check_component(self.key.as_str()) {
            return Err(StoreError::PathError);
        }
        match store.erase(self.dir.as_str(), self.key.as_str()) {
            Some(_) => Ok(self.value),
            None => Err(StoreError::IoError),
        }
    }

    /// Moves the record to a new identity: removes the old file, then saves
    /// under the new one.  `PathError` with nothing changed if the old
    /// identity cannot form a path; `IoError` with nothing changed if no
    /// record backs it.  After the removal the new identity is adopted and
    /// saved; if the new identity cannot form a path the old record is
    /// already gone — the acknowledged no-rollback gap.
    pub fn res_rename(&mut self, store: &mut Store, dir: &str, key: &str) -> (r: Result<
        (),
        StoreError,
    >)
        requires
            old(store).wf(),
        ensures
            final(store).wf(),
            match r {
                Ok(()) => valid_component(old(self).spec_dir()) && valid_component(
                    old(self).spec_key(),
                ) && old(store).records().contains_key(
                    (old(self).spec_dir(), old(self).spec_key()),
                ) && valid_component(dir@) && valid_component(key@) && final(self).spec_dir()
                    == dir@ && final(self).spec_key() == key@ && final(self).spec_value() == old(self).spec_value() && final(store).records() == old(store).records().remove(
                    (old(self).spec_dir(), old(self).spec_key()),
                ).insert((dir@, key@), old(self).spec_value().encoding()),
                Err(e) => (e == StoreError::PathError && !(valid_component(old(self).spec_dir())
                    && valid_component(old(self).spec_key())) && *final(self) == *old(self)
                    && *final(store) == *old(store)) || (e == StoreError::IoError
                    && valid_component(old(self).spec_dir()) && valid_component(
                    old(self).spec_key(),
                ) && !old(store).records().contains_key(
                    (old(self).spec_dir(), old(self).spec_key()),
                ) && *final(self) == *old(self) && *final(store) == *old(store)) || (e
                    == StoreError::PathError && valid_component(old(self).spec_dir())
                    && valid_component(old(self).spec_key()) && old(store).records().contains_key((old(self).spec_dir(), old(self).spec_key())) && !(
                valid_component(dir@) && valid_component(key@)) && final(self).spec_dir() == dir@
                    && final(self).spec_key() == key@ && final(self).spec_value() == old(self).spec_value() && final(store).records() == old(store).records().remove(
                    (old(self).spec_dir(), old(self).spec_key()),
                )),
            },
    {
        if !check_component(self.dir.as_str()) || !check_component(self.key.as_str()) {
            return Err(StoreError::PathError);
        }
        match store.erase(self.dir.as_str(), self.key.as_str()) {
            Some(_) => (),
            None => {
                return Err(StoreError::IoError);
            },
        }
        self.dir = dir.to_owned();
        self.key = key.to_owned();
        self.res_save(store)
    }

    /// Saves an equal copy of the payload under a new identity, leaving this
    /// handle and its record untouched; `PathError` (and no change) if the
    /// new identity cannot form a path.
    pub fn res_clone(&self, store: &mut Store, dir: &str, key: &str) -> (r: Result<
        Self,
        StoreError,
    >)
        requires
            old(store).wf(),
        ensures
            final(store).wf(),
            match r {
                Ok(d) => valid_component(dir@) && valid_component(key@) && d.spec_dir() == dir@
                    && d.spec_key() == key@ && d.spec_value() == self.spec_value() && final(store).records() == old(store).records().insert(
                    (dir@, key@),
                    self.spec_value().encoding(),
                ),
                Err(e) => e == StoreError::PathError && !(valid_component(dir@)
                    && valid_component(key@)) && *final(store) == *old(store),
            },
    {
        let copied = Data { dir: dir.to_owned(), key: key.to_owned(), value: self.value.duplicate() };
        match copied.res_save(store) {
            Ok(()) => Ok(copied),
            Err(e) => Err(e),
        }
    }

    /// The payload, by reference.
    pub fn value(&self) -> (r: &T)
        ensures
            r == &self.spec_value(),
    {
        &self.value
    }

    /// The payload, by mutable reference; the identity cannot change through
    /// it, and the store is untouched until the next save.
    pub fn value_mut(&mut self) -> (r: &mut T)
        ensures
            *r == old(self).spec_value(),
            final(self).spec_dir() == old(self).spec_dir(),
            final(self).spec_key() == old(self).spec_key(),
            final(self).spec_value() == *final(r),
    {
        &mut self.value
    }
}

/// Round trip: after a save under a valid identity, loading that identity
/// succeeds and yields exactly the saved value's encoding.
pub proof fn lemma_save_then_load<T: Encodable>(
    m: Map<(Seq<char>, Seq<char>), Seq<u8>>,
    dir: Seq<char>,
    key: Seq<char>,
    v: T,
)
    requires
        valid_component(dir),
        valid_component(key),
    ensures
        load_result::<T>(m.insert((dir, key), v.encoding()), dir, key) == Ok::<Seq<u8>, StoreError>(
            v.encoding(),
        ),
{
    v.lemma_encoding_decodable();
}

/// Delete forgets: after an identity is removed, loading it reports the
/// record missing.
pub proof fn lemma_delete_then_load<T: Encodable>(
    m: Map<(Seq<char>, Seq<char>), Seq<u8>>,
    dir: Seq<char>,
    key: Seq<char>,
)
    requires
        valid_component(dir),
        valid_component(key),
    ensures
        load_result::<T>(m.remove((dir, key)), dir, key) == Err::<Seq<u8>, StoreError>(
            StoreError::NotFound,
        ),
{
}

/// Rename moves, never duplicates: after the bytes move from one valid
/// identity to another, the old identity loads as missing and the new one
/// yields the prior bytes.
pub proof fn lemma_rename_moves<T: Encodable>(
    m: Map<(Seq<char>, Seq<char>), Seq<u8>>,
    dir: Seq<char>,
    key: Seq<char>,
    dir2: Seq<char>,
    key2: Seq<char>,
    b: Seq<u8>,
)
    requires
        valid_component(dir),
        valid_component(key),
        valid_component(dir2),
        valid_component(key2),
        (dir, key) != (dir2, key2),
        T::decodable(b),
    ensures
        load_result::<T>(m.remove((dir, key)).insert((dir2, key2), b), dir, key) == Err::<
            Seq<u8>,
            StoreError,
        >(StoreError::NotFound),
        load_result::<T>(m.remove((dir, key)).insert((dir2, key2), b), dir2, key2) == Ok::<
            Seq<u8>,
            StoreError,
        >(b),
{
}

/// Clone preserves the original: after the bytes under one identity are also
/// inserted under a second, both identities load and yield the same bytes.
pub proof fn lemma_clone_preserves<T: Encodable>(
    m: Map<(Seq<char>, Seq<char>), Seq<u8>>,
    dir: Seq<char>,
    key: Seq<char>,
    dir2: Seq<char>,
    key2: Seq<char>,
)
    requires
        valid_component(dir),
        valid_component(key),
        valid_component(dir2),
        valid_component(key2),
        m.contains_key((dir, key)),
        T::decodable(m[(dir, key)]),
    ensures
        load_result::<T>(m.insert((dir2, key2), m[(dir, key)]), dir, key) == Ok::<
            Seq<u8>,
            StoreError,
        >(m[(dir, key)]),
        load_result::<T>(m.insert((dir2, key2), m[(dir, key)]), dir2, key2) == Ok::<
            Seq<u8>,
            StoreError,
        >(m[(dir, key)]),
{
}

} // verus!
