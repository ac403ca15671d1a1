//! Handles to shared assets, and the storage that hands them out.

use std::sync::Arc;
use vstd::prelude::*;
use vstd::std_specs::cmp::PartialEqSpecImpl;

verus! {

/// `Arc::clone`: another pointer to the same value.
#[verifier::external_body]
fn share<T>(pointer: &Arc<T>) -> (shared: Arc<T>)
    ensures
        *shared == **pointer,
{
    Arc::clone(pointer)
}

/// `Arc::strong_count`: the number of strong pointers to the value, which
/// counts the one it is asked through. Other threads may change the number
/// at any time, so nothing more is said of it.
#[verifier::external_body]
fn count_strong<T>(pointer: &Arc<T>) -> (count: usize)
    ensures
        count >= 1,
{
    Arc::strong_count(pointer)
}

/// `Arc::weak_count`: the number of weak pointers to the value at the moment
/// of the call.
#[verifier::external_body]
fn count_weak<T>(pointer: &Arc<T>) -> usize {
    Arc::weak_count(pointer)
}

/// A strong handle to an asset: the asset lives as long as one handle to it
/// does. Handles are told apart by their identifier alone.
#[derive(Debug)]
pub struct AssetHandle<T> {
    id: u64,
    inner: Arc<T>,
}

impl<T> AssetHandle<T> {
    /// The identifier of the asset.
    pub closed spec fn key(&self) -> u64 {
        self.id
    }

    /// The asset.
    pub closed spec fn asset(&self) -> T {
        *self.inner
    }

    /// A handle to `value` under the identifier `id`.
    pub fn new(id: u64, value: T) -> (handle: AssetHandle<T>)
        ensures
            handle.key() == id,
            handle.asset() == value,
    {
        AssetHandle { id, inner: Arc::new(value) }
    }

    /// A handle under the identifier `id` to a value that is shared already.
    pub fn from_shared(id: u64, value: Arc<T>) -> (handle: AssetHandle<T>)
        ensures
            handle.key() == id,
            handle.asset() == *value,
    {
        AssetHandle { id, inner: value }
    }

    /// The shared pointer behind the handle.
    pub fn shared(&self) -> (pointer: &Arc<T>)
        ensures
            **pointer == self.asset(),
    {
        &self.inner
    }

    /// The identifier of the asset.
    pub fn id(&self) -> (id: u64)
        ensures
            id == self.key(),
    {
        self.id
    }

    /// The asset.
    pub fn get(&self) -> (asset: &T)
        ensures
            *asset == self.asset(),
    {
        &self.inner
    }

    /// The number of strong handles to the asset, this one among them.
    pub fn strong_count(&self) -> (count: usize)
        ensures
            count >= 1,
    {
        count_strong(&self.inner)
    }

    /// The number of weak handles to the asset.
    pub fn weak_count(&self) -> usize {
        count_weak(&self.inner)
    }
}

impl<T> Clone for AssetHandle<T> {
    /// Another handle to the same asset.
    fn clone(&self) -> (handle: AssetHandle<T>)
        ensures
            handle.key() == self.key(),
            handle.asset() == self.asset(),
    {
        AssetHandle { id: self.id, inner: share(&self.inner) }
    }
}

impl<T> PartialEq for AssetHandle<T> {
    fn eq(&self, other: &Self) -> (same: bool) {
        self.id == other.id
    }
}

impl<T> PartialEqSpecImpl for AssetHandle<T> {
    open spec fn obeys_eq_spec() -> bool {
        true
    }

    open spec fn eq_spec(&self, other: &Self) -> bool {
        self.key() == other.key()
    }
}

impl<T> Eq for AssetHandle<T> {

}

/// What a storage keeps of one asset.
pub struct StoredAsset<T> {
    /// The identifier of the asset.
    pub id: u64,
    /// The asset.
    pub asset: T,
    /// The path the asset was added under, if any.
    pub path: Option<Seq<char>>,
}

/// The place of the first asset with the identifier `id`, from place `from`
/// on.
pub open spec fn position<T>(stored: Seq<StoredAsset<T>>, id: u64, from: int) -> Option<int>
    decreases stored.len() - from,
{
    if from < 0 || from >= stored.len() {
        None
    } else if stored[from].id == id {
        Some(from)
    } else {
        position(stored, id, from + 1)
    }
}

/// A place that `position` finds holds the identifier, and no place from
/// `from` up to it does.
pub proof fn lemma_position_found<T>(stored: Seq<StoredAsset<T>>, id: u64, from: int)
    ensures
        position(stored, id, from) matches Some(i) ==> from <= i < stored.len() && stored[i].id == id,
    decreases stored.len() - from,
{
    if from < 0 || from >= stored.len() {
    } else if stored[from].id == id {
    } else {
        lemma_position_found(stored, id, from + 1);
    }
}

/// The place of the first entry for `path`, from place `from` on.
pub open spec fn path_position(paths: Seq<(Seq<char>, u64)>, path: Seq<char>, from: int) -> Option<
    int,
>
    decreases paths.len() - from,
{
    if from < 0 || from >= paths.len() {
        None
    } else if paths[from].0 == path {
        Some(from)
    } else {
        path_position(paths, path, from + 1)
    }
}

/// The identifier that `path` leads to, if it leads to one.
pub open spec fn path_target(paths: Seq<(Seq<char>, u64)>, path: Seq<char>) -> Option<u64> {
    match path_position(paths, path, 0) {
        Some(i) => Some(paths[i].1),
        None => None,
    }
}

/// The assets `stored` with `entry` put in: in place of the asset with the
/// same identifier, or at the end where there is none.
pub open spec fn put<T>(stored: Seq<StoredAsset<T>>, entry: StoredAsset<T>) -> Seq<StoredAsset<T>> {
    match position(stored, entry.id, 0) {
        Some(i) => stored.update(i, entry),
        None => stored.push(entry),
    }
}

/// The paths `paths` with `path` made to lead to `id`.
pub open spec fn bound(paths: Seq<(Seq<char>, u64)>, path: Seq<char>, id: u64) -> Seq<
    (Seq<char>, u64),
> {
    match path_position(paths, path, 0) {
        Some(i) => paths.update(i, (path, id)),
        None => paths.push((path, id)),
    }
}

/// The paths `paths` without the first entry for `path`.
pub open spec fn unbound(paths: Seq<(Seq<char>, u64)>, path: Seq<char>) -> Seq<(Seq<char>, u64)> {
    match path_position(paths, path, 0) {
        Some(i) => paths.remove(i),
        None => paths,
    }
}

/// The asset a path leads to: the place among `stored` of the asset whose
/// identifier `path` leads to.
pub open spec fn path_asset<T>(
    stored: Seq<StoredAsset<T>>,
    paths: Seq<(Seq<char>, u64)>,
    path: Seq<char>,
) -> Option<int> {
    match path_target(paths, path) {
        Some(id) => position(stored, id, 0),
        None => None,
    }
}

/// One stored asset: a handle to it and the path it was added under.
struct AssetEntry<T> {
    handle: AssetHandle<T>,
    path: Option<String>,
}

impl<T> AssetEntry<T> {
    spec fn stored(&self) -> StoredAsset<T> {
        StoredAsset {
            id: self.handle.key(),
            asset: self.handle.asset(),
            path: match self.path {
                Some(p) => Some(p@),
                None => None,
            },
        }
    }
}

/// The storage of the assets of one type. Every asset gets an identifier of
/// its own; an asset added under a path is found again by that path, and
/// adding under the same path again hands out the asset that is there.
pub struct Assets<T: Send + Sync> {
    entries: Vec<AssetEntry<T>>,
    paths: Vec<(String, u64)>,
    next_id: u64,
}

impl<T: Send + Sync> Assets<T> {
    /// The stored assets, in the order they were added.
    pub closed spec fn stored(&self) -> Seq<StoredAsset<T>> {
        Seq::new(self.entries@.len(), |i: int| self.entries@[i].stored())
    }

    /// The paths, each with the identifier it leads to.
    pub closed spec fn paths(&self) -> Seq<(Seq<char>, u64)> {
        Seq::new(self.paths@.len(), |i: int| (self.paths@[i].0@, self.paths@[i].1))
    }

    /// The identifier the next new asset gets.
    pub closed spec fn next_id(&self) -> u64 {
        self.next_id
    }

    /// An empty storage, whose first asset gets the identifier 1.
    pub fn new() -> (assets: Assets<T>)
        ensures
            assets.stored().len() == 0,
            assets.paths().len() == 0,
            assets.next_id() == 1,
    {
        Assets { entries: Vec::new(), paths: Vec::new(), next_id: 1 }
    }

    /// Finds the place of the asset with the identifier `id`.
    fn find(&self, id: u64) -> (place: Option<usize>)
        ensures
            match place {
                Some(i) => position(self.stored(), id, 0) == Some(i as int) && i < self.entries@.len(),
                None => position(self.stored(), id, 0) is None,
            },
    {
        let mut i: usize = 0;
        while i < self.entries.len()
            invariant
                i <= self.entries@.len(),
                position(self.stored(), id, 0) == position(self.stored(), id, i as int),
            decreases self.entries@.len() - i,
        {
            if self.entries[i].handle.id() == id {
                return Some(i);
            }
            i += 1;
        }
        None
    }

    /// Finds the place of the entry for `path`.
    fn find_path(&self, path: &String) -> (place: Option<usize>)
        ensures
            match place {
                Some(i) => path_position(self.paths(), path@, 0) == Some(i as int) && i
                    < self.paths@.len(),
                None => path_position(self.paths(), path@, 0) is None,
            },
    {
        let mut i: usize = 0;
        while i < self.paths.len()
            invariant
                i <= self.paths@.len(),
                path_position(self.paths(), path@, 0) == path_position(self.paths(), path@, i as int),
            decreases self.paths@.len() - i,
        {
            if self.paths[i].0 == *path {
                return Some(i);
            }
            i += 1;
        }
        None
    }

    /// Puts `entry` in: in place of the asset with the same identifier, or at
    /// the end.
    fn insert(&mut self, entry: AssetEntry<T>)
        ensures
            final(self).stored() == put(old(self).stored(), entry.stored()),
            final(self).paths() == old(self).paths(),
            final(self).next_id() == old(self).next_id(),
    {
        match self.find(entry.handle.id()) {
            Some(i) => {
                self.entries[i] = entry;
                proof {
                    assert(self.stored() =~= old(self).stored().update(i as int, entry.stored()));
                }
            },
            None => {
                self.entries.push(entry);
                proof {
                    assert(self.stored() =~= old(self).stored().push(entry.stored()));
                }
            },
        }
        proof {
            assert(self.paths() =~= old(self).paths());
        }
    }

    /// Takes a new identifier. Identifiers start over after the largest one.
    fn fresh_id(&mut self) -> (id: u64)
        ensures
            id == old(self).next_id(),
            final(self).next_id() == if id == u64::MAX {
                0
            } else {
                (id + 1) as u64
            },
            final(self).stored() == old(self).stored(),
            final(self).paths() == old(self).paths(),
    {
        let id = self.next_id;
        self.next_id = if id == u64::MAX {
            0
        } else {
            id + 1
        };
        proof {
            assert(self.stored() =~= old(self).stored());
            assert(self.paths() =~= old(self).paths());
        }
        id
    }

    /// Stores `asset` under a new identifier and returns a handle to it.
    pub fn add(&mut self, asset: T) -> (handle: AssetHandle<T>)
        ensures
            handle.key() == old(self).next_id(),
            handle.asset() == asset,
            final(self).stored() == put(
                old(self).stored(),
                StoredAsset { id: handle.key(), asset, path: None },
            ),
            final(self).paths() == old(self).paths(),
            final(self).next_id() == if handle.key() == u64::MAX {
                0
            } else {
                (handle.key() + 1) as u64
            },
    {
        let id = self.fresh_id();
        let handle = AssetHandle::new(id, asset);
        self.insert(AssetEntry { handle: handle.clone(), path: None });
        handle
    }

    /// Stores `asset` under `path`, unless `path` leads to a stored asset
    /// already: then nothing changes, `asset` is let go, and the handle is
    /// one to the asset that is there.
    pub fn add_with_path(&mut self, asset: T, path: &str) -> (handle: AssetHandle<T>)
        ensures
            match path_asset(old(self).stored(), old(self).paths(), path@) {
                Some(i) => {
                    &&& handle.key() == old(self).stored()[i].id
                    &&& handle.asset() == old(self).stored()[i].asset
                    &&& final(self).stored() == old(self).stored()
                    &&& final(self).paths() == old(self).paths()
                    &&& final(self).next_id() == old(self).next_id()
                },
                None => {
                    &&& handle.key() == old(self).next_id()
                    &&& handle.asset() == asset
                    &&& final(self).stored() == put(
                        old(self).stored(),
                        StoredAsset { id: handle.key(), asset, path: Some(path@) },
                    )
                    &&& final(self).paths() == bound(old(self).paths(), path@, handle.key())
                    &&& final(self).next_id() == if handle.key() == u64::MAX {
                        0
                    } else {
                        (handle.key() + 1) as u64
                    }
                },
            },
    {
        let path = path.to_owned();
        let known = self.find_path(&path);
        if let Some(at) = known {
            let id = self.paths[at].1;
            if let Some(i) = self.find(id) {
                let handle = self.entries[i].handle.clone();
                return handle;
            }
        }
        let id = self.fresh_id();
        let handle = AssetHandle::new(id, asset);
        match known {
            Some(at) => {
                self.paths[at] = (path.clone(), id);
                proof {
                    assert(self.paths() =~= old(self).paths().update(at as int, (path@, id)));
                    assert(self.stored() =~= old(self).stored());
                }
            },
            None => {
                self.paths.push((path.clone(), id));
                proof {
                    assert(self.paths() =~= old(self).paths().push((path@, id)));
                    assert(self.stored() =~= old(self).stored());
                }
            },
        }
        self.insert(AssetEntry { handle: handle.clone(), path: Some(path) });
        handle
    }

    /// A handle to the asset with the identifier `id`, if it is stored.
    pub fn get(&self, id: u64) -> (handle: Option<AssetHandle<T>>)
        ensures
            match position(self.stored(), id, 0) {
                Some(i) => handle matches Some(h) && h.key() == id && h.asset() == self.stored()[i].asset,
                None => handle is None,
            },
    {
        proof {
            lemma_position_found(self.stored(), id, 0);
        }
        match self.find(id) {
            Some(i) => Some(self.entries[i].handle.clone()),
            None => None,
        }
    }

    /// A handle to the asset that `path` leads to, if it leads to a stored
    /// one.
    pub fn get_by_path(&self, path: &str) -> (handle: Option<AssetHandle<T>>)
        ensures
            match path_asset(self.stored(), self.paths(), path@) {
                Some(i) => handle matches Some(h) && h.key() == self.stored()[i].id && h.asset()
                    == self.stored()[i].asset,
                None => handle is None,
            },
    {
        let path = path.to_owned();
        match self.find_path(&path) {
            Some(at) => {
                proof {
                    lemma_position_found(self.stored(), self.paths()[at as int].1, 0);
                }
                self.get(self.paths[at].1)
            },
            None => None,
        }
    }

    /// Whether `path` leads to an identifier.
    pub fn contains_path(&self, path: &str) -> (known: bool)
        ensures
            known == path_target(self.paths(), path@) is Some,
    {
        let path = path.to_owned();
        self.find_path(&path).is_some()
    }

    /// Removes the asset with the identifier `id`, and with it the path it
    /// was added under. Returns whether there was such an asset.
    pub fn remove(&mut self, id: u64) -> (removed: bool)
        ensures
            final(self).next_id() == old(self).next_id(),
            match position(old(self).stored(), id, 0) {
                Some(i) => {
                    &&& removed
                    &&& final(self).stored() == old(self).stored().remove(i)
                    &&& final(self).paths() == match old(self).stored()[i].path {
                        Some(path) => unbound(old(self).paths(), path),
                        None => old(self).paths(),
                    }
                },
                None => !removed && final(self).stored() == old(self).stored() && final(self).paths()
                    == old(self).paths(),
            },
    {
        match self.find(id) {
            Some(i) => {
                let entry = self.entries.remove(i);
                proof {
                    assert(self.stored() =~= old(self).stored().remove(i as int));
                    assert(self.paths() =~= old(self).paths());
                }
                if let Some(path) = entry.path {
                    if let Some(at) = self.find_path(&path) {
                        self.paths.remove(at);
                        proof {
                            assert(self.paths() =~= old(self).paths().remove(at as int));
                            assert(self.stored() =~= old(self).stored().remove(i as int));
                        }
                    }
                }
                true
            },
            None => false,
        }
    }

    /// The number of stored assets.
    pub fn len(&self) -> (count: usize)
        ensures
            count == self.stored().len(),
    {
        self.entries.len()
    }

    /// Whether nothing is stored.
    pub fn is_empty(&self) -> (empty: bool)
        ensures
            empty == (self.stored().len() == 0),
    {
        self.entries.len() == 0
    }

    /// Removes every asset and every path.
    pub fn clear(&mut self)
        ensures
            final(self).stored().len() == 0,
            final(self).paths().len() == 0,
            final(self).next_id() == old(self).next_id(),
    {
        self.entries.clear();
        self.paths.clear();
    }

    /// Handles to all stored assets, in the order they were added.
    pub fn iter(&self) -> (handles: Vec<AssetHandle<T>>)
        ensures
            handles@.len() == self.stored().len(),
            forall|i: int|
                0 <= i < handles@.len() ==> (#[trigger] handles@[i]).key() == self.stored()[i].id
                    && handles@[i].asset() == self.stored()[i].asset,
    {
        let mut handles: Vec<AssetHandle<T>> = Vec::new();
        let mut i: usize = 0;
        while i < self.entries.len()
            invariant
                i <= self.entries@.len(),
                handles@.len() == i,
                forall|j: int|
                    0 <= j < i ==> (#[trigger] handles@[j]).key() == self.stored()[j].id
                        && handles@[j].asset() == self.stored()[j].asset,
            decreases self.entries@.len() - i,
        {
            handles.push(self.entries[i].handle.clone());
            i += 1;
        }
        handles
    }
}

impl<T: Send + Sync> Default for Assets<T> {
    fn default() -> (assets: Assets<T>)
        ensures
            assets.stored().len() == 0,
            assets.paths().len() == 0,
            assets.next_id() == 1,
    {
        Assets::new()
    }
}

} // verus!
