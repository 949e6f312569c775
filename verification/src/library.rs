//! The library's collections: disk folders and playlists over the track pool,
//! playlist membership and order, and what removing a track from a playlist
//! does to the pool.

use vstd::prelude::*;

use crate::error::{LibraryError, is_backend_error};
use crate::manager::{
    BankEntry, LibraryManager, TrackRow, cues_wf, find_id, lemma_find_id, lemma_find_id_push,
    lemma_find_id_remove, loops_wf, pads_wf, unix_nanos,
};
use crate::paths::{path_under_folder, path_under_folder_of};
use crate::records::{copy_opt_string, SamplerBankRecord, SamplerSlotRecord};
use crate::source::{row_refusal, 
    AudioSource, FileAudioSource, StreamAudioSource, row_source_ok, track_source, unknown_provider,
};
use crate::records::TrackMetadata;
use crate::manager::opt_chars;
use crate::paths::{file_name, file_name_of};
use crate::text::{
    chars_eq, chars_less, chars_lt, chars_of, eq_ignore_case, lower_chars, owned, push_dec_u128, push_str,
    string_of,
};
use vstd::seq_lib::{to_multiset_build, to_multiset_insert};
use crate::types::{
    Collection, CollectionConfig, CollectionConfigUpdate, CollectionId, CollectionTrack,
    CollectionType, NewCollection, StreamProvider, UpdateCollection, collection_sortable, config_type,
    provider_wire,
};

verus! {

/// Ids of the collections.
pub open spec fn collection_ids(cs: Seq<Collection>) -> Seq<Seq<char>> {
    cs.map_values(|c: Collection| c.id.0@)
}

/// Adding a folder that is already in the catalogue gives back the stored
/// collection and adds nothing: adding the same existing folder twice, under
/// any names, returns the same collection both times.
pub proof fn law_folder_add_idempotent(
    m0: LibraryManager,
    m1: LibraryManager,
    m2: LibraryManager,
    fs_path: Seq<char>,
    n1: Option<String>,
    n2: Option<String>,
    s1: bool,
    s2: bool,
    r1: Result<Collection, LibraryError>,
    r2: Result<Collection, LibraryError>,
)
    requires
        m0.folder_added(&m1, fs_path, n1, s1, r1),
        m1.folder_added(&m2, fs_path, n2, s2, r2),
    ensures
        r2 == r1,
        m2.collections@ == m1.collections@,
{
    let id = "folder:"@ + fs_path;
    if m0.collection_of(id) is None {
        let c = r1->Ok_0;
        let ids0 = collection_ids(m0.collections@);
        assert(collection_ids(m1.collections@) =~= ids0.push(c.id.0@));
        lemma_find_id_push(ids0, c.id.0@, id);
        assert(m1.collection_of(id) == Some(c));
    }
}

/// A copy of a collection.
pub fn copy_collection(c: &Collection) -> (r: Collection)
    ensures
        r == *c,
{
    Collection {
        id: CollectionId(c.id.0.clone()),
        name: c.name.clone(),
        config: match &c.config {
            CollectionConfig::Folder { fs_path, scan_folder_tree } => CollectionConfig::Folder {
                fs_path: fs_path.clone(),
                scan_folder_tree: *scan_folder_tree,
            },
            CollectionConfig::Playlist { sortable } => CollectionConfig::Playlist { sortable: *sortable },
        },
    }
}

/// The not-found error for a collection or track id.
pub fn not_found(id: &str) -> (e: LibraryError)
    ensures
        e matches LibraryError::NotFound(s) && s@ == id@,
{
    LibraryError::NotFound(owned(id))
}

impl LibraryManager {
    /// No two collections share an id.
    pub open spec fn catalog_wf(&self) -> bool {
        forall|i: int, j: int|
            0 <= i < j < self.collections@.len() ==> #[trigger] self.collections@[i].id.0@
                != #[trigger] self.collections@[j].id.0@
    }

    /// What adding the existing folder `fs_path` (display name from `name`,
    /// scanning its tree or not) gives: the collection already stored under
    /// its id, with nothing changed, or a new collection appended.
    pub open spec fn folder_added(
        &self,
        after: &Self,
        fs_path: Seq<char>,
        name: Option<String>,
        scan: bool,
        r: Result<Collection, LibraryError>,
    ) -> bool {
        let id = "folder:"@ + fs_path;
        &&& r is Ok
        &&& self.collection_of(id) matches Some(c) ==> r == Ok::<Collection, LibraryError>(c)
            && after.collections@ == self.collections@
        &&& self.collection_of(id) is None ==> (r matches Ok(c) && c.id.0@ == id
            && c.name@ == folder_display_name(name, fs_path) && (c.config matches CollectionConfig::Folder {
            fs_path: p,
            scan_folder_tree: t,
        } && p@ == fs_path && t == scan) && after.collections@ == self.collections@.push(c))
    }

    /// The collection with id `id`, if any.
    pub open spec fn collection_of(&self, id: Seq<char>) -> Option<Collection> {
        let k = find_id(collection_ids(self.collections@), id, 0);
        if k >= 0 {
            Some(self.collections@[k])
        } else {
            None
        }
    }

    fn collection_position(&self, id: &str) -> (k: Option<usize>)
        ensures
            match k {
                Some(i) => i < self.collections@.len() && find_id(collection_ids(self.collections@), id@, 0)
                    == i,
                None => find_id(collection_ids(self.collections@), id@, 0) == -1,
            },
    {
        let ids = chars_of(id);
        let mut i: usize = 0;
        while i < self.collections.len()
            invariant
                i <= self.collections@.len(),
                ids@ == id@,
                find_id(collection_ids(self.collections@), id@, 0) == find_id(
                    collection_ids(self.collections@),
                    id@,
                    i as int,
                ),
            decreases self.collections.len() - i,
        {
            let c = chars_of(self.collections[i].id.0.as_str());
            if chars_eq(c.as_slice(), ids.as_slice()) {
                return Some(i);
            }
            i = i + 1;
        }
        None
    }

    /// Backend name.
    pub fn name(&self) -> (n: &'static str)
        ensures
            n@ == "library"@,
    {
        proof {
            reveal_strlit("library");
        }
        "library"
    }

    /// Fetch a single collection by id.
    pub fn get_collection(&self, id: &CollectionId) -> (r: Result<Option<Collection>, LibraryError>)
        ensures
            r matches Ok(o) && o == self.collection_of(id.0@),
    {
        match self.collection_position(id.0.as_str()) {
            Some(k) => Ok(Some(copy_collection(&self.collections[k]))),
            None => Ok(None),
        }
    }

    /// The collection `id`, or a not-found error.
    pub fn require_collection(&self, id: &CollectionId) -> (r: Result<Collection, LibraryError>)
        ensures
            match self.collection_of(id.0@) {
                Some(c) => r == Ok::<Collection, LibraryError>(c),
                None => r matches Err(LibraryError::NotFound(s)) && s@ == id.0@,
            },
    {
        match self.collection_position(id.0.as_str()) {
            Some(k) => Ok(copy_collection(&self.collections[k])),
            None => Err(not_found(id.0.as_str())),
        }
    }

    /// The playlist `id`; a not-found error when there is no such collection,
    /// a wrong-type error when it is a folder.
    pub fn require_playlist(&self, id: &CollectionId) -> (r: Result<Collection, LibraryError>)
        ensures
            match self.collection_of(id.0@) {
                Some(c) => match c.config {
                    CollectionConfig::Playlist { .. } => r == Ok::<Collection, LibraryError>(c),
                    CollectionConfig::Folder { .. } => r matches Err(
                        LibraryError::WrongCollectionType { expected, got },
                    ) && expected@ == "playlist"@ && got@ == "folder"@,
                },
                None => r matches Err(LibraryError::NotFound(s)) && s@ == id.0@,
            },
    {
        let c = self.require_collection(id)?;
        match c.config {
            CollectionConfig::Folder { .. } => {
                proof {
                    reveal_strlit("playlist");
                    reveal_strlit("folder");
                }
                Err(LibraryError::WrongCollectionType { expected: "playlist", got: "folder" })
            },
            CollectionConfig::Playlist { .. } => Ok(c),
        }
    }
}

/// Display name of a new folder collection at `path`: the given name, else
/// the folder's file name, else the path itself.
pub open spec fn folder_display_name(name: Option<String>, path: Seq<char>) -> Seq<char> {
    match name {
        Some(n) => n@,
        None => match file_name_of(path) {
            Some(f) => if f.len() > 0 {
                f
            } else {
                path
            },
            None => path,
        },
    }
}

/// The entry `e` belongs to collection `c`.
pub open spec fn entry_in(e: CollectionTrack, c: Seq<char>) -> bool {
    e.collection_id.0@ == c
}

impl LibraryManager {
    /// Everything but the collections and their entries is the same.
    pub open spec fn same_but_catalog(&self, other: &Self) -> bool {
        &&& self.config == other.config
        &&& self.tracks@ == other.tracks@
        &&& self.decks@ == other.decks@
        &&& self.banks@ == other.banks@
    }

    /// Add a collection. A folder's path is taken as given (already made
    /// absolute by the caller), and `dir_exists` says whether it is a
    /// directory: a folder already added is returned as it is; a playlist
    /// needs a name and gets a fresh `playlist:` id.
    pub fn add_collection(&mut self, collection: &NewCollection, dir_exists: bool) -> (r: Result<
        Collection,
        LibraryError,
    >)
        requires
            old(self).catalog_wf(),
        ensures
            final(self).catalog_wf(),
            final(self).same_but_catalog(&*old(self)),
            final(self).entries@ == old(self).entries@,
            r is Err ==> final(self).collections@ == old(self).collections@,
            match collection.config {
                CollectionConfig::Folder { fs_path, scan_folder_tree } => {
                    &&& !dir_exists ==> (r matches Err(LibraryError::NotADirectory(p)) && p@ == fs_path@)
                    &&& dir_exists ==> old(self).folder_added(
                        &*final(self),
                        fs_path@,
                        collection.name,
                        scan_folder_tree,
                        r,
                    )
                },
                CollectionConfig::Playlist { sortable } => {
                    &&& collection.name is None ==> is_backend_error(
                        r,
                        "library"@,
                        "playlist collection requires a name"@,
                    )
                    &&& r matches Ok(c) ==> collection.name is Some && c.name == collection.name->0
                        && c.config == (CollectionConfig::Playlist { sortable }) && starts_with_playlist(c.id.0@)
                        && old(self).collection_of(c.id.0@) is None && final(self).collections@
                        == old(self).collections@.push(c)
                },
            },
    {
        let ghost old_ids = collection_ids(self.collections@);
        let c = match &collection.config {
            CollectionConfig::Folder { fs_path, scan_folder_tree } => {
                if !dir_exists {
                    return Err(LibraryError::NotADirectory(fs_path.clone()));
                }
                let mut id = owned("folder:");
                push_str(&mut id, fs_path.as_str());
                match self.collection_position(id.as_str()) {
                    Some(k) => {
                        return Ok(copy_collection(&self.collections[k]));
                    },
                    None => {},
                }
                let name = match &collection.name {
                    Some(n) => n.clone(),
                    None => {
                        let cs = chars_of(fs_path.as_str());
                        match file_name(cs.as_slice()) {
                            Some(f) => if f.len() > 0 {
                                string_of(f.as_slice())
                            } else {
                                fs_path.clone()
                            },
                            None => fs_path.clone(),
                        }
                    },
                };
                Collection {
                    id: CollectionId(id),
                    name,
                    config: CollectionConfig::Folder {
                        fs_path: fs_path.clone(),
                        scan_folder_tree: *scan_folder_tree,
                    },
                }
            },
            CollectionConfig::Playlist { sortable } => {
                let name = match &collection.name {
                    Some(n) => n.clone(),
                    None => {
                        return Err(
                            LibraryError::Backend {
                                backend: "library",
                                message: owned("playlist collection requires a name"),
                            },
                        );
                    },
                };
                let id = new_playlist_id();
                if self.collection_position(id.as_str()).is_some() {
                    return Err(
                        LibraryError::Backend {
                            backend: "library",
                            message: owned("UNIQUE constraint failed: collections.id"),
                        },
                    );
                }
                Collection {
                    id: CollectionId(id),
                    name,
                    config: CollectionConfig::Playlist { sortable: *sortable },
                }
            },
        };
        let out = copy_collection(&c);
        proof {
            lemma_find_id(old_ids, c.id.0@, 0);
        }
        self.collections.push(c);
        proof {
            assert(collection_ids(self.collections@) =~= old_ids.push(out.id.0@));
            assert forall|i: int, j: int|
                0 <= i < j < self.collections@.len() implies #[trigger] self.collections@[i].id.0@
                    != #[trigger] self.collections@[j].id.0@ by {
                if j == self.collections@.len() - 1 {
                    assert(old_ids[i] == self.collections@[i].id.0@);
                }
            }
        }
        Ok(out)
    }

    /// Delete a collection and its playlist entries; the tracks stay in the
    /// pool. Refused when there is no such collection.
    pub fn delete_collection(&mut self, id: &CollectionId) -> (r: Result<(), LibraryError>)
        requires
            old(self).catalog_wf(),
        ensures
            final(self).catalog_wf(),
            final(self).same_but_catalog(&*old(self)),
            old(self).collection_of(id.0@) is None ==> (r matches Err(LibraryError::NotFound(s)) && s@
                == id.0@) && final(self).collections@ == old(self).collections@ && final(self).entries@
                == old(self).entries@,
            old(self).collection_of(id.0@) is Some ==> r is Ok && final(self).collection_of(id.0@) is None
                && final(self).entries@ == old(self).entries@.filter(
                |e: CollectionTrack| !entry_in(e, id.0@),
            ),
            forall|t: Seq<char>| #![auto] t != id.0@ ==> final(self).collection_of(t) == old(self).collection_of(t),
    {
        let k = match self.collection_position(id.0.as_str()) {
            Some(k) => k,
            None => {
                return Err(not_found(id.0.as_str()));
            },
        };
        let ghost old_ids = collection_ids(self.collections@);
        let ghost old_cs = self.collections@;
        self.collections.remove(k);
        proof {
            assert(collection_ids(self.collections@) =~= old_ids.remove(k as int));
            assert forall|i: int, j: int|
                0 <= i < j < old_ids.len() implies #[trigger] old_ids[i] != #[trigger] old_ids[j] by {
                assert(old_ids[i] == old_cs[i].id.0@);
                assert(old_ids[j] == old_cs[j].id.0@);
            }
            lemma_find_id(old_ids, id.0@, 0);
            lemma_find_id_remove(old_ids, k as int, id.0@);
            assert forall|t: Seq<char>| #![auto] t != id.0@ implies self.collection_of(t) == old(self).collection_of(t) by {
                lemma_find_id_remove(old_ids, k as int, t);
                lemma_find_id(old_ids, t, 0);
            }
            assert forall|i: int, j: int|
                0 <= i < j < self.collections@.len() implies #[trigger] self.collections@[i].id.0@
                    != #[trigger] self.collections@[j].id.0@ by {
                let i2 = if i < k { i } else { i + 1 };
                let j2 = if j < k { j } else { j + 1 };
                assert(self.collections@[i] == old_cs[i2]);
                assert(self.collections@[j] == old_cs[j2]);
            }
        }
        let ids = chars_of(id.0.as_str());
        let mut kept: Vec<CollectionTrack> = Vec::new();
        let mut i: usize = 0;
        while i < self.entries.len()
            invariant
                i <= self.entries@.len(),
                ids@ == id.0@,
                self.entries@ == old(self).entries@,
                kept@ == self.entries@.take(i as int).filter(|e: CollectionTrack| !entry_in(e, id.0@)),
            decreases self.entries.len() - i,
        {
            let c = chars_of(self.entries[i].collection_id.0.as_str());
            proof {
                reveal(Seq::filter);
                assert(self.entries@.take(i + 1).drop_last() =~= self.entries@.take(i as int));
            }
            if !chars_eq(c.as_slice(), ids.as_slice()) {
                kept.push(copy_entry(&self.entries[i]));
            }
            i = i + 1;
        }
        assert(self.entries@.take(self.entries@.len() as int) =~= self.entries@);
        self.entries = kept;
        Ok(())
    }
}

/// The id starts with `playlist:`.
pub open spec fn starts_with_playlist(id: Seq<char>) -> bool {
    crate::text::starts_with(id, "playlist:"@)
}

/// A new playlist id: `playlist:` and the current time in nanoseconds.
fn new_playlist_id() -> (id: String)
    ensures
        starts_with_playlist(id@),
{
    let mut id = owned("playlist:");
    let ghost prefix = id@;
    let n = unix_nanos();
    push_dec_u128(&mut id, n);
    proof {
        reveal_strlit("playlist:");
        assert(id@.take(prefix.len() as int) =~= prefix);
    }
    id
}

/// A copy of a playlist entry.
pub fn copy_entry(e: &CollectionTrack) -> (r: CollectionTrack)
    ensures
        r == *e,
{
    CollectionTrack {
        collection_id: CollectionId(e.collection_id.0.clone()),
        track_id: crate::types::TrackId(e.track_id.0.clone()),
        position: e.position,
    }
}

/// Entries of playlist `c` whose track sorts at or before `t`.
pub open spec fn count_le(es: Seq<CollectionTrack>, c: Seq<char>, t: Seq<char>) -> nat {
    es.filter(|e: CollectionTrack| entry_in(e, c) && !chars_lt(t, e.track_id.0@)).len()
}

/// `e` with position `p`.
pub open spec fn at_position(e: CollectionTrack, p: Option<i32>) -> CollectionTrack {
    CollectionTrack { collection_id: e.collection_id, track_id: e.track_id, position: p }
}

/// The entries after playlist `c` became ordered: each of its entries takes
/// the place of its track in track-id order (the last place, for a track
/// listed twice); other entries are unchanged.
pub open spec fn ranked_entries(es: Seq<CollectionTrack>, c: Seq<char>) -> Seq<CollectionTrack> {
    es.map_values(
        |e: CollectionTrack|
            if entry_in(e, c) {
                at_position(e, Some((count_le(es, c, e.track_id.0@) - 1) as i32))
            } else {
                e
            },
    )
}

/// The entries after playlist `c` became unordered: its entries lose their
/// positions.
pub open spec fn cleared_entries(es: Seq<CollectionTrack>, c: Seq<char>) -> Seq<CollectionTrack> {
    es.map_values(|e: CollectionTrack| if entry_in(e, c) { at_position(e, None) } else { e })
}

/// `c` renamed to `n`, when a name is given.
pub open spec fn renamed(c: Collection, n: Option<String>) -> Collection {
    match n {
        Some(name) => Collection { id: c.id, name, config: c.config },
        None => c,
    }
}

impl LibraryManager {
    /// Give every entry of playlist `c` its rank in track-id order.
    fn rank_positions(&mut self, c: &str)
        ensures
            final(self).entries@ == ranked_entries(old(self).entries@, c@),
            final(self).collections@ == old(self).collections@,
            final(self).same_but_catalog(&*old(self)),
    {
        let cs = chars_of(c);
        let n = self.entries.len();
        let mut i: usize = 0;
        while i < n
            invariant
                n == self.entries@.len(),
                n == old(self).entries@.len(),
                i <= n,
                cs@ == c@,
                self.collections@ == old(self).collections@,
                self.same_but_catalog(&*old(self)),
                forall|j: int| 0 <= j < i ==> self.entries@[j] == ranked_entries(old(self).entries@, c@)[j],
                forall|j: int| i <= j < n ==> self.entries@[j] == old(self).entries@[j],
            decreases n - i,
        {
            let ec = chars_of(self.entries[i].collection_id.0.as_str());
            if chars_eq(ec.as_slice(), cs.as_slice()) {
                let t = chars_of(self.entries[i].track_id.0.as_str());
                let mut count: usize = 0;
                let mut j: usize = 0;
                while j < n
                    invariant
                        n == self.entries@.len(),
                        n == old(self).entries@.len(),
                        j <= n,
                        i < n,
                        cs@ == c@,
                        t@ == old(self).entries@[i as int].track_id.0@,
                        forall|q: int| 0 <= q < i ==> self.entries@[q] == ranked_entries(old(self).entries@, c@)[q],
                        forall|q: int| i <= q < n ==> self.entries@[q] == old(self).entries@[q],
                        count == old(self).entries@.take(j as int).filter(
                            |e: CollectionTrack| entry_in(e, c@) && !chars_lt(t@, e.track_id.0@),
                        ).len(),
                    decreases n - j,
                {
                    proof {
                        reveal(Seq::filter);
                        assert(old(self).entries@.take(j + 1).drop_last() =~= old(self).entries@.take(j as int));
                    }
                    let ghost ej = old(self).entries@[j as int];
                    let jc = if j < i {
                        proof {
                            assert(self.entries@[j as int].collection_id == ej.collection_id);
                            assert(self.entries@[j as int].track_id == ej.track_id);
                        }
                        chars_of(self.entries[j].collection_id.0.as_str())
                    } else {
                        chars_of(self.entries[j].collection_id.0.as_str())
                    };
                    if chars_eq(jc.as_slice(), cs.as_slice()) {
                        let jt = chars_of(self.entries[j].track_id.0.as_str());
                        if !chars_less(t.as_slice(), jt.as_slice()) {
                            count = count + 1;
                        }
                    }
                    j = j + 1;
                }
                assert(old(self).entries@.take(n as int) =~= old(self).entries@);
                proof {
                    assert(count >= 1) by {
                        crate::text::lemma_chars_lt_order(t@, t@, t@);
                        old(self).entries@.lemma_filter_contains(
                            |e: CollectionTrack| entry_in(e, c@) && !chars_lt(t@, e.track_id.0@),
                            i as int,
                        );
                    }
                }
                let mut e = self.entries.remove(i);
                e.position = Some(#[verifier::truncate] ((count - 1) as i32));
                self.entries.insert(i, e);
            }
            i = i + 1;
        }
        assert(self.entries@ =~= ranked_entries(old(self).entries@, c@));
    }

    /// Take the positions off every entry of playlist `c`.
    fn clear_positions(&mut self, c: &str)
        ensures
            final(self).entries@ == cleared_entries(old(self).entries@, c@),
            final(self).collections@ == old(self).collections@,
            final(self).same_but_catalog(&*old(self)),
    {
        let cs = chars_of(c);
        let n = self.entries.len();
        let mut i: usize = 0;
        while i < n
            invariant
                n == self.entries@.len(),
                n == old(self).entries@.len(),
                i <= n,
                cs@ == c@,
                self.collections@ == old(self).collections@,
                self.same_but_catalog(&*old(self)),
                forall|j: int| 0 <= j < i ==> self.entries@[j] == cleared_entries(old(self).entries@, c@)[j],
                forall|j: int| i <= j < n ==> self.entries@[j] == old(self).entries@[j],
            decreases n - i,
        {
            let ec = chars_of(self.entries[i].collection_id.0.as_str());
            if chars_eq(ec.as_slice(), cs.as_slice()) {
                let mut e = self.entries.remove(i);
                e.position = None;
                self.entries.insert(i, e);
            }
            i = i + 1;
        }
        assert(self.entries@ =~= cleared_entries(old(self).entries@, c@));
    }

    /// Rename a collection and/or change whether a playlist is ordered. A
    /// rename of an unknown collection is refused; an order change needs a
    /// playlist (a rename made in the same call stays). A playlist that
    /// becomes ordered numbers its entries in track-id order; one that
    /// becomes unordered drops their positions.
    #[verifier::spinoff_prover]
    pub fn update_collection(&mut self, id: &CollectionId, update: &UpdateCollection) -> (r: Result<
        (),
        LibraryError,
    >)
        requires
            old(self).catalog_wf(),
        ensures
            final(self).catalog_wf(),
            final(self).same_but_catalog(&*old(self)),
            collection_ids(final(self).collections@) == collection_ids(old(self).collections@),
            forall|t: Seq<char>| #![auto] t != id.0@ ==> final(self).collection_of(t) == old(self).collection_of(t),
            update.name is None && update.config is None ==> r is Ok && final(self).collections@ == old(
                self,
            ).collections@ && final(self).entries@ == old(self).entries@,
            update.name is Some && old(self).collection_of(id.0@) is None ==> (r matches Err(
                LibraryError::NotFound(s),
            ) && s@ == id.0@) && final(self).collections@ == old(self).collections@
                && final(self).entries@ == old(self).entries@,
            update.config is None && old(self).collection_of(id.0@) is Some ==> r is Ok
                && final(self).collection_of(id.0@) == Some(renamed(old(self).collection_of(id.0@)->0, update.name))
                && final(self).entries@ == old(self).entries@,
            update.name is None && update.config is Some && old(self).collection_of(id.0@) is None ==> (
            r matches Err(LibraryError::NotFound(s)) && s@ == id.0@) && final(self).collections@ == old(
                self,
            ).collections@ && final(self).entries@ == old(self).entries@,
            update.config matches Some(CollectionConfigUpdate::Playlist { sortable }) ==> old(
                self,
            ).collection_of(id.0@) is Some ==> {
                let c = old(self).collection_of(id.0@)->0;
                let named = renamed(c, update.name);
                match c.config {
                    CollectionConfig::Folder { .. } => {
                        &&& (r matches Err(LibraryError::WrongCollectionType { expected, got })
                            && expected@ == "playlist"@ && got@ == "folder"@)
                        &&& final(self).collection_of(id.0@) == Some(named)
                        &&& final(self).entries@ == old(self).entries@
                    },
                    CollectionConfig::Playlist { sortable: current } => {
                        &&& r is Ok
                        &&& final(self).collection_of(id.0@) == Some(
                            Collection {
                                id: named.id,
                                name: named.name,
                                config: CollectionConfig::Playlist { sortable },
                            },
                        )
                        &&& final(self).entries@ == (if current == sortable {
                            old(self).entries@
                        } else if sortable {
                            ranked_entries(old(self).entries@, id.0@)
                        } else {
                            cleared_entries(old(self).entries@, id.0@)
                        })
                    },
                }
            },
    {
        if update.name.is_none() && update.config.is_none() {
            return Ok(());
        }
        let k = match self.collection_position(id.0.as_str()) {
            Some(k) => k,
            None => {
                return Err(not_found(id.0.as_str()));
            },
        };
        let ghost old_ids = collection_ids(self.collections@);
        proof {
            lemma_find_id(old_ids, id.0@, 0);
        }
        let mut c = self.collections.remove(k);
        match &update.name {
            Some(n) => {
                c.name = n.clone();
            },
            None => {},
        }
        let mut result: Result<(), LibraryError> = Ok(());
        let mut change: Option<bool> = None;
        match update.config {
            Some(CollectionConfigUpdate::Playlist { sortable }) => {
                match c.config {
                    CollectionConfig::Folder { .. } => {
                        proof {
                            reveal_strlit("playlist");
                            reveal_strlit("folder");
                        }
                        result = Err(
                            LibraryError::WrongCollectionType { expected: "playlist", got: "folder" },
                        );
                    },
                    CollectionConfig::Playlist { sortable: current } => {
                        if current != sortable {
                            c.config = CollectionConfig::Playlist { sortable };
                            change = Some(sortable);
                        }
                    },
                }
            },
            None => {},
        }
        self.collections.insert(k, c);
        proof {
            assert(collection_ids(self.collections@) =~= old_ids);
            assert forall|t: Seq<char>| #![auto] t != id.0@ implies self.collection_of(t) == old(self).collection_of(t) by {
                lemma_find_id(old_ids, t, 0);
            }
            assert forall|i: int, j: int|
                0 <= i < j < self.collections@.len() implies #[trigger] self.collections@[i].id.0@
                    != #[trigger] self.collections@[j].id.0@ by {
                assert(self.collections@[i].id.0@ == old_ids[i]);
                assert(self.collections@[j].id.0@ == old_ids[j]);
                assert(old_ids[i] == old(self).collections@[i].id.0@);
                assert(old_ids[j] == old(self).collections@[j].id.0@);
            }
        }
        match change {
            Some(true) => self.rank_positions(id.0.as_str()),
            Some(false) => self.clear_positions(id.0.as_str()),
            None => {},
        }
        result
    }
}

/// Entry `a` is listed before entry `b` of a playlist: placed entries first,
/// by place, then by track id.
pub open spec fn entry_before(a: CollectionTrack, b: CollectionTrack) -> bool {
    match (a.position, b.position) {
        (Some(x), None) => true,
        (None, Some(_)) => false,
        (Some(x), Some(y)) => x < y || (x == y && chars_lt(a.track_id.0@, b.track_id.0@)),
        (None, None) => chars_lt(a.track_id.0@, b.track_id.0@),
    }
}

/// `entry_before` is a strict order that leaves apart only entries with the
/// same place and track.
pub proof fn lemma_entry_before_order(a: CollectionTrack, b: CollectionTrack, c: CollectionTrack)
    ensures
        !entry_before(a, a),
        entry_before(a, b) ==> !entry_before(b, a),
        entry_before(a, b) && entry_before(b, c) ==> entry_before(a, c),
        !entry_before(a, b) && !entry_before(b, c) ==> !entry_before(a, c),
{
    crate::text::lemma_chars_lt_order(a.track_id.0@, b.track_id.0@, c.track_id.0@);
    crate::text::lemma_chars_lt_order(b.track_id.0@, c.track_id.0@, a.track_id.0@);
    crate::text::lemma_chars_lt_order(c.track_id.0@, a.track_id.0@, b.track_id.0@);
    crate::text::lemma_chars_lt_order(a.track_id.0@, c.track_id.0@, b.track_id.0@);
    crate::text::lemma_chars_lt_order(c.track_id.0@, b.track_id.0@, a.track_id.0@);
    crate::text::lemma_chars_lt_order(b.track_id.0@, a.track_id.0@, c.track_id.0@);
}

/// The track ids of a run of entries.
pub open spec fn entry_track_ids(s: Seq<CollectionTrack>) -> Seq<Seq<char>> {
    s.map_values(|e: CollectionTrack| e.track_id.0@)
}

/// `s` lists the entries of `es` that belong to playlist `c`, in display order.
pub open spec fn playlist_order(s: Seq<CollectionTrack>, es: Seq<CollectionTrack>, c: Seq<char>) -> bool {
    &&& s.to_multiset() == es.filter(|e: CollectionTrack| entry_in(e, c)).to_multiset()
    &&& forall|i: int, j: int| 0 <= i < j < s.len() ==> !entry_before(#[trigger] s[j], #[trigger] s[i])
}

/// A playlist listing puts the entries that have a place first, by ascending
/// place, and then the entries without a place by ascending track id.
pub proof fn law_playlist_listing_order(
    s: Seq<CollectionTrack>,
    es: Seq<CollectionTrack>,
    c: Seq<char>,
    i: int,
    j: int,
)
    requires
        playlist_order(s, es, c),
        0 <= i < j < s.len(),
    ensures
        s[i].position is None ==> s[j].position is None,
        s[i].position is Some && s[j].position is Some ==> s[i].position->0 <= s[j].position->0,
        s[i].position is None && s[j].position is None ==> !chars_lt(
            s[j].track_id.0@,
            s[i].track_id.0@,
        ),
{
    assert(!entry_before(s[j], s[i]));
}

fn exec_entry_before(a: &CollectionTrack, b: &CollectionTrack) -> (r: bool)
    ensures
        r == entry_before(*a, *b),
{
    match (a.position, b.position) {
        (Some(_), None) => true,
        (None, Some(_)) => false,
        (Some(x), Some(y)) => {
            if x != y {
                x < y
            } else {
                let at = chars_of(a.track_id.0.as_str());
                let bt = chars_of(b.track_id.0.as_str());
                chars_less(at.as_slice(), bt.as_slice())
            }
        },
        (None, None) => {
            let at = chars_of(a.track_id.0.as_str());
            let bt = chars_of(b.track_id.0.as_str());
            chars_less(at.as_slice(), bt.as_slice())
        },
    }
}

impl LibraryManager {
    /// The entries of playlist `c`, in display order.
    pub fn playlist_entries(&self, c: &CollectionId) -> (r: Vec<CollectionTrack>)
        ensures
            playlist_order(r@, self.entries@, c.0@),
    {
        let cs = chars_of(c.0.as_str());
        let ghost pred = |e: CollectionTrack| entry_in(e, c.0@);
        let mut out: Vec<CollectionTrack> = Vec::new();
        let mut i: usize = 0;
        assert(self.entries@.take(0).filter(pred) =~= out@) by {
            reveal(Seq::filter);
        }
        while i < self.entries.len()
            invariant
                i <= self.entries@.len(),
                cs@ == c.0@,
                pred == (|e: CollectionTrack| entry_in(e, c.0@)),
                out@.to_multiset() == self.entries@.take(i as int).filter(pred).to_multiset(),
                forall|a: int, b: int| 0 <= a < b < out@.len() ==> !entry_before(#[trigger] out@[b], #[trigger] out@[a]),
            decreases self.entries.len() - i,
        {
            proof {
                reveal(Seq::filter);
                assert(self.entries@.take(i + 1).drop_last() =~= self.entries@.take(i as int));
            }
            let ec = chars_of(self.entries[i].collection_id.0.as_str());
            if chars_eq(ec.as_slice(), cs.as_slice()) {
                let x = copy_entry(&self.entries[i]);
                let mut p: usize = 0;
                while p < out.len()
                    invariant
                        p <= out@.len(),
                        forall|q: int| 0 <= q < p ==> !entry_before(x, #[trigger] out@[q]),
                    ensures
                        p <= out@.len(),
                        forall|q: int| 0 <= q < p ==> !entry_before(x, #[trigger] out@[q]),
                        p < out@.len() ==> entry_before(x, out@[p as int]),
                    decreases out.len() - p,
                {
                    if exec_entry_before(&x, &out[p]) {
                        break;
                    }
                    p = p + 1;
                }
                let ghost before = out@;
                proof {
                    assert forall|a: int, b: int|
                        0 <= a < b < before.len() + 1 implies !entry_before(
                        #[trigger] before.insert(p as int, x)[b],
                        #[trigger] before.insert(p as int, x)[a],
                    ) by {
                        let n = before.insert(p as int, x);
                        if a < p && b == p {
                            assert(n[a] == before[a] && n[b] == x);
                        } else if a == p && b > p {
                            assert(n[a] == x && n[b] == before[b - 1]);
                            lemma_entry_before_order(before[b - 1], before[p as int], x);
                            lemma_entry_before_order(x, before[p as int], before[b - 1]);
                            if b - 1 > p {
                                assert(!entry_before(before[b - 1], before[p as int]));
                            }
                        } else if a < p && b < p {
                            assert(n[a] == before[a] && n[b] == before[b]);
                        } else if a < p && b > p {
                            assert(n[a] == before[a] && n[b] == before[b - 1]);
                        } else {
                            assert(n[a] == before[a - 1] && n[b] == before[b - 1]);
                        }
                    }
                }
                let ghost xr = x;
                out.insert(p, x);
                proof {
                    let prev = self.entries@.take(i as int).filter(pred);
                    assert(self.entries@.take(i + 1).filter(pred) == prev.push(xr));
                    assert(out@ == before.insert(p as int, xr));
                    to_multiset_insert(before, p as int, xr);
                    to_multiset_build(prev, xr);
                }
            } else {
                proof {
                    assert(self.entries@.take(i + 1).filter(pred) == self.entries@.take(i as int).filter(pred));
                }
            }
            i = i + 1;
        }
        assert(self.entries@.take(self.entries@.len() as int) =~= self.entries@);
        out
    }

    /// Track ids of playlist `c`, in display order.
    pub fn playlist_track_ids(&self, c: &CollectionId) -> (r: Result<Vec<crate::types::TrackId>, LibraryError>)
        ensures
            r matches Ok(v) && exists|s: Seq<CollectionTrack>|
                playlist_order(s, self.entries@, c.0@) && v@ == s.map_values(|e: CollectionTrack| e.track_id),
    {
        let es = self.playlist_entries(c);
        let mut out: Vec<crate::types::TrackId> = Vec::new();
        let mut i: usize = 0;
        while i < es.len()
            invariant
                i <= es@.len(),
                out@ == es@.take(i as int).map_values(|e: CollectionTrack| e.track_id),
            decreases es.len() - i,
        {
            out.push(crate::types::TrackId(es[i].track_id.0.clone()));
            assert(es@.take(i + 1).map_values(|e: CollectionTrack| e.track_id) =~= es@.take(i as int).map_values(
                |e: CollectionTrack| e.track_id,
            ).push(es@[i as int].track_id));
            i = i + 1;
        }
        assert(es@.take(es@.len() as int) =~= es@);
        Ok(out)
    }
}

/// First position at or after `i` of an entry of playlist `c` for track `t`,
/// or -1.
pub open spec fn find_entry(es: Seq<CollectionTrack>, c: Seq<char>, t: Seq<char>, i: int) -> int
    decreases es.len() - i,
{
    if i < 0 || i >= es.len() {
        -1
    } else if es[i].collection_id.0@ == c && es[i].track_id.0@ == t {
        i
    } else {
        find_entry(es, c, t, i + 1)
    }
}

/// `find_entry` gives a matching position, or -1 when none matches.
pub proof fn lemma_find_entry(es: Seq<CollectionTrack>, c: Seq<char>, t: Seq<char>, i: int)
    requires
        0 <= i,
    ensures
        -1 <= find_entry(es, c, t, i) < es.len(),
        find_entry(es, c, t, i) >= 0 ==> find_entry(es, c, t, i) >= i && es[find_entry(es, c, t, i)].collection_id.0@
            == c && es[find_entry(es, c, t, i)].track_id.0@ == t,
        find_entry(es, c, t, i) == -1 ==> forall|j: int|
            i <= j < es.len() ==> !(es[j].collection_id.0@ == c && #[trigger] es[j].track_id.0@ == t),
    decreases es.len() - i,
{
    if i < es.len() && !(es[i].collection_id.0@ == c && es[i].track_id.0@ == t) {
        lemma_find_entry(es, c, t, i + 1);
    }
}

/// `new` is `old` after track `t` was put in playlist `c` at `pos`: the first
/// entry for the pair takes the place, else a new entry is appended.
pub open spec fn entry_upserted(
    old: Seq<CollectionTrack>,
    new: Seq<CollectionTrack>,
    c: Seq<char>,
    t: Seq<char>,
    pos: Option<i32>,
) -> bool {
    let k = find_entry(old, c, t, 0);
    if k >= 0 {
        new == old.update(k, at_position(old[k], pos))
    } else {
        &&& new.len() == old.len() + 1
        &&& new.drop_last() == old
        &&& new.last().collection_id.0@ == c
        &&& new.last().track_id.0@ == t
        &&& new.last().position == pos
    }
}

/// The entry belongs to playlist `c` and is for track `t`.
pub open spec fn entry_for(e: CollectionTrack, c: Seq<char>, t: Seq<char>) -> bool {
    e.collection_id.0@ == c && e.track_id.0@ == t
}

/// The place a track gets when added to playlist `c` of the entries `es`.
pub open spec fn added_position(es: Seq<CollectionTrack>, c: Seq<char>, sortable: bool, position: Option<i32>) -> Option<
    i32,
> {
    if sortable {
        Some(
            match position {
                Some(p) => p,
                None => es.filter(|e: CollectionTrack| entry_in(e, c)).len() as i32,
            },
        )
    } else {
        None
    }
}

/// Adding a track that is not yet in an ordered playlist, without a place,
/// appends an entry whose place is the number of entries the playlist had
/// before, so it comes after every entry added the same way.
pub proof fn law_added_track_goes_last(
    old: Seq<CollectionTrack>,
    new: Seq<CollectionTrack>,
    c: Seq<char>,
    t: Seq<char>,
)
    requires
        find_entry(old, c, t, 0) < 0,
        entry_upserted(old, new, c, t, added_position(old, c, true, None)),
        old.filter(|e: CollectionTrack| entry_in(e, c)).len() <= i32::MAX,
    ensures
        new.len() == old.len() + 1,
        new.drop_last() == old,
        new.last().collection_id.0@ == c,
        new.last().track_id.0@ == t,
        new.last().position is Some,
        new.last().position->0 as int == old.filter(|e: CollectionTrack| entry_in(e, c)).len(),
{
}

/// The last position of `t` in `s`, or -1.
pub open spec fn last_at(s: Seq<Seq<char>>, t: Seq<char>) -> int
    decreases s.len(),
{
    if s.len() == 0 {
        -1
    } else if s.last() == t {
        s.len() - 1
    } else {
        last_at(s.drop_last(), t)
    }
}

/// The entries of playlist `c` after reordering by `order`: each entry whose
/// track is listed takes its track's (last) place in the list.
pub open spec fn reordered(es: Seq<CollectionTrack>, c: Seq<char>, order: Seq<Seq<char>>) -> Seq<CollectionTrack> {
    es.map_values(
        |e: CollectionTrack|
            if entry_in(e, c) && last_at(order, e.track_id.0@) >= 0 {
                at_position(e, Some(last_at(order, e.track_id.0@) as i32))
            } else {
                e
            },
    )
}

impl LibraryManager {
    fn entry_position(&self, c: &str, t: &str) -> (k: Option<usize>)
        ensures
            match k {
                Some(i) => i < self.entries@.len() && find_entry(self.entries@, c@, t@, 0) == i,
                None => find_entry(self.entries@, c@, t@, 0) == -1,
            },
    {
        let cs = chars_of(c);
        let ts = chars_of(t);
        let mut i: usize = 0;
        while i < self.entries.len()
            invariant
                i <= self.entries@.len(),
                cs@ == c@,
                ts@ == t@,
                find_entry(self.entries@, c@, t@, 0) == find_entry(self.entries@, c@, t@, i as int),
            decreases self.entries.len() - i,
        {
            let ec = chars_of(self.entries[i].collection_id.0.as_str());
            let et = chars_of(self.entries[i].track_id.0.as_str());
            if chars_eq(ec.as_slice(), cs.as_slice()) && chars_eq(et.as_slice(), ts.as_slice()) {
                return Some(i);
            }
            i = i + 1;
        }
        None
    }

    /// Put a track in a playlist (or move it there when it is already in):
    /// an ordered playlist places it at `position`, or last; an unordered one
    /// keeps no place. Refused for an unknown playlist, a folder, or an
    /// unknown track.
    pub fn add_collection_track(
        &mut self,
        collection_id: &CollectionId,
        track_id: &crate::types::TrackId,
        position: Option<i32>,
    ) -> (r: Result<(), LibraryError>)
        requires
            old(self).catalog_wf(),
        ensures
            final(self).catalog_wf(),
            final(self).same_but_catalog(&*old(self)),
            final(self).collections@ == old(self).collections@,
            r is Err ==> final(self).entries@ == old(self).entries@,
            match old(self).collection_of(collection_id.0@) {
                None => r matches Err(LibraryError::NotFound(s)) && s@ == collection_id.0@,
                Some(c) => match c.config {
                    CollectionConfig::Folder { .. } => r matches Err(
                        LibraryError::WrongCollectionType { expected, got },
                    ) && expected@ == "playlist"@ && got@ == "folder"@,
                    CollectionConfig::Playlist { sortable } => {
                        &&& old(self).track_pos(track_id.0@) < 0 ==> (r matches Err(LibraryError::NotFound(s))
                            && s@ == track_id.0@)
                        &&& old(self).track_pos(track_id.0@) >= 0 ==> r is Ok && entry_upserted(
                            old(self).entries@,
                            final(self).entries@,
                            collection_id.0@,
                            track_id.0@,
                            added_position(old(self).entries@, collection_id.0@, sortable, position),
                        )
                        &&& old(self).track_pos(track_id.0@) >= 0 && sortable && position is None
                            && find_entry(old(self).entries@, collection_id.0@, track_id.0@, 0) < 0
                            ==> final(self).entries@.last().position == Some(
                            old(self).entries@.filter(
                                |e: CollectionTrack| entry_in(e, collection_id.0@),
                            ).len() as i32,
                        )
                    },
                },
            },
    {
        let playlist = self.require_playlist(collection_id)?;
        let sortable = match playlist.config {
            CollectionConfig::Playlist { sortable } => sortable,
            CollectionConfig::Folder { .. } => false,
        };
        if self.track_position(track_id.0.as_str()).is_none() {
            return Err(not_found(track_id.0.as_str()));
        }
        let pos = if sortable {
            Some(
                match position {
                    Some(p) => p,
                    None => {
                        let ids = self.playlist_track_ids(collection_id)?;
                        proof {
                            let s = choose|s: Seq<CollectionTrack>|
                                playlist_order(s, self.entries@, collection_id.0@) && ids@ == s.map_values(
                                    |e: CollectionTrack| e.track_id,
                                );
                            vstd::seq_lib::to_multiset_len(s);
                            vstd::seq_lib::to_multiset_len(
                                self.entries@.filter(|e: CollectionTrack| entry_in(e, collection_id.0@)),
                            );
                        }
                        #[verifier::truncate]
                        (ids.len() as i32)
                    },
                },
            )
        } else {
            None
        };
        match self.entry_position(collection_id.0.as_str(), track_id.0.as_str()) {
            Some(k) => {
                let mut e = self.entries.remove(k);
                e.position = pos;
                self.entries.insert(k, e);
                assert(self.entries@ =~= old(self).entries@.update(
                    k as int,
                    at_position(old(self).entries@[k as int], pos),
                ));
            },
            None => {
                self.entries.push(
                    CollectionTrack {
                        collection_id: CollectionId(collection_id.0.clone()),
                        track_id: crate::types::TrackId(track_id.0.clone()),
                        position: pos,
                    },
                );
                assert(self.entries@.drop_last() =~= old(self).entries@);
            },
        }
        Ok(())
    }

    /// Set the places of a sortable playlist's entries from `track_ids`, in
    /// list order. The list must name each track of the playlist, as many
    /// times as the playlist has entries; refused for an unknown playlist, a
    /// folder, or an unordered playlist.
    #[verifier::spinoff_prover]
    pub fn update_collection_track(
        &mut self,
        collection_id: &CollectionId,
        track_ids: &[crate::types::TrackId],
    ) -> (r: Result<(), LibraryError>)
        requires
            old(self).catalog_wf(),
        ensures
            final(self).catalog_wf(),
            final(self).same_but_catalog(&*old(self)),
            final(self).collections@ == old(self).collections@,
            r is Err ==> final(self).entries@ == old(self).entries@,
            match old(self).collection_of(collection_id.0@) {
                None => r matches Err(LibraryError::NotFound(s)) && s@ == collection_id.0@,
                Some(c) => match c.config {
                    CollectionConfig::Folder { .. } => r matches Err(
                        LibraryError::WrongCollectionType { expected, got },
                    ) && expected@ == "playlist"@ && got@ == "folder"@,
                    CollectionConfig::Playlist { sortable } => {
                        let members = old(self).entries@.filter(
                            |e: CollectionTrack| entry_in(e, collection_id.0@),
                        );
                        let order = track_ids@.map_values(|t: crate::types::TrackId| t.0@);
                        let exact = members.len() == track_ids@.len() && forall|k: int|
                            #![trigger track_ids@[k]]
                            0 <= k < track_ids@.len() ==> exists|q: int|
                                0 <= q < members.len() && #[trigger] members[q].track_id.0@ == track_ids@[k].0@;
                        &&& !sortable ==> (r matches Err(LibraryError::Unsupported(m)) && m@
                            == "reorder requires a sortable playlist"@)
                        &&& sortable && !exact ==> is_backend_error(
                            r,
                            "library"@,
                            "update_collection_track must include exactly the playlist membership"@,
                        )
                        &&& sortable && exact ==> r is Ok && final(self).entries@ == reordered(
                            old(self).entries@,
                            collection_id.0@,
                            order,
                        )
                    },
                },
            },
    {
        let playlist = self.require_playlist(collection_id)?;
        let sortable = match playlist.config {
            CollectionConfig::Playlist { sortable } => sortable,
            CollectionConfig::Folder { .. } => false,
        };
        if !sortable {
            proof {
                reveal_strlit("reorder requires a sortable playlist");
            }
            return Err(LibraryError::Unsupported("reorder requires a sortable playlist"));
        }
        let ghost members = old(self).entries@.filter(|e: CollectionTrack| entry_in(e, collection_id.0@));
        let existing = self.playlist_track_ids(collection_id)?;
        let ghost s = choose|s: Seq<CollectionTrack>|
            playlist_order(s, self.entries@, collection_id.0@) && existing@ == s.map_values(
                |e: CollectionTrack| e.track_id,
            );
        proof {
            vstd::seq_lib::to_multiset_len(s);
            vstd::seq_lib::to_multiset_len(members);
        }
        let mut exact = existing.len() == track_ids.len();
        let mut k: usize = 0;
        while exact && k < track_ids.len()
            invariant
                k <= track_ids@.len(),
                exact ==> existing@.len() == track_ids@.len(),
                exact ==> forall|k2: int|
                    #![trigger track_ids@[k2]]
                    0 <= k2 < k ==> exists|q: int|
                        0 <= q < members.len() && #[trigger] members[q].track_id.0@ == track_ids@[k2].0@,
                !exact ==> !(members.len() == track_ids@.len() && forall|k2: int|
                    #![trigger track_ids@[k2]]
                    0 <= k2 < track_ids@.len() ==> exists|q: int|
                        0 <= q < members.len() && #[trigger] members[q].track_id.0@ == track_ids@[k2].0@),
                existing@ == s.map_values(|e: CollectionTrack| e.track_id),
                s.to_multiset() == members.to_multiset(),
                s.len() == members.len(),
            decreases track_ids.len() - k,
        {
            let want = chars_of(track_ids[k].0.as_str());
            let mut found = false;
            let mut q: usize = 0;
            while q < existing.len()
                invariant
                    q <= existing@.len(),
                    want@ == track_ids@[k as int].0@,
                    found ==> exists|q2: int| 0 <= q2 < s.len() && #[trigger] s[q2].track_id.0@ == want@,
                    !found ==> forall|q2: int| 0 <= q2 < q ==> (#[trigger] s[q2]).track_id.0@ != want@,
                    existing@ == s.map_values(|e: CollectionTrack| e.track_id),
                decreases existing.len() - q,
            {
                let have = chars_of(existing[q].0.as_str());
                if chars_eq(have.as_slice(), want.as_slice()) {
                    found = true;
                }
                q = q + 1;
            }
            proof {
                if found {
                    let q2 = choose|q2: int| 0 <= q2 < s.len() && #[trigger] s[q2].track_id.0@ == want@;
                    assert(s.contains(s[q2]));
                    vstd::seq_lib::to_multiset_contains(s, s[q2]);
                    vstd::seq_lib::to_multiset_contains(members, s[q2]);
                    let q3 = choose|q3: int| 0 <= q3 < members.len() && members[q3] == s[q2];
                    assert(members[q3].track_id.0@ == track_ids@[k as int].0@);
                } else {
                    assert forall|q3: int| 0 <= q3 < members.len() implies #[trigger] members[q3].track_id.0@
                        != track_ids@[k as int].0@ by {
                        assert(members.contains(members[q3]));
                        vstd::seq_lib::to_multiset_contains(members, members[q3]);
                        vstd::seq_lib::to_multiset_contains(s, members[q3]);
                    }
                }
            }
            if !found {
                exact = false;
            }
            k = k + 1;
        }
        if !exact {
            return Err(
                LibraryError::Backend {
                    backend: "library",
                    message: owned("update_collection_track must include exactly the playlist membership"),
                },
            );
        }
        let ghost order = track_ids@.map_values(|t: crate::types::TrackId| t.0@);
        let cs = chars_of(collection_id.0.as_str());
        let n = self.entries.len();
        let mut p: usize = 0;
        assert(old(self).entries@ =~= reordered(old(self).entries@, collection_id.0@, order.take(0)));
        while p < track_ids.len()
            invariant
                p <= track_ids@.len(),
                n == self.entries@.len(),
                n == old(self).entries@.len(),
                cs@ == collection_id.0@,
                order == track_ids@.map_values(|t: crate::types::TrackId| t.0@),
                self.entries@ == reordered(old(self).entries@, collection_id.0@, order.take(p as int)),
                self.collections@ == old(self).collections@,
                self.same_but_catalog(&*old(self)),
            decreases track_ids.len() - p,
        {
            let want = chars_of(track_ids[p].0.as_str());
            let ghost before = self.entries@;
            let mut i: usize = 0;
            while i < n
                invariant
                    i <= n,
                    n == self.entries@.len(),
                    n == before.len(),
                    p < track_ids@.len(),
                    cs@ == collection_id.0@,
                    want@ == order[p as int],
                    forall|j: int|
                        0 <= j < i ==> self.entries@[j] == (if entry_for(before[j], collection_id.0@, want@) {
                            at_position(before[j], Some(p as i32))
                        } else {
                            before[j]
                        }),
                    forall|j: int| i <= j < n ==> self.entries@[j] == before[j],
                    self.collections@ == old(self).collections@,
                    self.same_but_catalog(&*old(self)),
                decreases n - i,
            {
                let ec = chars_of(self.entries[i].collection_id.0.as_str());
                let et = chars_of(self.entries[i].track_id.0.as_str());
                if chars_eq(ec.as_slice(), cs.as_slice()) && chars_eq(et.as_slice(), want.as_slice()) {
                    let mut e = self.entries.remove(i);
                    e.position = Some(#[verifier::truncate] (p as i32));
                    self.entries.insert(i, e);
                }
                i = i + 1;
            }
            proof {
                assert(order.take(p + 1).drop_last() =~= order.take(p as int));
                assert(self.entries@ =~= reordered(old(self).entries@, collection_id.0@, order.take(p + 1)));
            }
            p = p + 1;
        }
        assert(order.take(track_ids@.len() as int) =~= order);
        Ok(())
    }
}

/// A stored track row turns into a source (its type, and a stream's provider,
/// are known).
pub open spec fn row_convertible(row: TrackRow) -> bool {
    row.source_type@ == "file"@ || (row.source_type@ == "stream"@ && !unknown_provider(row))
}

/// A track stored as a file reads back as that file, at its path and with
/// its metadata.
pub proof fn law_file_row_reads_back(row: TrackRow, s: AudioSource)
    requires
        row.source_type@ == "file"@,
        row_source_ok(row, s),
    ensures
        row_convertible(row),
        s matches AudioSource::File(f) && f.id.0 == row.id && f.path == row.source_ref && f.metadata
            == row.metadata,
{
}

/// Pads naming track `t` no longer name it.
pub open spec fn pad_unlinked(p: Option<SamplerSlotRecord>, t: Seq<char>) -> Option<SamplerSlotRecord> {
    match p {
        Some(rec) => if rec.track_id matches Some(x) && x@ == t {
            Some(SamplerSlotRecord { slot_index: rec.slot_index, track_id: None, path: rec.path, label: rec.label })
        } else {
            p
        },
        None => None,
    }
}

/// The banks after track `t` left the pool.
pub open spec fn banks_unlinked(bs: Seq<BankEntry>, t: Seq<char>) -> Seq<(SamplerBankRecord, Seq<Option<SamplerSlotRecord>>)> {
    bs.map_values(|b: BankEntry| (b.record, b.slots@.map_values(|p: Option<SamplerSlotRecord>| pad_unlinked(p, t))))
}

/// Collection `c` is a folder that holds `path`.
pub open spec fn holds(c: Collection, path: Seq<char>) -> bool {
    match c.config {
        CollectionConfig::Folder { fs_path, .. } => path_under_folder_of(path, fs_path@),
        CollectionConfig::Playlist { .. } => false,
    }
}

/// The banks as records and pads.
pub open spec fn banks_view(bs: Seq<BankEntry>) -> Seq<(SamplerBankRecord, Seq<Option<SamplerSlotRecord>>)> {
    bs.map_values(|b: BankEntry| (b.record, b.slots@))
}

impl LibraryManager {
    /// Fetch a single source by id. A stored row of unknown type (or a stream
    /// of unknown provider) is refused.
    pub fn get_track(&self, id: &crate::types::TrackId) -> (r: Result<Option<AudioSource>, LibraryError>)
        ensures
            match self.track_of(id.0@) {
                None => r matches Ok(o) && o is None,
                Some(row) => {
                    &&& row_convertible(row) ==> (r matches Ok(Some(s)) && row_source_ok(row, s))
                    &&& !row_convertible(row) ==> is_backend_error(r, "library"@, row_refusal(row))
                },
            },
    {
        match self.get_track_row(id)? {
            Some(row) => {
                let s = track_source(row)?;
                Ok(Some(s))
            },
            None => Ok(None),
        }
    }

    /// The file whose embedded artwork belongs to track `id`: its path when the
    /// track is a file of the pool, `None` for an unknown track or a stream.
    pub fn track_artwork_path(&self, id: &crate::types::TrackId) -> (r: Result<Option<String>, LibraryError>)
        ensures
            match self.track_of(id.0@) {
                None => r matches Ok(o) && o is None,
                Some(row) => {
                    &&& row.source_type@ == "file"@ ==> (r matches Ok(Some(p)) && p == row.source_ref)
                    &&& row.source_type@ == "stream"@ && !unknown_provider(row) ==> (r matches Ok(o)
                        && o is None)
                    &&& !row_convertible(row) ==> is_backend_error(r, "library"@, row_refusal(row))
                },
            },
    {
        match self.get_track(id)? {
            Some(AudioSource::File(f)) => Ok(Some(f.path)),
            _ => Ok(None),
        }
    }

    /// The file of track `id`: refused for an unknown track, and for a
    /// stream with `stream_refusal`.
    pub open spec fn file_path_answer(&self, t: Seq<char>, stream_refusal: Seq<char>, r: Result<String, LibraryError>) -> bool {
        match self.track_of(t) {
            None => r matches Err(LibraryError::NotFound(s)) && s@ == t,
            Some(row) => {
                &&& row.source_type@ == "file"@ ==> r == Ok::<String, LibraryError>(row.source_ref)
                &&& row.source_type@ == "stream"@ && !unknown_provider(row) ==> (r matches Err(
                    LibraryError::Unsupported(m),
                ) && m@ == stream_refusal)
                &&& !row_convertible(row) ==> is_backend_error(r, "library"@, row_refusal(row))
            },
        }
    }

    fn file_track_path(&self, id: &crate::types::TrackId, stream_refusal: &'static str) -> (r: Result<String, LibraryError>)
        ensures
            self.file_path_answer(id.0@, stream_refusal@, r),
    {
        match self.get_track(id)? {
            None => Err(not_found(id.0.as_str())),
            Some(AudioSource::File(f)) => Ok(f.path),
            Some(AudioSource::Stream(_)) => Err(LibraryError::Unsupported(stream_refusal)),
        }
    }

    /// The file a waveform overview of track `id` is made from: refused for an
    /// unknown track, and for a stream, which has no waveform.
    pub fn waveform_source_path(&self, id: &crate::types::TrackId) -> (r: Result<String, LibraryError>)
        ensures
            self.file_path_answer(id.0@, "stream tracks have no waveform"@, r),
    {
        self.file_track_path(id, "stream tracks have no waveform")
    }

    /// The file track `id` is analyzed from: refused for an unknown track, and
    /// for a stream, whose analysis is not implemented.
    pub fn analysis_source_path(&self, id: &crate::types::TrackId) -> (r: Result<String, LibraryError>)
        ensures
            self.file_path_answer(id.0@, "stream track analysis not implemented"@, r),
    {
        self.file_track_path(id, "stream track analysis not implemented")
    }

    /// A playlist lists track `t`.
    pub open spec fn has_link_to(&self, t: Seq<char>) -> bool {
        exists|i: int| 0 <= i < self.entries@.len() && (#[trigger] self.entries@[i]).track_id.0@ == t
    }

    /// The track is still linked: a playlist lists it, or it is a file under
    /// a folder collection.
    pub open spec fn track_linked(&self, t: Seq<char>) -> bool {
        ||| self.has_link_to(t)
        ||| (self.track_of(t) matches Some(row) && row.source_type@ == "file"@ && self.folder_holds(
            row.source_ref@,
        ))
    }

    /// Some folder collection holds `path`.
    pub open spec fn folder_holds(&self, path: Seq<char>) -> bool {
        exists|i: int| 0 <= i < self.collections@.len() && holds(#[trigger] self.collections@[i], path)
    }

    fn has_links(&self, t: &str) -> (b: bool)
        ensures
            b == self.has_link_to(t@),
    {
        let ts = chars_of(t);
        let mut i: usize = 0;
        while i < self.entries.len()
            invariant
                i <= self.entries@.len(),
                ts@ == t@,
                forall|j: int| 0 <= j < i ==> (#[trigger] self.entries@[j]).track_id.0@ != t@,
            decreases self.entries.len() - i,
        {
            let et = chars_of(self.entries[i].track_id.0.as_str());
            if chars_eq(et.as_slice(), ts.as_slice()) {
                return true;
            }
            i = i + 1;
        }
        false
    }

    fn under_some_folder(&self, path: &str) -> (b: bool)
        ensures
            b == self.folder_holds(path@),
    {
        let mut i: usize = 0;
        while i < self.collections.len()
            invariant
                i <= self.collections@.len(),
                forall|j: int| 0 <= j < i ==> !holds(#[trigger] self.collections@[j], path@),
            decreases self.collections.len() - i,
        {
            match &self.collections[i].config {
                CollectionConfig::Folder { fs_path, .. } => {
                    if path_under_folder(path, fs_path.as_str()) {
                        return true;
                    }
                },
                CollectionConfig::Playlist { .. } => {},
            }
            i = i + 1;
        }
        false
    }

    /// Drop track `t` from the pool; pads that named it keep their path and
    /// label only.
    fn delete_track(&mut self, t: &str)
        requires
            old(self).wf(),
        ensures
            final(self).wf(),
            final(self).tracks@ == old(self).tracks@.filter(|row: TrackRow| row.id@ != t@),
            banks_view(final(self).banks@) == banks_unlinked(old(self).banks@, t@),
            final(self).config == old(self).config,
            final(self).collections@ == old(self).collections@,
            final(self).entries@ == old(self).entries@,
            final(self).decks@ == old(self).decks@,
    {
        let ts = chars_of(t);
        let mut kept: Vec<TrackRow> = Vec::new();
        let mut i: usize = 0;
        let n = self.tracks.len();
        while i < n
            invariant
                ts@ == t@,
                i <= n,
                n == old(self).tracks@.len(),
                self.tracks@.len() == n - i,
                self.tracks@ == old(self).tracks@.skip(i as int),
                kept@ == old(self).tracks@.take(i as int).filter(|row: TrackRow| row.id@ != t@),
                self.banks@ == old(self).banks@,
                self.config == old(self).config,
                self.collections@ == old(self).collections@,
                self.entries@ == old(self).entries@,
                self.decks@ == old(self).decks@,
            decreases self.tracks@.len(),
        {
            let row = self.tracks.remove(0);
            proof {
                reveal(Seq::filter);
                assert(old(self).tracks@.take(i + 1).drop_last() =~= old(self).tracks@.take(i as int));
                assert(old(self).tracks@[i as int] == row);
                assert(self.tracks@ =~= old(self).tracks@.skip(i + 1));
            }
            let rid = chars_of(row.id.as_str());
            if !chars_eq(rid.as_slice(), ts.as_slice()) {
                kept.push(row);
            }
            i = i + 1;
        }
        assert(old(self).tracks@.take(i as int) =~= old(self).tracks@);
        self.tracks = kept;
        let nb = self.banks.len();
        let mut b: usize = 0;
        while b < nb
            invariant
                b <= nb,
                nb == self.banks@.len(),
                nb == old(self).banks@.len(),
                ts@ == t@,
                forall|j: int| 0 <= j < b ==> (#[trigger] banks_view(self.banks@)[j]) == banks_unlinked(old(self).banks@, t@)[j],
                forall|j: int| b <= j < nb ==> self.banks@[j] == old(self).banks@[j],
                forall|j: int| 0 <= j < nb ==> pads_wf(#[trigger] self.banks@[j].slots@),
                forall|j: int| 0 <= j < nb ==> (#[trigger] self.banks@[j]).record == old(self).banks@[j].record,
                forall|i2: int, j2: int|
                    0 <= i2 < j2 < self.banks@.len() ==> #[trigger] self.banks@[i2].record.id@
                        != #[trigger] self.banks@[j2].record.id@,
                forall|j: int| 0 <= j < self.decks@.len() ==> cues_wf(#[trigger] self.decks@[j].hot_cues@) && loops_wf(self.decks@[j].loops@),
                self.tracks@ == old(self).tracks@.filter(|row: TrackRow| row.id@ != t@),
                self.config == old(self).config,
                self.collections@ == old(self).collections@,
                self.entries@ == old(self).entries@,
                self.decks@ == old(self).decks@,
            decreases nb - b,
        {
            let ghost before = self.banks@;
            let mut entry = self.banks.remove(b);
            let ghost pads0 = entry.slots@;
            assert(pads0 == old(self).banks@[b as int].slots@);
            let ghost rec0 = entry.record;
            let mut s: usize = 0;
            while s < entry.slots.len()
                invariant
                    s <= entry.slots@.len(),
                    entry.slots@.len() == pads0.len(),
                    entry.record == rec0,
                    ts@ == t@,
                    forall|q: int| 0 <= q < s ==> entry.slots@[q] == pad_unlinked(pads0[q], t@),
                    forall|q: int| s <= q < entry.slots@.len() ==> entry.slots@[q] == pads0[q],
                decreases entry.slots.len() - s,
            {
                let replacement = match &entry.slots[s] {
                    Some(rec) => match &rec.track_id {
                        Some(x) => {
                            let xs = chars_of(x.as_str());
                            if chars_eq(xs.as_slice(), ts.as_slice()) {
                                Some(
                                    SamplerSlotRecord {
                                        slot_index: rec.slot_index,
                                        track_id: None,
                                        path: copy_opt_string(&rec.path),
                                        label: copy_opt_string(&rec.label),
                                    },
                                )
                            } else {
                                None
                            }
                        },
                        None => None,
                    },
                    None => None,
                };
                match replacement {
                    Some(nr) => {
                        entry.slots.set(s, Some(nr));
                    },
                    None => {},
                }
                s = s + 1;
            }
            assert(entry.slots@ =~= pads0.map_values(|p: Option<SamplerSlotRecord>| pad_unlinked(p, t@)));
            assert(pads_wf(pads0));
            assert(pads_wf(entry.slots@));
            let ghost after = entry;
            self.banks.insert(b, entry);
            proof {
                assert(self.banks@ =~= before.update(b as int, after));
                assert(after.record == rec0);
                assert(banks_unlinked(old(self).banks@, t@)[b as int].1 =~= after.slots@);
                assert(banks_view(self.banks@)[b as int] == banks_unlinked(old(self).banks@, t@)[b as int]);
                assert forall|j: int| 0 <= j < b + 1 implies (#[trigger] banks_view(self.banks@)[j]) == banks_unlinked(
                    old(self).banks@,
                    t@,
                )[j] by {
                    if j < b {
                        assert(self.banks@[j] == before[j]);
                        assert(banks_view(self.banks@)[j] == banks_view(before)[j]);
                    }
                }
            }
            b = b + 1;
        }
        assert(banks_view(self.banks@) =~= banks_unlinked(old(self).banks@, t@));
    }
}

impl LibraryManager {
    /// Take a track out of a playlist. When nothing else links the track (no
    /// playlist lists it and no folder holds its file) it leaves the pool.
    /// Refused for an unknown playlist, a folder, or a track the playlist does
    /// not hold.
    #[verifier::spinoff_prover]
    pub fn remove_collection_track(
        &mut self,
        collection_id: &CollectionId,
        track_id: &crate::types::TrackId,
    ) -> (r: Result<(), LibraryError>)
        requires
            old(self).wf(),
            old(self).catalog_wf(),
        ensures
            final(self).wf(),
            final(self).catalog_wf(),
            final(self).config == old(self).config,
            final(self).collections@ == old(self).collections@,
            final(self).decks@ == old(self).decks@,
            match old(self).collection_of(collection_id.0@) {
                None => (r matches Err(LibraryError::NotFound(s)) && s@ == collection_id.0@)
                    && final(self).entries@ == old(self).entries@ && final(self).tracks@ == old(self).tracks@
                    && final(self).banks@ == old(self).banks@,
                Some(c) => match c.config {
                    CollectionConfig::Folder { .. } => (r matches Err(
                        LibraryError::WrongCollectionType { expected, got },
                    ) && expected@ == "playlist"@ && got@ == "folder"@) && final(self).entries@ == old(
                        self,
                    ).entries@ && final(self).tracks@ == old(self).tracks@ && final(self).banks@ == old(
                        self,
                    ).banks@,
                    CollectionConfig::Playlist { .. } => {
                        &&& find_entry(old(self).entries@, collection_id.0@, track_id.0@, 0) < 0 ==> (r matches Err(
                            LibraryError::NotFound(s),
                        ) && s@ == collection_id.0@ + "/"@ + track_id.0@) && final(self).entries@ == old(
                            self,
                        ).entries@ && final(self).tracks@ == old(self).tracks@ && final(self).banks@ == old(
                            self,
                        ).banks@
                        &&& find_entry(old(self).entries@, collection_id.0@, track_id.0@, 0) >= 0 ==> {
                            &&& final(self).entries@ == old(self).entries@.filter(
                                |e: CollectionTrack| !entry_for(e, collection_id.0@, track_id.0@),
                            )
                            &&& (final(self).track_linked(track_id.0@) || old(self).track_of(track_id.0@)
                                is None) ==> r is Ok && final(self).tracks@ == old(self).tracks@
                                && final(self).banks@ == old(self).banks@
                            &&& (old(self).track_of(track_id.0@) matches Some(row) && !row_convertible(row)
                                && !final(self).has_link_to(track_id.0@)) ==> (r matches Err(
                                LibraryError::Backend { backend, .. },
                            ) && backend@ == "library"@) && final(self).tracks@ == old(self).tracks@
                                && final(self).banks@ == old(self).banks@
                            &&& (old(self).track_of(track_id.0@) matches Some(row) && row_convertible(row)
                                && !final(self).track_linked(track_id.0@)) ==> r is Ok && final(self).tracks@
                                == old(self).tracks@.filter(|tr: TrackRow| tr.id@ != track_id.0@)
                                && banks_view(final(self).banks@) == banks_unlinked(old(self).banks@, track_id.0@)
                        }
                    },
                },
            },
    {
        let _ = self.require_playlist(collection_id)?;
        if self.entry_position(collection_id.0.as_str(), track_id.0.as_str()).is_none() {
            let mut m = owned(collection_id.0.as_str());
            push_str(&mut m, "/");
            push_str(&mut m, track_id.0.as_str());
            proof {
                reveal_strlit("/");
            }
            return Err(LibraryError::NotFound(m));
        }
        let cs = chars_of(collection_id.0.as_str());
        let ts = chars_of(track_id.0.as_str());
        let mut kept: Vec<CollectionTrack> = Vec::new();
        let mut i: usize = 0;
        while i < self.entries.len()
            invariant
                i <= self.entries@.len(),
                cs@ == collection_id.0@,
                ts@ == track_id.0@,
                self.entries@ == old(self).entries@,
                kept@ == self.entries@.take(i as int).filter(
                    |e: CollectionTrack| !entry_for(e, collection_id.0@, track_id.0@),
                ),
            decreases self.entries.len() - i,
        {
            let ec = chars_of(self.entries[i].collection_id.0.as_str());
            let et = chars_of(self.entries[i].track_id.0.as_str());
            proof {
                reveal(Seq::filter);
                assert(self.entries@.take(i + 1).drop_last() =~= self.entries@.take(i as int));
            }
            if !(chars_eq(ec.as_slice(), cs.as_slice()) && chars_eq(et.as_slice(), ts.as_slice())) {
                kept.push(copy_entry(&self.entries[i]));
            }
            i = i + 1;
        }
        assert(self.entries@.take(self.entries@.len() as int) =~= self.entries@);
        self.entries = kept;
        if self.has_links(track_id.0.as_str()) {
            return Ok(());
        }
        let source = match self.get_track(track_id)? {
            Some(s) => s,
            None => {
                return Ok(());
            },
        };
        match source.file() {
            Some(f) => {
                if self.under_some_folder(f.path()) {
                    return Ok(());
                }
            },
            None => {},
        }
        self.delete_track(track_id.0.as_str());
        proof {
            let ids = crate::manager::track_ids(self.tracks@);
            lemma_find_id(ids, track_id.0@, 0);
            let k = find_id(ids, track_id.0@, 0);
            if k >= 0 {
                let pred = |tr: crate::manager::TrackRow| tr.id@ != track_id.0@;
                old(self).tracks@.lemma_filter_pred(pred, k);
            }
        }
        Ok(())
    }
}

/// A copy of a stored track row.
pub fn copy_row(row: &TrackRow) -> (r: TrackRow)
    ensures
        r == *row,
{
    TrackRow {
        id: row.id.clone(),
        source_type: row.source_type.clone(),
        source_ref: row.source_ref.clone(),
        provider: copy_opt_string(&row.provider),
        metadata: row.metadata.clone(),
        last_sampler_bank_id: copy_opt_string(&row.last_sampler_bank_id),
    }
}

/// A file track whose stored path is the folder root or lies below it (the
/// below-test ignores ASCII case, as the database's `LIKE` does).
pub open spec fn file_under_root(row: TrackRow, root: Seq<char>) -> bool {
    &&& row.source_type@ == "file"@
    &&& (row.source_ref@ == root || (row.source_ref@.len() >= root.len() + 1 && eq_ignore_case(
        row.source_ref@.take(root.len() + 1int),
        root.push('/'),
    )))
}

/// `s` lists the rows of `rows` that lie under `root`, by stored path.
pub open spec fn folder_order(s: Seq<TrackRow>, rows: Seq<TrackRow>, root: Seq<char>) -> bool {
    &&& s.to_multiset() == rows.filter(|row: TrackRow| file_under_root(row, root)).to_multiset()
    &&& forall|i: int, j: int|
        0 <= i < j < s.len() ==> !chars_lt(#[trigger] s[j].source_ref@, #[trigger] s[i].source_ref@)
}

/// The sources of `rows`, one for one.
pub open spec fn sources_of(rows: Seq<TrackRow>, v: Seq<AudioSource>) -> bool {
    v.len() == rows.len() && forall|k: int| 0 <= k < rows.len() ==> row_source_ok(#[trigger] rows[k], v[k])
}

/// Collection `a` is listed before `b`: by name.
pub open spec fn named_before(a: Collection, b: Collection) -> bool {
    chars_lt(a.name@, b.name@)
}

impl LibraryManager {
    /// Whether a track id is in the pool.
    pub open spec fn in_pool(&self) -> spec_fn(Seq<char>) -> bool {
        |t: Seq<char>| self.track_pos(t) >= 0
    }

    /// The stored row of a track id in the pool.
    pub open spec fn row_for(&self) -> spec_fn(Seq<char>) -> TrackRow {
        |t: Seq<char>| self.track_of(t)->0
    }

    /// `r` is what listing the tracks `ids` gives: their sources when every
    /// row in the pool converts, else a library error.
    pub open spec fn playlist_sources(&self, ids: Seq<Seq<char>>, r: Result<Vec<AudioSource>, LibraryError>) -> bool {
        let rows = self.present_rows(ids);
        &&& (forall|k: int| 0 <= k < rows.len() ==> row_convertible(#[trigger] rows[k])) ==> (r matches Ok(v)
            && sources_of(rows, v@))
        &&& (exists|k: int| 0 <= k < rows.len() && !row_convertible(#[trigger] rows[k])) ==> (r matches Err(
            LibraryError::Backend { backend, .. },
        ) && backend@ == "library"@)
    }

    /// Rows of the tracks named by `ids` that are in the pool, in order.
    pub open spec fn present_rows(&self, ids: Seq<Seq<char>>) -> Seq<TrackRow> {
        ids.filter(self.in_pool()).map_values(self.row_for())
    }

    fn root_match(row: &TrackRow, root: &[char]) -> (b: bool)
        ensures
            b == file_under_root(*row, root@),
    {
        let st = chars_of(row.source_type.as_str());
        let file = vec!['f', 'i', 'l', 'e'];
        proof {
            reveal_strlit("file");
            assert(file@ =~= "file"@);
        }
        if !chars_eq(st.as_slice(), file.as_slice()) {
            return false;
        }
        let r = chars_of(row.source_ref.as_str());
        if chars_eq(r.as_slice(), root) {
            return true;
        }
        if r.len() <= root.len() {
            return false;
        }
        let mut pre: Vec<char> = Vec::new();
        let mut i: usize = 0;
        let rl = r.len();
        while i <= root.len()
            invariant
                i <= root@.len() + 1,
                rl == r@.len(),
                root@.len() < rl,
                pre@ == r@.take(i as int),
            decreases root.len() + 1 - i,
        {
            pre.push(r[i]);
            assert(r@.take(i + 1) =~= r@.take(i as int).push(r@[i as int]));
            i = i + 1;
        }
        let mut want: Vec<char> = Vec::new();
        let mut j: usize = 0;
        assert(r@.take(i as int).len() == root@.len() + 1);
        while j < root.len()
            invariant
                j <= root@.len(),
                want@ == root@.take(j as int),
            decreases root.len() - j,
        {
            want.push(root[j]);
            assert(root@.take(j + 1) =~= root@.take(j as int).push(root@[j as int]));
            j = j + 1;
        }
        want.push('/');
        assert(want@ =~= root@.push('/'));
        let a = lower_chars(pre.as_slice());
        let b = lower_chars(want.as_slice());
        chars_eq(a.as_slice(), b.as_slice())
    }

    /// File tracks under `root`, by stored path.
    #[verifier::spinoff_prover]
    pub fn file_rows_under(&self, root: &str) -> (r: Vec<TrackRow>)
        ensures
            folder_order(r@, self.tracks@, root@),
    {
        let rc = chars_of(root);
        let ghost pred = |row: TrackRow| file_under_root(row, root@);
        let mut out: Vec<TrackRow> = Vec::new();
        let mut i: usize = 0;
        assert(self.tracks@.take(0).filter(pred) =~= out@) by {
            reveal(Seq::filter);
        }
        while i < self.tracks.len()
            invariant
                i <= self.tracks@.len(),
                rc@ == root@,
                pred == (|row: TrackRow| file_under_root(row, root@)),
                out@.to_multiset() == self.tracks@.take(i as int).filter(pred).to_multiset(),
                forall|a: int, b: int|
                    0 <= a < b < out@.len() ==> !chars_lt(#[trigger] out@[b].source_ref@, #[trigger] out@[a].source_ref@),
            decreases self.tracks.len() - i,
        {
            proof {
                reveal(Seq::filter);
                assert(self.tracks@.take(i + 1).drop_last() =~= self.tracks@.take(i as int));
            }
            if Self::root_match(&self.tracks[i], rc.as_slice()) {
                let x = copy_row(&self.tracks[i]);
                let xr = chars_of(x.source_ref.as_str());
                let mut p: usize = 0;
                while p < out.len()
                    invariant
                        p <= out@.len(),
                        xr@ == x.source_ref@,
                        forall|q: int| 0 <= q < p ==> !chars_lt(x.source_ref@, #[trigger] out@[q].source_ref@),
                    ensures
                        p <= out@.len(),
                        forall|q: int| 0 <= q < p ==> !chars_lt(x.source_ref@, #[trigger] out@[q].source_ref@),
                        p < out@.len() ==> chars_lt(x.source_ref@, out@[p as int].source_ref@),
                    decreases out.len() - p,
                {
                    let yr = chars_of(out[p].source_ref.as_str());
                    if chars_less(xr.as_slice(), yr.as_slice()) {
                        break;
                    }
                    p = p + 1;
                }
                let ghost before = out@;
                proof {
                    assert forall|a: int, b: int|
                        0 <= a < b < before.len() + 1 implies !chars_lt(
                        #[trigger] before.insert(p as int, x)[b].source_ref@,
                        #[trigger] before.insert(p as int, x)[a].source_ref@,
                    ) by {
                        let n = before.insert(p as int, x);
                        if a < p && b == p {
                            assert(n[a] == before[a] && n[b] == x);
                        } else if a == p && b > p {
                            assert(n[a] == x && n[b] == before[b - 1]);
                            crate::text::lemma_chars_lt_order(
                                before[b - 1].source_ref@,
                                before[p as int].source_ref@,
                                x.source_ref@,
                            );
                            crate::text::lemma_chars_lt_order(
                                x.source_ref@,
                                before[p as int].source_ref@,
                                before[b - 1].source_ref@,
                            );
                            crate::text::lemma_chars_lt_order(
                                before[p as int].source_ref@,
                                before[b - 1].source_ref@,
                                x.source_ref@,
                            );
                            if b - 1 > p {
                                assert(!chars_lt(before[b - 1].source_ref@, before[p as int].source_ref@));
                            }
                        } else if a < p && b < p {
                            assert(n[a] == before[a] && n[b] == before[b]);
                        } else if a < p && b > p {
                            assert(n[a] == before[a] && n[b] == before[b - 1]);
                        } else {
                            assert(n[a] == before[a - 1] && n[b] == before[b - 1]);
                        }
                    }
                }
                let ghost xg = x;
                out.insert(p, x);
                proof {
                    let prev = self.tracks@.take(i as int).filter(pred);
                    assert(self.tracks@.take(i + 1).filter(pred) == prev.push(xg));
                    assert(out@ == before.insert(p as int, xg));
                    to_multiset_insert(before, p as int, xg);
                    to_multiset_build(prev, xg);
                }
            } else {
                proof {
                    assert(self.tracks@.take(i + 1).filter(pred) == self.tracks@.take(i as int).filter(pred));
                }
            }
            i = i + 1;
        }
        assert(self.tracks@.take(self.tracks@.len() as int) =~= self.tracks@);
        out
    }

    /// Sources of the file tracks stored under `root`, by path.
    fn folder_sources(&self, root: &str) -> (v: Vec<AudioSource>)
        ensures
            exists|s: Seq<TrackRow>| folder_order(s, self.tracks@, root@) && sources_of(s, v@),
    {
        let rows = self.file_rows_under(root);
        let mut out: Vec<AudioSource> = Vec::new();
        let mut i: usize = 0;
        while i < rows.len()
            invariant
                i <= rows@.len(),
                folder_order(rows@, self.tracks@, root@),
                out@.len() == i,
                forall|k: int| 0 <= k < i ==> row_source_ok(#[trigger] rows@[k], out@[k]),
            decreases rows.len() - i,
        {
            let row = copy_row(&rows[i]);
            assert(file_under_root(rows@[i as int], root@)) by {
                let pred = |row: TrackRow| file_under_root(row, root@);
                assert(rows@.to_multiset().contains(rows@[i as int])) by {
                    vstd::seq_lib::to_multiset_contains(rows@, rows@[i as int]);
                }
                vstd::seq_lib::to_multiset_contains(self.tracks@.filter(pred), rows@[i as int]);
                let k = choose|k: int|
                    0 <= k < self.tracks@.filter(pred).len() && self.tracks@.filter(pred)[k] == rows@[i as int];
                self.tracks@.lemma_filter_pred(pred, k);
            }
            let s = match track_source(row) {
                Ok(s) => s,
                Err(_) => {
                    assert(false);
                    return out;
                },
            };
            out.push(s);
            i = i + 1;
        }
        assert(folder_order(rows@, self.tracks@, root@) && sources_of(rows@, out@));
        assert(exists|s2: Seq<TrackRow>| folder_order(s2, self.tracks@, root@) && sources_of(s2, out@));
        out
    }

    /// Sources of the tracks of playlist `collection_id` that are in the pool,
    /// in display order.
    fn playlist_sources_for(&self, collection_id: &CollectionId) -> (r: Result<Vec<AudioSource>, LibraryError>)
        ensures
            exists|s: Seq<CollectionTrack>|
                #![trigger playlist_order(s, self.entries@, collection_id.0@)]
                playlist_order(s, self.entries@, collection_id.0@) && self.playlist_sources(
                    entry_track_ids(s),
                    r,
                ),
    {
        let ids = match self.playlist_track_ids(collection_id) {
            Ok(v) => v,
            Err(e) => {
                return Err(e);
            },
        };
        let ghost s = choose|s: Seq<CollectionTrack>|
            playlist_order(s, self.entries@, collection_id.0@) && ids@ == s.map_values(
                |e: CollectionTrack| e.track_id,
            );
        let ghost idv = entry_track_ids(s);
        let ghost keep = self.in_pool();
        let ghost rows = self.present_rows(idv);
        let mut out: Vec<AudioSource> = Vec::new();
        let mut i: usize = 0;
        assert(idv.take(0).filter(keep) =~= seq![]) by {
            reveal(Seq::filter);
        }
        while i < ids.len()
            invariant
                i <= ids@.len(),
                ids@ == s.map_values(|e: CollectionTrack| e.track_id),
                idv == entry_track_ids(s),
                keep == self.in_pool(),
                rows == self.present_rows(idv),
                playlist_order(s, self.entries@, collection_id.0@),
                out@.len() == idv.take(i as int).filter(keep).len(),
                forall|k: int|
                    0 <= k < out@.len() ==> row_source_ok(
                        #[trigger] idv.take(i as int).filter(keep).map_values(self.row_for())[k],
                        out@[k],
                    ),
                forall|k: int|
                    0 <= k < idv.take(i as int).filter(keep).len() ==> row_convertible(
                        self.track_of(#[trigger] idv.take(i as int).filter(keep)[k])->0,
                    ),
            decreases ids.len() - i,
        {
            proof {
                reveal(Seq::filter);
                assert(idv.take(i + 1).drop_last() =~= idv.take(i as int));
                assert(idv[i as int] == ids@[i as int].0@);
            }
            match self.get_track(&ids[i]) {
                Ok(Some(src)) => {
                    proof {
                        let prev = idv.take(i as int).filter(keep);
                        assert(idv.take(i + 1).filter(keep) == prev.push(idv[i as int]));
                        assert(prev.push(idv[i as int]).map_values(self.row_for()) =~= prev.map_values(
                            self.row_for(),
                        ).push(self.track_of(idv[i as int])->0));
                    }
                    out.push(src);
                },
                Ok(None) => {
                    proof {
                        assert(idv.take(i + 1).filter(keep) == idv.take(i as int).filter(keep));
                    }
                },
                Err(e) => {
                    proof {
                        let prev = idv.take(i as int).filter(keep);
                        assert(idv.take(i + 1).filter(keep) == prev.push(idv[i as int]));
                        assert(idv.take(i + 1).is_prefix_of(idv));
                        idv.take(i + 1).lemma_filter_monotone(idv, keep);
                        let k0 = prev.len() as int;
                        assert(k0 < idv.filter(keep).len());
                        assert(idv.filter(keep)[k0] == idv.take(i + 1).filter(keep)[k0]);
                        assert(idv.filter(keep)[k0] == idv[i as int]);
                        assert(rows[k0] == (self.row_for())(idv.filter(keep)[k0]));
                        assert(rows[k0] == self.track_of(idv[i as int])->0);
                        assert(!row_convertible(rows[k0]));
                        assert(playlist_order(s, self.entries@, collection_id.0@));
                        assert(entry_track_ids(s) == idv);
                    }
                    let res: Result<Vec<AudioSource>, LibraryError> = Err(e);
                    assert(self.playlist_sources(idv, res));
                    return res;
                },
            }
            i = i + 1;
        }
        proof {
            assert(idv.take(ids@.len() as int) =~= idv);
            assert(idv.len() == ids@.len());
            assert(sources_of(rows, out@));
            assert(forall|k: int| 0 <= k < rows.len() ==> row_convertible(#[trigger] rows[k]));
            assert(playlist_order(s, self.entries@, collection_id.0@));
            assert(entry_track_ids(s) == idv);
        }
        let res: Result<Vec<AudioSource>, LibraryError> = Ok(out);
        assert(self.playlist_sources(idv, res));
        assert(exists|s2: Seq<CollectionTrack>|
            #![trigger playlist_order(s2, self.entries@, collection_id.0@)]
            playlist_order(s2, self.entries@, collection_id.0@) && self.playlist_sources(
                entry_track_ids(s2),
                res,
            ));
        res
    }

    /// Sources in a collection: a folder lists the file tracks stored under
    /// its path, by path; a playlist lists its tracks that are in the pool,
    /// in display order. Refused for an unknown collection, or when a listed
    /// track's stored row names an unknown type or provider.
    pub fn get_collection_tracks(&self, collection_id: &CollectionId) -> (r: Result<Vec<AudioSource>, LibraryError>)
        ensures
            match self.collection_of(collection_id.0@) {
                None => r matches Err(LibraryError::NotFound(s)) && s@ == collection_id.0@,
                Some(c) => match c.config {
                    CollectionConfig::Folder { fs_path, .. } => r is Ok && exists|s: Seq<TrackRow>|
                        folder_order(s, self.tracks@, fs_path@) && sources_of(s, r->Ok_0@),
                    CollectionConfig::Playlist { .. } => exists|s: Seq<CollectionTrack>|
                        #![trigger playlist_order(s, self.entries@, collection_id.0@)]
                        playlist_order(s, self.entries@, collection_id.0@) && self.playlist_sources(
                            entry_track_ids(s),
                            r,
                        ),
                },
            },
    {
        let c = match self.require_collection(collection_id) {
            Ok(c) => c,
            Err(e) => {
                return Err(e);
            },
        };
        let ghost c0 = c;
        match c.config {
            CollectionConfig::Folder { fs_path, .. } => {
                assert(c0.config matches CollectionConfig::Folder { fs_path: p0, .. } && p0 == fs_path);
                let v = self.folder_sources(fs_path.as_str());
                let ghost w = choose|s: Seq<TrackRow>| folder_order(s, self.tracks@, fs_path@) && sources_of(s, v@);
                let r2: Result<Vec<AudioSource>, LibraryError> = Ok(v);
                assert(folder_order(w, self.tracks@, fs_path@) && sources_of(w, r2->Ok_0@));
                r2
            },
            CollectionConfig::Playlist { .. } => self.playlist_sources_for(collection_id),
        }
    }
}

/// Track id of a stream: `stream:`, the provider's name and `:` when there
/// is one, then the URI.
pub open spec fn stream_id_of(uri: Seq<char>, provider: Option<StreamProvider>) -> Seq<char> {
    match provider {
        Some(p) => "stream:"@ + provider_wire(p) + ":"@ + uri,
        None => "stream:"@ + uri,
    }
}

impl LibraryManager {
    /// Insert or refresh a file track (its id is its path, which the caller
    /// has made absolute) and return its source.
    pub fn upsert_file_source(&mut self, path: &str, metadata: &TrackMetadata) -> (r: Result<
        AudioSource,
        LibraryError,
    >)
        requires
            old(self).wf(),
        ensures
            final(self).wf(),
            final(self).same_but_tracks(&*old(self)),
            final(self).track_of(path@) matches Some(row) && row.source_type@ == "file"@ && row.source_ref@
                == path@ && row.provider is None && row.metadata == *metadata,
            forall|t: Seq<char>| #![auto] t != path@ ==> final(self).track_of(t) == old(self).track_of(t),
            r matches Ok(AudioSource::File(f)) && f.id.0@ == path@ && f.path@ == path@ && f.metadata == *metadata,
    {
        let id = crate::types::TrackId::new(path);
        let _ = self.upsert_file_track(&id, path, metadata);
        Ok(
            AudioSource::File(
                FileAudioSource { id, metadata: metadata.clone(), path: owned(path) },
            ),
        )
    }

    /// Import a stream (an empty URI is refused) and return its source.
    pub fn import_stream(
        &mut self,
        uri: &str,
        metadata: &TrackMetadata,
        provider: Option<StreamProvider>,
    ) -> (r: Result<AudioSource, LibraryError>)
        requires
            old(self).wf(),
        ensures
            final(self).wf(),
            final(self).same_but_tracks(&*old(self)),
            uri@.len() == 0 ==> is_backend_error(r, "library"@, "stream uri must not be empty"@)
                && final(self).tracks@ == old(self).tracks@,
            uri@.len() > 0 ==> {
                let id = stream_id_of(uri@, provider);
                &&& r matches Ok(AudioSource::Stream(st)) && st.id.0@ == id && st.uri@ == uri@ && st.metadata
                    == *metadata && st.provider == provider
                &&& final(self).track_of(id) matches Some(row) && row.source_type@ == "stream"@
                    && row.source_ref@ == uri@ && row.metadata == *metadata && opt_chars(row.provider) == (
                match provider {
                    Some(p) => Some(provider_wire(p)),
                    None => None,
                })
                &&& forall|t: Seq<char>| #![auto] t != id ==> final(self).track_of(t) == old(self).track_of(t)
            },
    {
        if uri.is_empty() {
            return Err(
                LibraryError::Backend { backend: "library", message: owned("stream uri must not be empty") },
            );
        }
        let mut id = owned("stream:");
        match provider {
            Some(p) => {
                push_str(&mut id, p.as_str());
                push_str(&mut id, ":");
            },
            None => {},
        }
        push_str(&mut id, uri);
        proof {
            reveal_strlit(":");
        }
        let tid = crate::types::TrackId(id);
        let pname = match provider {
            Some(p) => Some(p.as_str()),
            None => None,
        };
        let _ = self.upsert_stream_track(&tid, uri, metadata, pname);
        Ok(
            AudioSource::Stream(
                StreamAudioSource { id: tid, metadata: metadata.clone(), uri: owned(uri), provider },
            ),
        )
    }

    /// All collections, ordered by name (collections of the same name in any
    /// order).
    pub fn list_collections(&self) -> (r: Result<Vec<Collection>, LibraryError>)
        ensures
            r matches Ok(v) && v@.to_multiset() == self.collections@.to_multiset() && forall|i: int, j: int|
                0 <= i < j < v@.len() ==> !named_before(#[trigger] v@[j], #[trigger] v@[i]),
    {
        let mut out: Vec<Collection> = Vec::new();
        let mut i: usize = 0;
        assert(self.collections@.take(0) =~= out@);
        while i < self.collections.len()
            invariant
                i <= self.collections@.len(),
                out@.to_multiset() == self.collections@.take(i as int).to_multiset(),
                forall|a: int, b: int| 0 <= a < b < out@.len() ==> !named_before(#[trigger] out@[b], #[trigger] out@[a]),
            decreases self.collections.len() - i,
        {
            let x = copy_collection(&self.collections[i]);
            let xn = chars_of(x.name.as_str());
            let mut p: usize = 0;
            while p < out.len()
                invariant
                    p <= out@.len(),
                    xn@ == x.name@,
                    forall|q: int| 0 <= q < p ==> !named_before(x, #[trigger] out@[q]),
                ensures
                    p <= out@.len(),
                    forall|q: int| 0 <= q < p ==> !named_before(x, #[trigger] out@[q]),
                    p < out@.len() ==> named_before(x, out@[p as int]),
                decreases out.len() - p,
            {
                let yn = chars_of(out[p].name.as_str());
                if chars_less(xn.as_slice(), yn.as_slice()) {
                    break;
                }
                p = p + 1;
            }
            let ghost before = out@;
            proof {
                assert forall|a: int, b: int|
                    0 <= a < b < before.len() + 1 implies !named_before(
                    #[trigger] before.insert(p as int, x)[b],
                    #[trigger] before.insert(p as int, x)[a],
                ) by {
                    let n = before.insert(p as int, x);
                    if a < p && b == p {
                        assert(n[a] == before[a] && n[b] == x);
                    } else if a == p && b > p {
                        assert(n[a] == x && n[b] == before[b - 1]);
                        crate::text::lemma_chars_lt_order(before[b - 1].name@, before[p as int].name@, x.name@);
                        crate::text::lemma_chars_lt_order(x.name@, before[p as int].name@, before[b - 1].name@);
                        crate::text::lemma_chars_lt_order(before[p as int].name@, before[b - 1].name@, x.name@);
                        if b - 1 > p {
                            assert(!named_before(before[b - 1], before[p as int]));
                        }
                    } else if a < p && b < p {
                        assert(n[a] == before[a] && n[b] == before[b]);
                    } else if a < p && b > p {
                        assert(n[a] == before[a] && n[b] == before[b - 1]);
                    } else {
                        assert(n[a] == before[a - 1] && n[b] == before[b - 1]);
                    }
                }
                assert(self.collections@.take(i + 1) =~= self.collections@.take(i as int).push(
                    self.collections@[i as int],
                ));
            }
            let ghost xg = x;
            out.insert(p, x);
            proof {
                let prev = self.collections@.take(i as int);
                assert(out@ == before.insert(p as int, xg));
                to_multiset_insert(before, p as int, xg);
                to_multiset_build(prev, xg);
            }
            i = i + 1;
        }
        assert(self.collections@.take(self.collections@.len() as int) =~= self.collections@);
        Ok(out)
    }
}

} // verus!
