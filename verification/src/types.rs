//! Shared library types: identifiers, collections and scan reports.

use vstd::prelude::*;

use crate::text::{chars_eq, chars_of, owned};

verus! {

/// Stable track identifier within a library.
#[derive(Clone, Debug, PartialEq, Eq, Hash)]
pub struct TrackId(pub String);

impl TrackId {
    /// Create a new track id.
    pub fn new(id: &str) -> (t: Self)
        ensures
            t.0@ == id@,
    {
        TrackId(owned(id))
    }

    /// Borrow the id as a string.
    pub fn as_str(&self) -> (s: &str)
        ensures
            s@ == self.0@,
    {
        self.0.as_str()
    }
}

/// Stable collection identifier within a library.
#[derive(Clone, Debug, PartialEq, Eq, Hash)]
pub struct CollectionId(pub String);

impl CollectionId {
    /// Create a new collection id.
    pub fn new(id: &str) -> (c: Self)
        ensures
            c.0@ == id@,
    {
        CollectionId(owned(id))
    }

    /// Borrow the id as a string.
    pub fn as_str(&self) -> (s: &str)
        ensures
            s@ == self.0@,
    {
        self.0.as_str()
    }
}

/// Known streaming providers (extensible).
#[derive(Clone, Copy, Debug, PartialEq, Eq, Hash, Structural)]
pub enum StreamProvider {
    /// Generic HTTP(S) URL.
    Http,
}

/// Storage name of a stream provider.
pub open spec fn provider_wire(p: StreamProvider) -> Seq<char> {
    match p {
        StreamProvider::Http => seq!['h', 't', 't', 'p'],
    }
}

impl StreamProvider {
    /// Wire format used in storage.
    pub fn as_str(self) -> (s: &'static str)
        ensures
            s@ == provider_wire(self),
    {
        proof {
            reveal_strlit("http");
        }
        match self {
            StreamProvider::Http => "http",
        }
    }

    /// The provider whose wire name is `s`, if any.
    pub fn parse(s: &str) -> (p: Option<StreamProvider>)
        ensures
            match p {
                Some(q) => provider_wire(q) == s@,
                None => forall|q: StreamProvider| provider_wire(q) != s@,
            },
    {
        let cs = chars_of(s);
        let http = vec!['h', 't', 't', 'p'];
        assert(http@ =~= provider_wire(StreamProvider::Http));
        if chars_eq(cs.as_slice(), http.as_slice()) {
            Some(StreamProvider::Http)
        } else {
            None
        }
    }
}

impl core::str::FromStr for StreamProvider {
    type Err = ();

    fn from_str(s: &str) -> (r: core::result::Result<Self, Self::Err>)
        ensures
            match r {
                Ok(q) => provider_wire(q) == s@,
                Err(_) => forall|q: StreamProvider| provider_wire(q) != s@,
            },
    {
        match StreamProvider::parse(s) {
            Some(p) => Ok(p),
            None => Err(()),
        }
    }
}

/// Kind of collection in the library.
#[derive(Clone, Copy, Debug, PartialEq, Eq, Hash, Structural)]
pub enum CollectionType {
    /// Real disk directory (`fs_path` required).
    Folder,
    /// User-defined track list (`sortable` controls order).
    Playlist,
}

/// Storage name of a collection type.
pub open spec fn collection_type_wire(t: CollectionType) -> Seq<char> {
    match t {
        CollectionType::Folder => seq!['f', 'o', 'l', 'd', 'e', 'r'],
        CollectionType::Playlist => seq!['p', 'l', 'a', 'y', 'l', 'i', 's', 't'],
    }
}

impl CollectionType {
    /// Wire format used in storage (`folder` / `playlist`).
    pub fn as_str(self) -> (s: &'static str)
        ensures
            s@ == collection_type_wire(self),
    {
        proof {
            reveal_strlit("folder");
            reveal_strlit("playlist");
        }
        match self {
            CollectionType::Folder => "folder",
            CollectionType::Playlist => "playlist",
        }
    }

    /// The collection type whose wire name is `s`, if any.
    pub fn parse(s: &str) -> (t: Option<CollectionType>)
        ensures
            match t {
                Some(c) => collection_type_wire(c) == s@,
                None => forall|c: CollectionType| collection_type_wire(c) != s@,
            },
    {
        let cs = chars_of(s);
        let folder = vec!['f', 'o', 'l', 'd', 'e', 'r'];
        let playlist = vec!['p', 'l', 'a', 'y', 'l', 'i', 's', 't'];
        assert(folder@ =~= collection_type_wire(CollectionType::Folder));
        assert(playlist@ =~= collection_type_wire(CollectionType::Playlist));
        if chars_eq(cs.as_slice(), folder.as_slice()) {
            Some(CollectionType::Folder)
        } else if chars_eq(cs.as_slice(), playlist.as_slice()) {
            Some(CollectionType::Playlist)
        } else {
            None
        }
    }
}

impl core::str::FromStr for CollectionType {
    type Err = ();

    fn from_str(s: &str) -> (r: core::result::Result<Self, Self::Err>)
        ensures
            match r {
                Ok(c) => collection_type_wire(c) == s@,
                Err(_) => forall|c: CollectionType| collection_type_wire(c) != s@,
            },
    {
        match CollectionType::parse(s) {
            Some(t) => Ok(t),
            None => Err(()),
        }
    }
}

/// Type-specific collection settings.
#[derive(Clone, Debug, PartialEq)]
pub enum CollectionConfig {
    /// Real disk directory.
    Folder {
        /// Absolute path to a real directory on disk.
        fs_path: String,
        /// When true, folder scans recurse into subdirectories.
        scan_folder_tree: bool,
    },
    /// User-defined track list.
    Playlist {
        /// Ordered vs set (crate-like).
        sortable: bool,
    },
}

/// Folder scans recurse into subdirectories unless configured otherwise.
pub fn default_scan_folder_tree() -> (b: bool)
    ensures
        b,
{
    true
}

/// Folder or playlist, by configuration.
pub open spec fn config_type(c: CollectionConfig) -> CollectionType {
    match c {
        CollectionConfig::Folder { .. } => CollectionType::Folder,
        CollectionConfig::Playlist { .. } => CollectionType::Playlist,
    }
}

impl CollectionConfig {
    /// Folder or playlist.
    pub fn collection_type(&self) -> (t: CollectionType)
        ensures
            t == config_type(*self),
    {
        match self {
            CollectionConfig::Folder { .. } => CollectionType::Folder,
            CollectionConfig::Playlist { .. } => CollectionType::Playlist,
        }
    }
}

/// A collection: either a disk folder or a playlist.
#[derive(Clone, Debug, PartialEq)]
pub struct Collection {
    /// Library-stable identifier.
    pub id: CollectionId,
    /// Display name.
    pub name: String,
    /// Folder or playlist configuration.
    pub config: CollectionConfig,
}

/// Whether a collection keeps a meaningful track order: playlists say so, folders never.
pub open spec fn collection_sortable(c: Collection) -> bool {
    match c.config {
        CollectionConfig::Folder { .. } => false,
        CollectionConfig::Playlist { sortable } => sortable,
    }
}

impl Collection {
    /// Folder or playlist.
    pub fn collection_type(&self) -> (t: CollectionType)
        ensures
            t == config_type(self.config),
    {
        self.config.collection_type()
    }

    /// Folder only: absolute path on disk.
    pub fn fs_path(&self) -> (p: Option<&str>)
        ensures
            match self.config {
                CollectionConfig::Folder { fs_path, .. } => p is Some && p->0@ == fs_path@,
                CollectionConfig::Playlist { .. } => p is None,
            },
    {
        match &self.config {
            CollectionConfig::Folder { fs_path, .. } => Some(fs_path.as_str()),
            CollectionConfig::Playlist { .. } => None,
        }
    }

    /// Playlist only: whether track order is meaningful.
    pub fn sortable(&self) -> (b: bool)
        ensures
            b == collection_sortable(*self),
    {
        match &self.config {
            CollectionConfig::Folder { .. } => false,
            CollectionConfig::Playlist { sortable } => *sortable,
        }
    }
}

/// Many-to-many join: playlist ↔ track only.
#[derive(Clone, Debug, PartialEq, Eq)]
pub struct CollectionTrack {
    /// Playlist collection id.
    pub collection_id: CollectionId,
    /// Track id.
    pub track_id: TrackId,
    /// Set when the playlist is `sortable`; `None` otherwise.
    pub position: Option<i32>,
}

/// Library manager configuration (reserved for library-wide options).
#[derive(Clone, Debug, PartialEq)]
pub struct LibraryConfig {}

impl Default for LibraryConfig {
    fn default() -> (c: Self)
        ensures
            c == (LibraryConfig {}),
    {
        LibraryConfig {  }
    }
}

/// Parameters for creating a collection (folder or playlist).
#[derive(Clone, Debug, PartialEq)]
pub struct NewCollection {
    /// Display name. When `None` for a folder, derived from `fs_path`.
    pub name: Option<String>,
    /// Folder or playlist configuration.
    pub config: CollectionConfig,
}

impl NewCollection {
    /// Create a disk-folder collection (scanning its whole tree, name derived later).
    pub fn folder(path: &str) -> (c: Self)
        ensures
            c.name is None,
            c.config matches CollectionConfig::Folder { fs_path, scan_folder_tree } && fs_path@
                == path@ && scan_folder_tree,
    {
        NewCollection {
            name: None,
            config: CollectionConfig::Folder { fs_path: owned(path), scan_folder_tree: true },
        }
    }

    /// Create a disk-folder collection with an explicit display name.
    pub fn folder_named(path: &str, name: &str) -> (c: Self)
        ensures
            c.name is Some && c.name->0@ == name@,
            c.config matches CollectionConfig::Folder { fs_path, scan_folder_tree } && fs_path@
                == path@ && scan_folder_tree,
    {
        NewCollection {
            name: Some(owned(name)),
            config: CollectionConfig::Folder { fs_path: owned(path), scan_folder_tree: true },
        }
    }

    /// Create a playlist collection.
    pub fn playlist(name: &str, sortable: bool) -> (c: Self)
        ensures
            c.name is Some && c.name->0@ == name@,
            c.config == (CollectionConfig::Playlist { sortable }),
    {
        NewCollection { name: Some(owned(name)), config: CollectionConfig::Playlist { sortable } }
    }
}

/// Partial update for collection configuration.
#[derive(Clone, Debug, PartialEq, Eq, Structural)]
pub enum CollectionConfigUpdate {
    /// Playlist only: ordered vs set.
    Playlist { sortable: bool },
}

/// Partial update for an existing collection.
#[derive(Clone, Debug, PartialEq)]
pub struct UpdateCollection {
    /// New display name.
    pub name: Option<String>,
    /// Type-specific settings to change.
    pub config: Option<CollectionConfigUpdate>,
}

impl Default for UpdateCollection {
    fn default() -> (u: Self)
        ensures
            u.name is None,
            u.config is None,
    {
        UpdateCollection { name: None, config: None }
    }
}

impl UpdateCollection {
    /// Update the display name.
    pub fn name(name: &str) -> (u: Self)
        ensures
            u.name is Some && u.name->0@ == name@,
            u.config is None,
    {
        UpdateCollection { name: Some(owned(name)), config: None }
    }

    /// Update whether a playlist is ordered.
    pub fn sortable(sortable: bool) -> (u: Self)
        ensures
            u.name is None,
            u.config == Some(CollectionConfigUpdate::Playlist { sortable }),
    {
        UpdateCollection { name: None, config: Some(CollectionConfigUpdate::Playlist { sortable }) }
    }
}

/// Summary of a sync/scan operation.
#[derive(Clone, Debug, PartialEq, Eq)]
pub struct ScanReport {
    /// Newly imported tracks.
    pub added: usize,
    /// Existing tracks whose metadata was refreshed.
    pub updated: usize,
    /// Paths skipped (unsupported or unchanged policy).
    pub skipped: usize,
    /// Paths that failed to import.
    pub failed: usize,
    /// Per-path failure messages.
    pub errors: Vec<String>,
}

impl Default for ScanReport {
    fn default() -> (r: Self)
        ensures
            r.added == 0 && r.updated == 0 && r.skipped == 0 && r.failed == 0,
            r.errors@.len() == 0,
    {
        ScanReport { added: 0, updated: 0, skipped: 0, failed: 0, errors: Vec::new() }
    }
}

} // verus!
