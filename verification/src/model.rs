//! Stored rows of the library database, turned into library types.

use vstd::prelude::*;

use crate::error::{LibraryError, is_backend_error};
use crate::text::{owned, push_str};
use crate::types::{
    Collection, CollectionConfig, CollectionId, CollectionType, collection_type_wire,
};

verus! {

/// A `collections` row as stored (flags are integers, 0 meaning false).
#[derive(Debug)]
pub struct CollectionModel {
    pub id: String,
    pub name: String,
    pub collection_type: String,
    pub sortable: i32,
    pub scan_folder_tree: i32,
    pub fs_path: Option<String>,
}

/// Turn a stored collection row into a [`Collection`]. An unknown type name,
/// or a folder without a path, is refused.
pub fn collection(model: CollectionModel) -> (r: Result<Collection, LibraryError>)
    ensures
        (forall|t: CollectionType| collection_type_wire(t) != model.collection_type@) ==> is_backend_error(
            r,
            "library"@,
            "unknown collection_type: "@ + model.collection_type@,
        ),
        collection_type_wire(CollectionType::Folder) == model.collection_type@ && model.fs_path is None
            ==> is_backend_error(r, "library"@, "folder collection missing fs_path"@),
        collection_type_wire(CollectionType::Folder) == model.collection_type@ && model.fs_path is Some
            ==> (r matches Ok(c) && c.id.0 == model.id && c.name == model.name && c.config == (
        CollectionConfig::Folder {
            fs_path: model.fs_path->0,
            scan_folder_tree: model.scan_folder_tree != 0,
        })),
        collection_type_wire(CollectionType::Playlist) == model.collection_type@ ==> (r matches Ok(c)
            && c.id.0 == model.id && c.name == model.name && c.config == (CollectionConfig::Playlist {
            sortable: model.sortable != 0,
        })),
{
    let collection_type = match CollectionType::parse(model.collection_type.as_str()) {
        Some(t) => t,
        None => {
            let mut m = owned("unknown collection_type: ");
            push_str(&mut m, model.collection_type.as_str());
            return Err(LibraryError::Backend { backend: "library", message: m });
        },
    };
    let config = match collection_type {
        CollectionType::Folder => {
            match model.fs_path {
                Some(fs_path) => CollectionConfig::Folder {
                    fs_path,
                    scan_folder_tree: model.scan_folder_tree != 0,
                },
                None => {
                    return Err(
                        LibraryError::Backend {
                            backend: "library",
                            message: owned("folder collection missing fs_path"),
                        },
                    );
                },
            }
        },
        CollectionType::Playlist => CollectionConfig::Playlist { sortable: model.sortable != 0 },
    };
    Ok(Collection { id: CollectionId(model.id), name: model.name, config })
}

} // verus!
