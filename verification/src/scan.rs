//! Syncing collections with the disk: which collections a sync covers, how a
//! scanned file is imported, and how each outcome is counted in the report.
//! Walking directories and reading tags is the caller's part.

use vstd::prelude::*;

use crate::audio_extensions::{is_supported_audio_path, is_supported_path};
use crate::error::{LibraryError, is_backend_error, shows_message};
use crate::library::named_before;
use crate::manager::LibraryManager;
use crate::records::TrackMetadata;
use crate::source::AudioSource;
use crate::text::{owned, push_str};
use crate::types::{Collection, CollectionId, ScanReport, TrackId};

verus! {

/// A file met by a scan: its path (made absolute by the caller), whether it
/// is a regular file, and the tags read from it.
#[derive(Debug)]
pub struct ScannedFile {
    pub path: String,
    pub is_file: bool,
    pub tags: Result<TrackMetadata, LibraryError>,
}

/// Import or refresh the scanned file: refused when it is not a regular file
/// or not a supported audio file, or when its tags could not be read; else
/// stored as a file track.
pub fn import_file(lib: &mut LibraryManager, file: ScannedFile) -> (r: Result<AudioSource, LibraryError>)
    requires
        old(lib).wf(),
    ensures
        final(lib).wf(),
        !file.is_file ==> (r matches Err(LibraryError::PathNotFound(p)) && p@ == file.path@) && *final(lib)
            == *old(lib),
        file.is_file && !is_supported_path(file.path@) ==> (r matches Err(LibraryError::UnsupportedFile(p))
            && p@ == file.path@) && *final(lib) == *old(lib),
        file.is_file && is_supported_path(file.path@) ==> match file.tags {
            Err(e) => r == Err::<AudioSource, LibraryError>(e) && *final(lib) == *old(lib),
            Ok(m) => {
                &&& final(lib).same_but_tracks(&*old(lib))
                &&& final(lib).track_of(file.path@) matches Some(row) && row.source_type@ == "file"@
                    && row.source_ref@ == file.path@ && row.provider is None && row.metadata == m
                &&& forall|t: Seq<char>| #![auto] t != file.path@ ==> final(lib).track_of(t) == old(lib).track_of(t)
                &&& r matches Ok(AudioSource::File(f)) && f.id.0@ == file.path@ && f.path@ == file.path@
                    && f.metadata == m
            },
        },
{
    if !file.is_file {
        return Err(LibraryError::PathNotFound(file.path));
    }
    if !is_supported_audio_path(file.path.as_str()) {
        return Err(LibraryError::UnsupportedFile(file.path));
    }
    match file.tags {
        Err(e) => Err(e),
        Ok(m) => lib.upsert_file_source(file.path.as_str(), &m),
    }
}

/// `line` is the report line of a path that failed: `path: ` and the
/// error's text.
pub open spec fn failure_line(line: Seq<char>, path: Seq<char>, e: LibraryError) -> bool {
    &&& line.len() >= path.len() + 2
    &&& line.take(path.len() + 2int) == path + seq![':', ' ']
    &&& shows_message(e, line.skip(path.len() + 2int))
}

/// The counters of a report can each take one more.
pub open spec fn report_room(r: ScanReport) -> bool {
    r.added < usize::MAX && r.updated < usize::MAX && r.skipped < usize::MAX && r.failed < usize::MAX
}

/// `new` is `old` with one failure of `path` counted.
pub open spec fn failure_counted(old: ScanReport, new: ScanReport, path: Seq<char>, e: LibraryError) -> bool {
    &&& new.added == old.added && new.updated == old.updated && new.skipped == old.skipped
    &&& new.failed == old.failed + 1
    &&& new.errors@.len() == old.errors@.len() + 1
    &&& new.errors@.drop_last() == old.errors@
    &&& failure_line(new.errors@.last()@, path, e)
}

/// Count a failure of `path` with error `e`.
pub fn count_failure(report: &mut ScanReport, path: &str, e: &LibraryError)
    requires
        old(report).failed < usize::MAX,
    ensures
        failure_counted(*old(report), *final(report), path@, *e),
{
    let mut line = owned(path);
    push_str(&mut line, ": ");
    proof {
        reveal_strlit(": ");
        assert(": "@ =~= seq![':', ' ']);
    }
    let m = e.message();
    let ghost head = line@;
    push_str(&mut line, m.as_str());
    assert(line@.take(path@.len() + 2int) =~= head);
    assert(line@.skip(path@.len() + 2int) =~= m@);
    report.failed = report.failed + 1;
    let ghost before = report.errors@;
    report.errors.push(line);
    assert(report.errors@.drop_last() =~= before);
}

/// How a folder scan counts a file's import: refreshed when the track was
/// already there, added when new, skipped when unsupported, else failed with
/// a report line.
pub open spec fn import_counted(old: ScanReport, new: ScanReport, path: Seq<char>, existed: bool, outcome: Result<AudioSource, LibraryError>) -> bool {
    match outcome {
        Ok(_) => if existed {
            new == ScanReport { updated: (old.updated + 1) as usize, ..old }
        } else {
            new == ScanReport { added: (old.added + 1) as usize, ..old }
        },
        Err(LibraryError::UnsupportedFile(_)) => new == ScanReport { skipped: (old.skipped + 1) as usize, ..old },
        Err(e) => failure_counted(old, new, path, e),
    }
}

/// Count the import of a file found by a folder scan.
pub fn tally_import(report: &mut ScanReport, path: &str, existed: bool, outcome: &Result<AudioSource, LibraryError>)
    requires
        report_room(*old(report)),
    ensures
        import_counted(*old(report), *final(report), path@, existed, *outcome),
{
    match outcome {
        Ok(_) => if existed {
            report.updated = report.updated + 1;
        } else {
            report.added = report.added + 1;
        },
        Err(LibraryError::UnsupportedFile(_)) => {
            report.skipped = report.skipped + 1;
        },
        Err(e) => count_failure(report, path, e),
    }
}

/// Scan one file of a folder: note whether its track was in the library,
/// import it and count the outcome. A library error on the first look
/// stops the scan.
pub fn scan_file(lib: &mut LibraryManager, report: &mut ScanReport, file: ScannedFile) -> (r: Result<(), LibraryError>)
    requires
        old(lib).wf(),
        report_room(*old(report)),
    ensures
        final(lib).wf(),
        match old(lib).track_of(file.path@) {
            Some(row) => !crate::library::row_convertible(row) ==> r is Err && *final(lib) == *old(lib)
                && *final(report) == *old(report),
            None => true,
        },
        r is Ok ==> exists|outcome: Result<AudioSource, LibraryError>|
            #![trigger import_counted(*old(report), *final(report), file.path@, old(lib).track_of(file.path@) is Some, outcome)]
            import_counted(*old(report), *final(report), file.path@, old(lib).track_of(file.path@) is Some, outcome)
            && imported(*old(lib), *final(lib), file, outcome),
        (old(lib).track_of(file.path@) matches Some(row) ==> crate::library::row_convertible(row)) ==> r is Ok,
{
    let id = TrackId::new(file.path.as_str());
    let existed = match lib.get_track(&id) {
        Ok(found) => found.is_some(),
        Err(e) => {
            return Err(e);
        },
    };
    let path = owned(file.path.as_str());
    let ghost f = file;
    let outcome = import_file(lib, file);
    tally_import(report, path.as_str(), existed, &outcome);
    assert(imported(*old(lib), *lib, f, outcome));
    Ok(())
}

/// `new` and `outcome` are what importing `file` into `old` gives.
pub open spec fn imported(old: LibraryManager, new: LibraryManager, file: ScannedFile, outcome: Result<AudioSource, LibraryError>) -> bool {
    &&& new.wf()
    &&& !file.is_file ==> (outcome matches Err(LibraryError::PathNotFound(p)) && p@ == file.path@) && new == old
    &&& file.is_file && !is_supported_path(file.path@) ==> (outcome matches Err(LibraryError::UnsupportedFile(p))
        && p@ == file.path@) && new == old
    &&& file.is_file && is_supported_path(file.path@) ==> match file.tags {
        Err(e) => outcome == Err::<AudioSource, LibraryError>(e) && new == old,
        Ok(m) => {
            &&& new.same_but_tracks(&old)
            &&& new.track_of(file.path@) matches Some(row) && row.source_type@ == "file"@
                && row.source_ref@ == file.path@ && row.provider is None && row.metadata == m
            &&& forall|t: Seq<char>| #![auto] t != file.path@ ==> new.track_of(t) == old.track_of(t)
            &&& outcome matches Ok(AudioSource::File(fa)) && fa.id.0@ == file.path@ && fa.path@ == file.path@
                && fa.metadata == m
        },
    }
}

/// Count a folder whose root is missing: one failure, `root not found: root`.
pub fn root_missing(report: &mut ScanReport, root: &str)
    requires
        old(report).failed < usize::MAX,
    ensures
        final(report).added == old(report).added,
        final(report).updated == old(report).updated,
        final(report).skipped == old(report).skipped,
        final(report).failed == old(report).failed + 1,
        final(report).errors@ == old(report).errors@.push(final(report).errors@.last()),
        final(report).errors@.last()@ == "root not found: "@ + root@,
{
    let mut line = owned("root not found: ");
    push_str(&mut line, root);
    report.failed = report.failed + 1;
    report.errors.push(line);
}

/// How a playlist sync counts a listed track: a stream, or a file that is
/// no longer there, is skipped; else it is refreshed, skipped when
/// unsupported, or failed with a report line.
pub open spec fn refresh_counted(old: ScanReport, new: ScanReport, path: Seq<char>, outcome: Result<AudioSource, LibraryError>) -> bool {
    match outcome {
        Ok(_) => new == ScanReport { updated: (old.updated + 1) as usize, ..old },
        Err(LibraryError::UnsupportedFile(_)) => new == ScanReport { skipped: (old.skipped + 1) as usize, ..old },
        Err(e) => failure_counted(old, new, path, e),
    }
}

/// Count the refresh of a file listed by a playlist.
pub fn tally_refresh(report: &mut ScanReport, path: &str, outcome: &Result<AudioSource, LibraryError>)
    requires
        report_room(*old(report)),
    ensures
        refresh_counted(*old(report), *final(report), path@, *outcome),
{
    match outcome {
        Ok(_) => {
            report.updated = report.updated + 1;
        },
        Err(LibraryError::UnsupportedFile(_)) => {
            report.skipped = report.skipped + 1;
        },
        Err(e) => count_failure(report, path, e),
    }
}

/// Count a listed track that is not refreshed (a stream, or a missing file).
pub fn tally_skip(report: &mut ScanReport)
    requires
        old(report).skipped < usize::MAX,
    ensures
        *final(report) == (ScanReport { skipped: (old(report).skipped + 1) as usize, ..*old(report) }),
{
    report.skipped = report.skipped + 1;
}

/// Add the counts and report lines of `part` to `total`.
pub fn merge_report(total: &mut ScanReport, part: ScanReport)
    requires
        old(total).added + part.added <= usize::MAX,
        old(total).updated + part.updated <= usize::MAX,
        old(total).skipped + part.skipped <= usize::MAX,
        old(total).failed + part.failed <= usize::MAX,
    ensures
        final(total).added == old(total).added + part.added,
        final(total).updated == old(total).updated + part.updated,
        final(total).skipped == old(total).skipped + part.skipped,
        final(total).failed == old(total).failed + part.failed,
        final(total).errors@ == old(total).errors@ + part.errors@,
{
    total.added = total.added + part.added;
    total.updated = total.updated + part.updated;
    total.skipped = total.skipped + part.skipped;
    total.failed = total.failed + part.failed;
    let mut errors = part.errors;
    total.errors.append(&mut errors);
}

/// The collections a sync covers: the one named (refused when unknown), or
/// all of them by name; refused when there are none.
pub fn collections_to_sync(lib: &LibraryManager, id: Option<&CollectionId>) -> (r: Result<Vec<Collection>, LibraryError>)
    ensures
        match id {
            Some(i) => match lib.collection_of(i.0@) {
                Some(c) => r matches Ok(v) && v@ == seq![c],
                None => r matches Err(LibraryError::NotFound(s)) && s@ == i.0@,
            },
            None => {
                &&& lib.collections@.len() == 0 ==> is_backend_error(r, "library"@, "no collections to sync"@)
                &&& lib.collections@.len() > 0 ==> (r matches Ok(v) && v@.to_multiset()
                    == lib.collections@.to_multiset() && forall|a: int, b: int|
                    0 <= a < b < v@.len() ==> !named_before(#[trigger] v@[b], #[trigger] v@[a]))
            },
        },
{
    let collections = match id {
        Some(i) => {
            let c = lib.require_collection(i)?;
            let mut v: Vec<Collection> = Vec::new();
            v.push(c);
            v
        },
        None => lib.list_collections()?,
    };
    if collections.len() == 0 {
        proof {
            if id is None {
                lib.collections@.to_multiset_ensures();
                collections@.to_multiset_ensures();
            }
        }
        return Err(LibraryError::Backend { backend: "library", message: owned("no collections to sync") });
    }
    proof {
        if id is None {
            lib.collections@.to_multiset_ensures();
            collections@.to_multiset_ensures();
        }
    }
    Ok(collections)
}

} // verus!
