//! Finding the library track that stands for a file path: by id, then by
//! stored path; the caller hands over the path in its normalized form (made
//! absolute) when it could make one.

use vstd::prelude::*;

use crate::error::{LibraryError, is_backend_error};
use crate::library::{copy_row, row_convertible};
use crate::manager::{LibraryManager, TrackRow};
use crate::source::{AudioSource, FileAudioSource, row_refusal, row_source_ok};
use crate::text::{chars_eq, chars_of, owned};
use crate::types::TrackId;

verus! {

/// Row `i` of `rows` is a file track stored at path `p`.
pub open spec fn file_row_at(rows: Seq<TrackRow>, i: int, p: Seq<char>) -> bool {
    0 <= i < rows.len() && rows[i].source_type@ == "file"@ && rows[i].source_ref@ == p
}

/// Some file track is stored at path `p`.
pub open spec fn has_file_at(lib: LibraryManager, p: Seq<char>) -> bool {
    exists|i: int| #[trigger] file_row_at(lib.tracks@, i, p)
}

/// `r` is what a lookup of `p` gives: the track with id `p`, else a file
/// track stored at `p`, else nothing; a stored row of unknown kind is refused.
pub open spec fn path_lookup(lib: LibraryManager, p: Seq<char>, r: Result<Option<AudioSource>, LibraryError>) -> bool {
    match lib.track_of(p) {
        Some(row) => if row_convertible(row) {
            r matches Ok(Some(s)) && row_source_ok(row, s)
        } else {
            is_backend_error(r, "library"@, row_refusal(row))
        },
        None => if has_file_at(lib, p) {
            r matches Ok(Some(s)) && exists|i: int|
                #[trigger] file_row_at(lib.tracks@, i, p) && row_source_ok(lib.tracks@[i], s)
        } else {
            r matches Ok(o) && o is None
        },
    }
}

/// A lookup of `p` finds nothing.
pub open spec fn lookup_misses(lib: LibraryManager, p: Seq<char>) -> bool {
    lib.track_of(p) is None && !has_file_at(lib, p)
}

/// The path a lookup of the file `raw` goes by: its normalized form
/// `normalized` when there is one and it finds a track, else `raw`.
pub open spec fn lookup_target(lib: LibraryManager, normalized: Option<Seq<char>>, raw: Seq<char>) -> Seq<char> {
    match normalized {
        Some(n) => if lookup_misses(lib, n) {
            raw
        } else {
            n
        },
        None => raw,
    }
}

/// `r` answers a lookup of the file `raw`, normalized to `normalized` when
/// that could be done: the normalized path is tried first, then `raw`.
pub open spec fn at_path_answer(
    lib: LibraryManager,
    normalized: Option<Seq<char>>,
    raw: Seq<char>,
    r: Result<Option<AudioSource>, LibraryError>,
) -> bool {
    path_lookup(lib, lookup_target(lib, normalized, raw), r)
}

/// A file path to look up: as requested, and normalized when that could be
/// done.
#[derive(Debug)]
pub struct PathQuery {
    pub request: String,
    pub normalized: Option<String>,
}

/// The path a query is looked up by.
pub open spec fn query_target(lib: LibraryManager, q: PathQuery) -> Seq<char> {
    lookup_target(lib, opt_string_view(q.normalized), q.request@)
}

/// The lookup of query `q` is refused (its track's stored row is of an
/// unknown kind).
pub open spec fn query_refused(lib: LibraryManager, q: PathQuery) -> bool {
    lib.track_of(query_target(lib, q)) matches Some(row) && !row_convertible(row)
}

/// No earlier query asks for the same path as query `i`.
pub open spec fn first_request(ps: Seq<PathQuery>, i: int) -> bool {
    forall|j: int| 0 <= j < i ==> ps[j].request@ != ps[i].request@
}

proof fn lemma_first_request_prefix(ps: Seq<PathQuery>, n: int, i: int)
    requires
        0 <= i < n <= ps.len(),
    ensures
        first_request(ps.take(n), i) == first_request(ps, i),
{
    let t = ps.take(n);
    if first_request(ps, i) {
        assert forall|j: int| 0 <= j < i implies t[j].request@ != t[i].request@ by {
            assert(t[j] == ps[j]);
        }
    }
    if first_request(t, i) {
        assert forall|j: int| 0 <= j < i implies ps[j].request@ != ps[i].request@ by {
            assert(t[j] == ps[j]);
        }
    }
}

/// `out` lists, in order, each first request of `ps` whose lookup finds a
/// track, with the track found.
pub open spec fn batch_found(lib: LibraryManager, ps: Seq<PathQuery>, out: Seq<(String, AudioSource)>) -> bool
    decreases ps.len(),
{
    if ps.len() == 0 {
        out.len() == 0
    } else {
        let i = ps.len() - 1;
        let q = ps[i];
        if !first_request(ps, i) || lookup_misses(lib, query_target(lib, q)) {
            batch_found(lib, ps.drop_last(), out)
        } else {
            &&& out.len() > 0
            &&& batch_found(lib, ps.drop_last(), out.drop_last())
            &&& out.last().0@ == q.request@
            &&& path_lookup(lib, query_target(lib, q), Ok(Some(out.last().1)))
        }
    }
}

/// The view of an optional string.
pub open spec fn opt_string_view(o: Option<String>) -> Option<Seq<char>> {
    match o {
        Some(s) => Some(s@),
        None => None,
    }
}

impl LibraryManager {
    /// A file track stored at path `p`, if any.
    pub fn find_file_track_by_source_ref(&self, p: &str) -> (r: Option<AudioSource>)
        ensures
            match r {
                Some(s) => exists|i: int| #[trigger] file_row_at(self.tracks@, i, p@) && row_source_ok(
                    self.tracks@[i],
                    s,
                ),
                None => !has_file_at(*self, p@),
            },
    {
        let want = chars_of(p);
        let file = vec!['f', 'i', 'l', 'e'];
        proof {
            reveal_strlit("file");
            reveal_strlit("stream");
            assert(file@ =~= "file"@);
            assert("file"@ != "stream"@) by {
                assert("file"@[0] != "stream"@[0]);
            }
        }
        let mut i: usize = 0;
        while i < self.tracks.len()
            invariant
                i <= self.tracks@.len(),
                want@ == p@,
                file@ == "file"@,
                "file"@ != "stream"@,
                forall|j: int| 0 <= j < i ==> !#[trigger] file_row_at(self.tracks@, j, p@),
            decreases self.tracks.len() - i,
        {
            let row = &self.tracks[i];
            let t = chars_of(row.source_type.as_str());
            let r = chars_of(row.source_ref.as_str());
            if chars_eq(t.as_slice(), file.as_slice()) && chars_eq(r.as_slice(), want.as_slice()) {
                let row = copy_row(row);
                assert(file_row_at(self.tracks@, i as int, p@));
                return Some(
                    AudioSource::File(
                        FileAudioSource { id: TrackId(row.id), metadata: row.metadata, path: row.source_ref },
                    ),
                );
            }
            i = i + 1;
        }
        None
    }

    /// The track with id `p`, else a file track stored at `p`.
    pub fn lookup_path(&self, p: &str) -> (r: Result<Option<AudioSource>, LibraryError>)
        ensures
            path_lookup(*self, p@, r),
    {
        let id = TrackId::new(p);
        match self.get_track(&id)? {
            Some(s) => Ok(Some(s)),
            None => Ok(self.find_file_track_by_source_ref(p)),
        }
    }

    /// Look up the indexed track for the file `raw`, trying its normalized
    /// form `normalized` first when there is one.
    pub fn lookup_file_track_at_path(&self, normalized: Option<&str>, raw: &str) -> (r: Result<
        Option<AudioSource>,
        LibraryError,
    >)
        ensures
            at_path_answer(*self, opt_str_view(normalized), raw@, r),
    {
        match normalized {
            Some(n) => {
                let found = self.lookup_path(n)?;
                match found {
                    Some(s) => {
                        return Ok(Some(s));
                    },
                    None => {},
                }
            },
            None => {},
        }
        self.lookup_path(raw)
    }
}

impl LibraryManager {
    /// Resolve the library tracks that match the given file paths, each
    /// requested path once (its first request), in request order; paths that
    /// find no track are left out.
    pub fn lookup_file_tracks_at_paths(&self, paths: &[PathQuery]) -> (r: Result<
        Vec<(String, AudioSource)>,
        LibraryError,
    >)
        ensures
            (forall|i: int| 0 <= i < paths@.len() && first_request(paths@, i) ==> !query_refused(*self, #[trigger] paths@[i]))
                ==> (r matches Ok(v) && batch_found(*self, paths@, v@)),
            (exists|i: int| 0 <= i < paths@.len() && first_request(paths@, i) && query_refused(*self, #[trigger] paths@[i]))
                ==> exists|i: int|
                #![trigger paths@[i]]
                {
                    &&& 0 <= i < paths@.len()
                    &&& first_request(paths@, i)
                    &&& (forall|j: int| 0 <= j < i && first_request(paths@, j) ==> !query_refused(*self, #[trigger] paths@[j]))
                    &&& self.track_of(query_target(*self, paths@[i])) matches Some(row)
                    &&& !row_convertible(row)
                    &&& is_backend_error(r, "library"@, row_refusal(row))
                },
    {
        let mut out: Vec<(String, AudioSource)> = Vec::new();
        let mut k: usize = 0;
        while k < paths.len()
            invariant
                k <= paths@.len(),
                batch_found(*self, paths@.take(k as int), out@),
                forall|i: int| 0 <= i < k && first_request(paths@, i) ==> !query_refused(*self, #[trigger] paths@[i]),
            decreases paths.len() - k,
        {
            let q = &paths[k];
            let want = chars_of(q.request.as_str());
            let mut seen = false;
            let mut j: usize = 0;
            while j < k
                invariant
                    j <= k < paths@.len(),
                    want@ == paths@[k as int].request@,
                    seen == exists|m: int| 0 <= m < j && paths@[m].request@ == paths@[k as int].request@,
                decreases k - j,
            {
                let other = chars_of(paths[j].request.as_str());
                if chars_eq(other.as_slice(), want.as_slice()) {
                    seen = true;
                }
                j = j + 1;
            }
            let ghost pre = paths@.take(k as int);
            let ghost now = paths@.take(k + 1);
            proof {
                assert(now.drop_last() =~= pre);
                assert(now[k as int] == paths@[k as int]);
                lemma_first_request_prefix(paths@, k + 1, k as int);
            }
            if !seen {
                let normalized = match &q.normalized {
                    Some(n) => Some(n.as_str()),
                    None => None,
                };
                let found = match self.lookup_file_track_at_path(normalized, q.request.as_str()) {
                    Ok(f) => f,
                    Err(e) => {
                        proof {
                            assert(query_refused(*self, paths@[k as int]));
                        }
                        return Err(e);
                    },
                };
                match found {
                    Some(s) => {
                        let ghost before = out@;
                        out.push((owned(q.request.as_str()), s));
                        proof {
                            assert(out@.drop_last() =~= before);
                        }
                    },
                    None => {},
                }
            }
            k = k + 1;
        }
        assert(paths@.take(k as int) =~= paths@);
        Ok(out)
    }
}

/// The view of an optional string slice.
pub open spec fn opt_str_view(o: Option<&str>) -> Option<Seq<char>> {
    match o {
        Some(s) => Some(s@),
        None => None,
    }
}

} // verus!
