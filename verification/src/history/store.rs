//! The session index of the history: one row per session document, and where
//! the documents live.

use vstd::prelude::*;

use crate::history::xspf::HistoryDocument;
use crate::manager::{find_id, lemma_find_id, lemma_find_id_push, lemma_find_id_remove};
use crate::paths::{path_join, path_parent, std_path_join, std_path_parent};
use crate::text::{chars_eq, chars_less, chars_lt, chars_of, lemma_chars_lt_order, owned};
use vstd::seq_lib::{to_multiset_build, to_multiset_insert};

verus! {

/// A session as listed in the index.
#[derive(Clone, Debug, PartialEq)]
pub struct HistorySessionRow {
    pub id: String,
    pub xspf_path: String,
    pub title: String,
    pub started_at: String,
    pub last_activity_at: String,
    pub closed: bool,
    pub entry_count: u32,
}

/// A `history_sessions` row as stored (the flag and the count are integers).
#[derive(Clone, Debug, PartialEq)]
pub struct HistorySessionModel {
    pub id: String,
    pub xspf_path: String,
    pub title: String,
    pub started_at: String,
    pub last_activity_at: String,
    pub closed: i32,
    pub entry_count: i32,
}

/// Directory of the history documents of the library whose database is at
/// `db`: the `history` directory beside it.
pub open spec fn history_dir_of(db: Seq<char>) -> Seq<char> {
    std_path_join(
        match std_path_parent(db) {
            Some(p) => p,
            None => "."@,
        },
        "history"@,
    )
}

/// Where the history of the library at `db_path` is kept.
pub fn history_dir_for_db(db_path: &str) -> (dir: String)
    ensures
        dir@ == history_dir_of(db_path@),
{
    let parent = match path_parent(db_path) {
        Some(p) => p,
        None => owned("."),
    };
    path_join(parent.as_str(), "history")
}

/// A stored index row as a listed session (a negative count reads as 0).
pub fn row_from_model(model: HistorySessionModel) -> (row: HistorySessionRow)
    ensures
        row == row_of(model),
        row.id == model.id,
        row.xspf_path == model.xspf_path,
        row.title == model.title,
        row.started_at == model.started_at,
        row.last_activity_at == model.last_activity_at,
        row.closed == (model.closed != 0),
        row.entry_count == (if model.entry_count > 0 {
            model.entry_count as int
        } else {
            0
        }),
{
    let entry_count: u32 = if model.entry_count > 0 {
        model.entry_count as u32
    } else {
        0
    };
    HistorySessionRow {
        id: model.id,
        xspf_path: model.xspf_path,
        title: model.title,
        started_at: model.started_at,
        last_activity_at: model.last_activity_at,
        closed: model.closed != 0,
        entry_count,
    }
}

/// The index row that records `doc`, stored at `xspf_path`.
pub fn session_model_for(doc: &HistoryDocument, xspf_path: &str) -> (m: HistorySessionModel)
    ensures
        m.id == doc.session.id,
        m.xspf_path@ == xspf_path@,
        m.title == doc.session.title,
        m.started_at == doc.session.started_at,
        m.last_activity_at == doc.session.last_activity_at,
        m.closed == (if doc.session.closed {
            1i32
        } else {
            0i32
        }),
        m.entry_count == doc.entries@.len() as i32,
{
    HistorySessionModel {
        id: doc.session.id.clone(),
        xspf_path: owned(xspf_path),
        title: doc.session.title.clone(),
        started_at: doc.session.started_at.clone(),
        last_activity_at: doc.session.last_activity_at.clone(),
        closed: if doc.session.closed {
            1
        } else {
            0
        },
        entry_count: doc.entries.len() as i32,
    }
}

/// The listed form of a stored row (what [`row_from_model`] gives).
pub open spec fn row_of(m: HistorySessionModel) -> HistorySessionRow {
    HistorySessionRow {
        id: m.id,
        xspf_path: m.xspf_path,
        title: m.title,
        started_at: m.started_at,
        last_activity_at: m.last_activity_at,
        closed: m.closed != 0,
        entry_count: if m.entry_count > 0 {
            m.entry_count as u32
        } else {
            0
        },
    }
}

/// The listed forms of stored rows.
pub open spec fn listed_rows(rows: Seq<HistorySessionModel>) -> Seq<HistorySessionRow> {
    rows.map_values(|m: HistorySessionModel| row_of(m))
}

/// A copy of a stored row.
pub fn copy_model(m: &HistorySessionModel) -> (r: HistorySessionModel)
    ensures
        r == *m,
{
    HistorySessionModel {
        id: m.id.clone(),
        xspf_path: m.xspf_path.clone(),
        title: m.title.clone(),
        started_at: m.started_at.clone(),
        last_activity_at: m.last_activity_at.clone(),
        closed: m.closed,
        entry_count: m.entry_count,
    }
}

/// Ids of stored rows.
pub open spec fn model_ids(rows: Seq<HistorySessionModel>) -> Seq<Seq<char>> {
    rows.map_values(|m: HistorySessionModel| m.id@)
}

/// The session index: one stored row per session id.
#[derive(Debug)]
pub struct SessionIndex {
    pub rows: Vec<HistorySessionModel>,
}

impl SessionIndex {
    /// No two rows share an id.
    pub open spec fn wf(&self) -> bool {
        forall|i: int, j: int|
            0 <= i < j < self.rows@.len() ==> #[trigger] self.rows@[i].id@ != #[trigger] self.rows@[j].id@
    }

    /// The stored row of session `id`, if any.
    pub open spec fn model_of(&self, id: Seq<char>) -> Option<HistorySessionModel> {
        let k = find_id(model_ids(self.rows@), id, 0);
        if k >= 0 {
            Some(self.rows@[k])
        } else {
            None
        }
    }

    /// An empty index.
    pub fn new() -> (ix: Self)
        ensures
            ix.wf(),
            ix.rows@.len() == 0,
    {
        SessionIndex { rows: Vec::new() }
    }

    fn position(&self, id: &str) -> (k: Option<usize>)
        ensures
            match k {
                Some(i) => i < self.rows@.len() && find_id(model_ids(self.rows@), id@, 0) == i,
                None => find_id(model_ids(self.rows@), id@, 0) == -1,
            },
    {
        let ids = chars_of(id);
        let mut i: usize = 0;
        while i < self.rows.len()
            invariant
                i <= self.rows@.len(),
                ids@ == id@,
                find_id(model_ids(self.rows@), id@, 0) == find_id(model_ids(self.rows@), id@, i as int),
            decreases self.rows.len() - i,
        {
            let c = chars_of(self.rows[i].id.as_str());
            if chars_eq(c.as_slice(), ids.as_slice()) {
                return Some(i);
            }
            i = i + 1;
        }
        None
    }

    /// Record `doc`, stored at `xspf_path`. A session already listed keeps its
    /// path and start time; its title, last activity, closed flag and entry
    /// count are updated.
    pub fn upsert_session_index(&mut self, doc: &HistoryDocument, xspf_path: &str)
        requires
            old(self).wf(),
        ensures
            final(self).wf(),
            final(self).model_of(doc.session.id@) matches Some(n) && {
                &&& n.id@ == doc.session.id@
                &&& n.title == doc.session.title
                &&& n.last_activity_at == doc.session.last_activity_at
                &&& n.closed == (if doc.session.closed {
                    1i32
                } else {
                    0i32
                })
                &&& n.entry_count == doc.entries@.len() as i32
                &&& match old(self).model_of(doc.session.id@) {
                    Some(o) => n.xspf_path == o.xspf_path && n.started_at == o.started_at,
                    None => n.xspf_path@ == xspf_path@ && n.started_at == doc.session.started_at,
                }
            },
            forall|t: Seq<char>| #![auto] t != doc.session.id@ ==> final(self).model_of(t) == old(self).model_of(t),
    {
        let fresh = session_model_for(doc, xspf_path);
        let ghost old_ids = model_ids(self.rows@);
        match self.position(doc.session.id.as_str()) {
            Some(k) => {
                let mut m = self.rows.remove(k);
                m.title = fresh.title;
                m.last_activity_at = fresh.last_activity_at;
                m.closed = fresh.closed;
                m.entry_count = fresh.entry_count;
                self.rows.insert(k, m);
                proof {
                    lemma_find_id(old_ids, doc.session.id@, 0);
                    assert(model_ids(self.rows@) =~= old_ids);
                    assert forall|t: Seq<char>|
                        #![auto]
                        t != doc.session.id@ implies self.model_of(t) == old(self).model_of(t) by {
                        lemma_find_id(old_ids, t, 0);
                    }
                    assert forall|i: int, j: int|
                        0 <= i < j < self.rows@.len() implies #[trigger] self.rows@[i].id@
                            != #[trigger] self.rows@[j].id@ by {
                        assert(self.rows@[i].id@ == old_ids[i]);
                        assert(self.rows@[j].id@ == old_ids[j]);
                    }
                }
            },
            None => {
                self.rows.push(fresh);
                proof {
                    lemma_find_id(old_ids, doc.session.id@, 0);
                    assert(model_ids(self.rows@) =~= old_ids.push(doc.session.id@));
                    lemma_find_id_push(old_ids, doc.session.id@, doc.session.id@);
                    assert forall|t: Seq<char>|
                        #![auto]
                        t != doc.session.id@ implies self.model_of(t) == old(self).model_of(t) by {
                        lemma_find_id_push(old_ids, doc.session.id@, t);
                        lemma_find_id(old_ids, t, 0);
                    }
                    assert forall|i: int, j: int|
                        0 <= i < j < self.rows@.len() implies #[trigger] self.rows@[i].id@
                            != #[trigger] self.rows@[j].id@ by {
                        if j == self.rows@.len() - 1 {
                            assert(old_ids[i] == self.rows@[i].id@);
                        }
                    }
                }
            },
        }
    }

    /// The listed row of session `id`, if it is in the index.
    pub fn get_session(&self, id: &str) -> (r: Option<HistorySessionRow>)
        ensures
            r == (match self.model_of(id@) {
                Some(m) => Some(row_of(m)),
                None => None,
            }),
    {
        match self.position(id) {
            Some(k) => Some(row_from_model(copy_model(&self.rows[k]))),
            None => None,
        }
    }

    /// Drop session `id` from the index (nothing happens when it is absent).
    pub fn delete_session_index(&mut self, id: &str)
        requires
            old(self).wf(),
        ensures
            final(self).wf(),
            final(self).model_of(id@) is None,
            forall|t: Seq<char>| #![auto] t != id@ ==> final(self).model_of(t) == old(self).model_of(t),
    {
        match self.position(id) {
            Some(k) => {
                let ghost old_ids = model_ids(self.rows@);
                let ghost old_rows = self.rows@;
                self.rows.remove(k);
                proof {
                    assert(model_ids(self.rows@) =~= old_ids.remove(k as int));
                    lemma_find_id(old_ids, id@, 0);
                    assert forall|i: int, j: int|
                        0 <= i < j < old_ids.len() implies #[trigger] old_ids[i] != #[trigger] old_ids[j] by {
                        assert(old_ids[i] == old_rows[i].id@);
                        assert(old_ids[j] == old_rows[j].id@);
                    }
                    lemma_find_id_remove(old_ids, k as int, id@);
                    assert forall|t: Seq<char>| #![auto] t != id@ implies self.model_of(t) == old(self).model_of(t) by {
                        lemma_find_id_remove(old_ids, k as int, t);
                        lemma_find_id(old_ids, t, 0);
                    }
                    assert forall|i: int, j: int|
                        0 <= i < j < self.rows@.len() implies #[trigger] self.rows@[i].id@
                            != #[trigger] self.rows@[j].id@ by {
                        let i2 = if i < k { i } else { i + 1 };
                        let j2 = if j < k { j } else { j + 1 };
                        assert(self.rows@[i] == old_rows[i2]);
                        assert(self.rows@[j] == old_rows[j2]);
                    }
                }
            },
            None => {},
        }
    }

    /// The open session started last (any one of them when several started at
    /// the same instant), or none when every session is closed.
    pub fn active_session(&self) -> (r: Option<HistorySessionRow>)
        ensures
            r is None <==> forall|i: int| 0 <= i < self.rows@.len() ==> #[trigger] self.rows@[i].closed != 0,
            r matches Some(row) ==> exists|i: int|
                #![trigger self.rows@[i]]
                0 <= i < self.rows@.len() && self.rows@[i].closed == 0 && row == row_of(self.rows@[i])
                    && forall|j: int|
                    0 <= j < self.rows@.len() && #[trigger] self.rows@[j].closed == 0 ==> !chars_lt(
                        self.rows@[i].started_at@,
                        self.rows@[j].started_at@,
                    ),
    {
        let mut best: Option<usize> = None;
        let mut best_key: Vec<char> = Vec::new();
        let mut i: usize = 0;
        while i < self.rows.len()
            invariant
                i <= self.rows@.len(),
                best is None <==> forall|q: int| 0 <= q < i ==> #[trigger] self.rows@[q].closed != 0,
                best matches Some(b) ==> b < i && self.rows@[b as int].closed == 0
                    && best_key@ == self.rows@[b as int].started_at@ && forall|q: int|
                    0 <= q < i && #[trigger] self.rows@[q].closed == 0 ==> !chars_lt(
                        self.rows@[b as int].started_at@,
                        self.rows@[q].started_at@,
                    ),
            decreases self.rows.len() - i,
        {
            if self.rows[i].closed == 0 {
                let key = chars_of(self.rows[i].started_at.as_str());
                let take = match best {
                    None => true,
                    Some(_) => chars_less(best_key.as_slice(), key.as_slice()),
                };
                if take {
                    proof {
                        if best is Some {
                            let b = best->0 as int;
                            assert forall|q: int|
                                0 <= q < i + 1 && #[trigger] self.rows@[q].closed == 0 implies !chars_lt(
                                self.rows@[i as int].started_at@,
                                self.rows@[q].started_at@,
                            ) by {
                                lemma_chars_lt_order(
                                    self.rows@[i as int].started_at@,
                                    self.rows@[b].started_at@,
                                    self.rows@[q].started_at@,
                                );
                                lemma_chars_lt_order(
                                    self.rows@[b].started_at@,
                                    self.rows@[i as int].started_at@,
                                    self.rows@[q].started_at@,
                                );
                                lemma_chars_lt_order(
                                    self.rows@[b].started_at@,
                                    self.rows@[q].started_at@,
                                    self.rows@[i as int].started_at@,
                                );
                            }
                        } else {
                            lemma_chars_lt_order(
                                self.rows@[i as int].started_at@,
                                self.rows@[i as int].started_at@,
                                self.rows@[i as int].started_at@,
                            );
                        }
                    }
                    best = Some(i);
                    best_key = key;
                } else {
                    proof {
                        let b = best->0 as int;
                        lemma_chars_lt_order(
                            self.rows@[b].started_at@,
                            self.rows@[i as int].started_at@,
                            self.rows@[i as int].started_at@,
                        );
                    }
                }
            }
            i = i + 1;
        }
        match best {
            Some(b) => Some(row_from_model(copy_model(&self.rows[b]))),
            None => None,
        }
    }

    /// Every listed session, the latest started first (sessions started at the
    /// same instant in any order).
    pub fn list_sessions(&self) -> (r: Vec<HistorySessionRow>)
        ensures
            r@.to_multiset() == listed_rows(self.rows@).to_multiset(),
            forall|i: int, j: int|
                0 <= i < j < r@.len() ==> !chars_lt(#[trigger] r@[i].started_at@, #[trigger] r@[j].started_at@),
    {
        broadcast use to_multiset_build, to_multiset_insert;

        let mut out: Vec<HistorySessionRow> = Vec::new();
        let mut i: usize = 0;
        assert(listed_rows(self.rows@.take(0)) =~= out@);
        while i < self.rows.len()
            invariant
                i <= self.rows@.len(),
                out@.to_multiset() == listed_rows(self.rows@.take(i as int)).to_multiset(),
                forall|a: int, b: int|
                    0 <= a < b < out@.len() ==> !chars_lt(#[trigger] out@[a].started_at@, #[trigger] out@[b].started_at@),
            decreases self.rows.len() - i,
        {
            let x = row_from_model(copy_model(&self.rows[i]));
            let key = chars_of(x.started_at.as_str());
            let mut p: usize = 0;
            while p < out.len()
                invariant
                    p <= out@.len(),
                    key@ == x.started_at@,
                    forall|q: int| 0 <= q < p ==> !chars_lt(#[trigger] out@[q].started_at@, x.started_at@),
                ensures
                    p <= out@.len(),
                    forall|q: int| 0 <= q < p ==> !chars_lt(#[trigger] out@[q].started_at@, x.started_at@),
                    p < out@.len() ==> chars_lt(out@[p as int].started_at@, x.started_at@),
                decreases out.len() - p,
            {
                let k2 = chars_of(out[p].started_at.as_str());
                if chars_less(k2.as_slice(), key.as_slice()) {
                    break;
                }
                p = p + 1;
            }
            let ghost before = out@;
            proof {
                assert forall|a: int, b: int|
                    0 <= a < b < before.len() + 1 implies !chars_lt(
                    #[trigger] before.insert(p as int, x)[a].started_at@,
                    #[trigger] before.insert(p as int, x)[b].started_at@,
                ) by {
                    let n = before.insert(p as int, x);
                    if a < p && b == p {
                        assert(n[a] == before[a] && n[b] == x);
                    } else if a == p && b > p {
                        assert(n[a] == x && n[b] == before[b - 1]);
                        let y = before[b - 1];
                        lemma_chars_lt_order(x.started_at@, y.started_at@, before[p as int].started_at@);
                        lemma_chars_lt_order(before[p as int].started_at@, x.started_at@, y.started_at@);
                        lemma_chars_lt_order(y.started_at@, before[p as int].started_at@, x.started_at@);
                        if b - 1 > p {
                            assert(!chars_lt(before[p as int].started_at@, before[b - 1].started_at@));
                        }
                    } else if a < p && b < p {
                        assert(n[a] == before[a] && n[b] == before[b]);
                    } else if a < p && b > p {
                        assert(n[a] == before[a] && n[b] == before[b - 1]);
                    } else {
                        assert(n[a] == before[a - 1] && n[b] == before[b - 1]);
                    }
                }
                assert(listed_rows(self.rows@.take(i + 1))
                    =~= listed_rows(self.rows@.take(i as int)).push(
                    row_of(self.rows@[i as int]),
                ));
            }
            let ghost xr = x;
            out.insert(p, x);
            proof {
                let prev = listed_rows(self.rows@.take(i as int));
                assert(out@ == before.insert(p as int, xr));
                to_multiset_insert(before, p as int, xr);
                to_multiset_build(prev, xr);
            }
            i = i + 1;
        }
        assert(self.rows@.take(self.rows@.len() as int) =~= self.rows@);
        out
    }
}

} // verus!
