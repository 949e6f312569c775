//! A table of rows keyed by track id, at most one row per id (the per-track
//! stem and waveform tables).

use vstd::prelude::*;

use crate::manager::{find_id, lemma_find_id, lemma_find_id_push, lemma_find_id_remove};
use crate::text::{chars_eq, chars_of, owned};

verus! {

/// Keys of the rows.
pub open spec fn row_keys<R>(rs: Seq<(String, R)>) -> Seq<Seq<char>> {
    rs.map_values(|r: (String, R)| r.0@)
}

/// Rows keyed by track id.
#[derive(Debug)]
pub struct RowIndex<R> {
    pub rows: Vec<(String, R)>,
}

impl<R> RowIndex<R> {
    /// No key has two rows.
    pub open spec fn wf(&self) -> bool {
        forall|i: int, j: int|
            0 <= i < j < self.rows@.len() ==> #[trigger] self.rows@[i].0@ != #[trigger] self.rows@[j].0@
    }

    /// The row stored under `t`.
    pub open spec fn row_of(&self, t: Seq<char>) -> Option<R> {
        let k = find_id(row_keys(self.rows@), t, 0);
        if k >= 0 {
            Some(self.rows@[k].1)
        } else {
            None
        }
    }

    /// A table with no rows.
    pub fn new() -> (ix: Self)
        ensures
            ix.wf(),
            forall|t: Seq<char>| #![auto] ix.row_of(t) is None,
    {
        RowIndex { rows: Vec::new() }
    }

    fn position(&self, id: &str) -> (k: Option<usize>)
        ensures
            match k {
                Some(i) => i < self.rows@.len() && find_id(row_keys(self.rows@), id@, 0) == i,
                None => find_id(row_keys(self.rows@), id@, 0) == -1,
            },
    {
        let want = chars_of(id);
        let ghost keys = row_keys(self.rows@);
        let mut i: usize = 0;
        while i < self.rows.len()
            invariant
                i <= self.rows@.len(),
                want@ == id@,
                keys == row_keys(self.rows@),
                find_id(keys, id@, 0) == find_id(keys, id@, i as int),
            decreases self.rows.len() - i,
        {
            let c = chars_of(self.rows[i].0.as_str());
            assert(keys[i as int] == self.rows@[i as int].0@);
            if chars_eq(c.as_slice(), want.as_slice()) {
                return Some(i);
            }
            i = i + 1;
        }
        None
    }

    /// The row stored under `id`.
    pub fn get(&self, id: &str) -> (r: Option<&R>)
        ensures
            match self.row_of(id@) {
                Some(x) => r == Some(&x),
                None => r is None,
            },
    {
        match self.position(id) {
            Some(k) => Some(&self.rows[k].1),
            None => None,
        }
    }

    /// Store `row` under `id`, replacing what was stored there.
    pub fn upsert(&mut self, id: &str, row: R)
        requires
            old(self).wf(),
        ensures
            final(self).wf(),
            final(self).row_of(id@) == Some(row),
            forall|t: Seq<char>| #![auto] t != id@ ==> final(self).row_of(t) == old(self).row_of(t),
    {
        let ghost keys = row_keys(self.rows@);
        match self.position(id) {
            Some(k) => {
                self.rows.set(k, (owned(id), row));
                proof {
                    let nk = row_keys(self.rows@);
                    assert(nk =~= keys.update(k as int, id@));
                    lemma_find_id(keys, id@, 0);
                    assert forall|t: Seq<char>| #![auto] t != id@ implies self.row_of(t) == old(self).row_of(t) by {
                        lemma_find_id(keys, t, 0);
                        lemma_find_id(nk, t, 0);
                        let a = find_id(keys, t, 0);
                        let b = find_id(nk, t, 0);
                        if a >= 0 && b >= 0 && a != b {
                            if a < b {
                                assert(nk[a] == keys[a]);
                            } else {
                                assert(keys[b] == nk[b]);
                            }
                        }
                        if a >= 0 && b < 0 {
                            assert(nk[a] == keys[a]);
                        }
                        if b >= 0 && a < 0 {
                            assert(keys[b] == nk[b]);
                        }
                    }
                    lemma_find_id(nk, id@, 0);
                    assert(nk[k as int] == id@);
                    assert(keys[k as int] == id@);
                    assert forall|i: int, j: int| 0 <= i < j < self.rows@.len() implies #[trigger] self.rows@[i].0@
                        != #[trigger] self.rows@[j].0@ by {
                        assert(self.rows@[i].0@ == nk[i] && nk[i] == keys[i]);
                        assert(self.rows@[j].0@ == nk[j] && nk[j] == keys[j]);
                        assert(keys[i] == old(self).rows@[i].0@);
                        assert(keys[j] == old(self).rows@[j].0@);
                    }
                    let b = find_id(nk, id@, 0);
                    if b >= 0 && b < k {
                        assert(keys[b] == nk[b]);
                    }
                }
            },
            None => {
                self.rows.push((owned(id), row));
                proof {
                    let nk = row_keys(self.rows@);
                    assert(nk =~= keys.push(id@));
                    lemma_find_id(keys, id@, 0);
                    assert forall|t: Seq<char>| #![auto] t != id@ implies self.row_of(t) == old(self).row_of(t) by {
                        lemma_find_id_push(keys, id@, t);
                        lemma_find_id(keys, t, 0);
                    }
                    lemma_find_id_push(keys, id@, id@);
                    assert forall|i: int, j: int| 0 <= i < j < self.rows@.len() implies #[trigger] self.rows@[i].0@
                        != #[trigger] self.rows@[j].0@ by {
                        assert(self.rows@[i].0@ == nk[i]);
                        assert(self.rows@[j].0@ == nk[j]);
                        if j < keys.len() {
                            assert(keys[i] == old(self).rows@[i].0@);
                            assert(keys[j] == old(self).rows@[j].0@);
                        } else {
                            assert(nk[i] == keys[i]);
                        }
                    }
                }
            },
        }
    }

    /// Forget the row stored under `id`.
    pub fn delete(&mut self, id: &str)
        requires
            old(self).wf(),
        ensures
            final(self).wf(),
            final(self).row_of(id@) is None,
            forall|t: Seq<char>| #![auto] t != id@ ==> final(self).row_of(t) == old(self).row_of(t),
    {
        let ghost keys = row_keys(self.rows@);
        match self.position(id) {
            Some(k) => {
                self.rows.remove(k);
                proof {
                    assert(row_keys(self.rows@) =~= keys.remove(k as int));
                    assert forall|i: int, j: int| 0 <= i < j < keys.len() implies #[trigger] keys[i] != #[trigger] keys[j] by {
                        assert(keys[i] == old(self).rows@[i].0@);
                        assert(keys[j] == old(self).rows@[j].0@);
                    }
                    lemma_find_id(keys, id@, 0);
                    lemma_find_id_remove(keys, k as int, id@);
                    assert forall|t: Seq<char>| #![auto] t != id@ implies self.row_of(t) == old(self).row_of(t) by {
                        lemma_find_id_remove(keys, k as int, t);
                        lemma_find_id(keys, t, 0);
                    }
                }
            },
            None => {},
        }
    }

    /// Forget every row.
    pub fn clear(&mut self)
        ensures
            final(self).wf(),
            forall|t: Seq<char>| #![auto] final(self).row_of(t) is None,
    {
        self.rows = Vec::new();
    }
}

} // verus!
