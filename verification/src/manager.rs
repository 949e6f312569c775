//! The library manager: the user's track pool, collections, per-track deck
//! data (hot cues, loops) and sampler banks, with the rules the library keeps
//! on them.

use vstd::prelude::*;

use crate::error::{LibraryError, is_backend_error};
use crate::records::{
    copy_opt_string, HotCueRecord, TrackMetadata, LoopRecord, SamplerBankRecord, SamplerPlayMode, SamplerSlotRecord, listed,
};
use crate::text::{
    chars_eq, chars_less, chars_lt, chars_of, lemma_chars_lt_order, owned, starts_with, string_of, trim,
    trim_chars,
};
use vstd::seq_lib::{to_multiset_build, to_multiset_insert};
use crate::types::{Collection, CollectionTrack, LibraryConfig, TrackId};

verus! {

/// Hot cue and loop slots per track (0..=15).
pub const DECK_SLOTS: usize = 16;

/// Fixed pad count per sampler bank.
pub const BANK_SIZE: usize = 8;

/// A track in the pool, as stored.
#[derive(Debug)]
pub struct TrackRow {
    pub id: String,
    /// `file` or `stream`.
    pub source_type: String,
    /// Path or URI.
    pub source_ref: String,
    pub provider: Option<String>,
    pub metadata: TrackMetadata,
    /// Bank last used with this track.
    pub last_sampler_bank_id: Option<String>,
}

/// Track fields used when writing a manual beat grid.
#[derive(Debug)]
pub struct TrackBeatGridContext {
    pub duration_ms: i32,
    pub key: Option<String>,
    pub sample_rate: i32,
}

/// Hot cues and loops of one track, by slot.
#[derive(Debug)]
pub struct TrackDeckData {
    pub track_id: String,
    pub hot_cues: Vec<Option<HotCueRecord>>,
    pub loops: Vec<Option<LoopRecord>>,
}

/// A sampler bank and its pads, by slot.
#[derive(Debug)]
pub struct BankEntry {
    pub record: SamplerBankRecord,
    pub slots: Vec<Option<SamplerSlotRecord>>,
}

/// The user's library manager (canonical writable store).
#[derive(Debug)]
pub struct LibraryManager {
    pub config: LibraryConfig,
    pub tracks: Vec<TrackRow>,
    pub collections: Vec<Collection>,
    pub entries: Vec<CollectionTrack>,
    pub decks: Vec<TrackDeckData>,
    pub banks: Vec<BankEntry>,
}

/// First position at or after `i` whose id is `t`, or -1.
pub open spec fn find_id(ids: Seq<Seq<char>>, t: Seq<char>, i: int) -> int
    decreases ids.len() - i,
{
    if i < 0 || i >= ids.len() {
        -1
    } else if ids[i] == t {
        i
    } else {
        find_id(ids, t, i + 1)
    }
}

/// `find_id` gives a matching position, or -1 when no position matches.
pub proof fn lemma_find_id(ids: Seq<Seq<char>>, t: Seq<char>, i: int)
    requires
        0 <= i,
    ensures
        -1 <= find_id(ids, t, i) < ids.len(),
        find_id(ids, t, i) >= 0 ==> find_id(ids, t, i) >= i && ids[find_id(ids, t, i)] == t,
        find_id(ids, t, i) >= 0 ==> forall|j: int| i <= j < find_id(ids, t, i) ==> ids[j] != t,
        find_id(ids, t, i) == -1 ==> forall|j: int| i <= j < ids.len() ==> ids[j] != t,
    decreases ids.len() - i,
{
    if i < ids.len() && ids[i] != t {
        lemma_find_id(ids, t, i + 1);
    }
}

/// Ids of the per-track deck data entries.
pub open spec fn deck_ids(ds: Seq<TrackDeckData>) -> Seq<Seq<char>> {
    ds.map_values(|d: TrackDeckData| d.track_id@)
}

/// Ids of the sampler banks.
pub open spec fn bank_ids(bs: Seq<BankEntry>) -> Seq<Seq<char>> {
    bs.map_values(|b: BankEntry| b.record.id@)
}

/// Ids of the tracks.
pub open spec fn track_ids(ts: Seq<TrackRow>) -> Seq<Seq<char>> {
    ts.map_values(|t: TrackRow| t.id@)
}

/// Sixteen empty slots.
pub open spec fn empty_slots<R>(n: nat) -> Seq<Option<R>> {
    Seq::new(n, |i: int| None)
}

/// Every present record in `slots` sits at its own slot index.
pub open spec fn cues_wf(slots: Seq<Option<HotCueRecord>>) -> bool {
    &&& slots.len() == DECK_SLOTS
    &&& forall|s: int| 0 <= s < slots.len() && #[trigger] slots[s] is Some ==> slots[s]->0.slot_index == s
}

/// Every present loop sits at its own slot index and ends after it starts.
pub open spec fn loops_wf(slots: Seq<Option<LoopRecord>>) -> bool {
    &&& slots.len() == DECK_SLOTS
    &&& forall|s: int|
        0 <= s < slots.len() && #[trigger] slots[s] is Some ==> slots[s]->0.slot_index == s
            && slots[s]->0.in_ms < slots[s]->0.out_ms
}

/// Every present pad sits at its own slot index.
pub open spec fn pads_wf(slots: Seq<Option<SamplerSlotRecord>>) -> bool {
    &&& slots.len() == BANK_SIZE
    &&& forall|s: int| 0 <= s < slots.len() && #[trigger] slots[s] is Some ==> slots[s]->0.slot_index == s
}

impl LibraryManager {
    /// The manager's internal consistency.
    pub open spec fn wf(&self) -> bool {
        &&& forall|i: int|
            0 <= i < self.decks@.len() ==> cues_wf(#[trigger] self.decks@[i].hot_cues@) && loops_wf(
                self.decks@[i].loops@,
            )
        &&& forall|i: int| 0 <= i < self.banks@.len() ==> pads_wf(#[trigger] self.banks@[i].slots@)
        &&& forall|i: int, j: int|
            0 <= i < j < self.banks@.len() ==> #[trigger] self.banks@[i].record.id@
                != #[trigger] self.banks@[j].record.id@
    }

    /// Hot cue slots of track `t` (all empty for a track with none saved).
    pub open spec fn cues_of(&self, t: Seq<char>) -> Seq<Option<HotCueRecord>> {
        let k = find_id(deck_ids(self.decks@), t, 0);
        if k >= 0 {
            self.decks@[k].hot_cues@
        } else {
            empty_slots(DECK_SLOTS as nat)
        }
    }

    /// Loop slots of track `t` (all empty for a track with none saved).
    pub open spec fn loops_of(&self, t: Seq<char>) -> Seq<Option<LoopRecord>> {
        let k = find_id(deck_ids(self.decks@), t, 0);
        if k >= 0 {
            self.decks@[k].loops@
        } else {
            empty_slots(DECK_SLOTS as nat)
        }
    }

    /// Position of bank `b`, or -1.
    pub open spec fn bank_pos(&self, b: Seq<char>) -> int {
        find_id(bank_ids(self.banks@), b, 0)
    }

    /// Pads of bank `b` (all empty for an unknown bank).
    pub open spec fn pads_of(&self, b: Seq<char>) -> Seq<Option<SamplerSlotRecord>> {
        let k = self.bank_pos(b);
        if k >= 0 {
            self.banks@[k].slots@
        } else {
            empty_slots(BANK_SIZE as nat)
        }
    }

    /// What creating bank `id` named `name` from this state gives: an empty
    /// (trimmed) name is refused, then an id already taken; otherwise the bank
    /// is appended with no pads assigned, and no other bank changes.
    pub open spec fn bank_created(
        &self,
        after: &Self,
        id: Seq<char>,
        name: Seq<char>,
        play_mode: Option<SamplerPlayMode>,
        r: Result<SamplerBankRecord, LibraryError>,
    ) -> bool {
        &&& trim(name).len() == 0 ==> is_backend_error(r, "sampler"@, "bank name must not be empty"@)
            && after.banks@ == self.banks@
        &&& trim(name).len() > 0 && self.bank_pos(id) >= 0 ==> is_backend_error(
            r,
            "sampler"@,
            "sampler bank id already exists: "@ + id,
        ) && after.banks@ == self.banks@
        &&& trim(name).len() > 0 && self.bank_pos(id) < 0 ==> (r matches Ok(rec) && {
            &&& rec.id@ == id
            &&& rec.name@ == trim(name)
            &&& rec.play_mode == play_mode
            &&& rec.sort_index == self.banks@.len() as i32
            &&& after.bank_of(id) == Some(rec)
            &&& after.pads_of(id) == empty_slots::<SamplerSlotRecord>(BANK_SIZE as nat)
            &&& forall|b: Seq<char>|
                #![auto]
                b != id ==> after.bank_of(b) == self.bank_of(b) && after.pads_of(b) == self.pads_of(b)
        })
    }

    /// The record of bank `b`, if it exists.
    pub open spec fn bank_of(&self, b: Seq<char>) -> Option<SamplerBankRecord> {
        let k = self.bank_pos(b);
        if k >= 0 {
            Some(self.banks@[k].record)
        } else {
            None
        }
    }

    /// Position of track `t` in the pool, or -1.
    pub open spec fn track_pos(&self, t: Seq<char>) -> int {
        find_id(track_ids(self.tracks@), t, 0)
    }

    /// Everything but the sampler banks is the same in `self` and `other`.
    pub open spec fn same_but_banks(&self, other: &Self) -> bool {
        &&& self.config == other.config
        &&& self.tracks@ == other.tracks@
        &&& self.collections@ == other.collections@
        &&& self.entries@ == other.entries@
        &&& self.decks@ == other.decks@
    }

    /// Everything but the deck data is the same in `self` and `other`.
    pub open spec fn same_but_decks(&self, other: &Self) -> bool {
        &&& self.config == other.config
        &&& self.tracks@ == other.tracks@
        &&& self.collections@ == other.collections@
        &&& self.entries@ == other.entries@
        &&& self.banks@ == other.banks@
    }

    /// Open an in-memory library (empty pool, no collections, no deck data).
    pub fn open_in_memory(config: LibraryConfig) -> (r: Result<Self, LibraryError>)
        ensures
            r matches Ok(m) && m.wf() && m.config == config && m.tracks@.len() == 0
                && m.collections@.len() == 0 && m.entries@.len() == 0 && m.decks@.len() == 0
                && m.banks@.len() == 0,
    {
        Ok(
            LibraryManager {
                config,
                tracks: Vec::new(),
                collections: Vec::new(),
                entries: Vec::new(),
                decks: Vec::new(),
                banks: Vec::new(),
            },
        )
    }

    /// Borrow the library configuration.
    pub fn config(&self) -> (c: &LibraryConfig)
        ensures
            *c == self.config,
    {
        &self.config
    }

    /// Replace the library configuration.
    pub fn set_config(&mut self, config: LibraryConfig)
        ensures
            final(self).config == config,
            final(self).tracks@ == old(self).tracks@,
            final(self).collections@ == old(self).collections@,
            final(self).entries@ == old(self).entries@,
            final(self).decks@ == old(self).decks@,
            final(self).banks@ == old(self).banks@,
    {
        self.config = config;
    }

    fn deck_position(&self, id: &str) -> (k: Option<usize>)
        ensures
            match k {
                Some(i) => i < self.decks@.len() && find_id(deck_ids(self.decks@), id@, 0)
                    == i,
                None => find_id(deck_ids(self.decks@), id@, 0) == -1,
            },
    {
        let ids = chars_of(id);
        let mut i: usize = 0;
        while i < self.decks.len()
            invariant
                i <= self.decks@.len(),
                ids@ == id@,
                find_id(deck_ids(self.decks@), id@, 0) == find_id(deck_ids(self.decks@), id@, i as int),
            decreases self.decks.len() - i,
        {
            let c = chars_of(self.decks[i].track_id.as_str());
            if chars_eq(c.as_slice(), ids.as_slice()) {
                return Some(i);
            }
            i = i + 1;
        }
        None
    }

    /// The position of the deck data of track `id`, added empty when missing.
    fn deck_entry_for(&mut self, id: &str) -> (k: usize)
        requires
            old(self).wf(),
        ensures
            final(self).wf(),
            final(self).same_but_decks(&*old(self)),
            k < final(self).decks@.len(),
            find_id(deck_ids(final(self).decks@), id@, 0) == k,
            forall|t: Seq<char>|
                #![auto]
                final(self).cues_of(t) == old(self).cues_of(t) && final(self).loops_of(t)
                    == old(self).loops_of(t),
    {
        match self.deck_position(id) {
            Some(k) => k,
            None => {
                let mut cues: Vec<Option<HotCueRecord>> = Vec::new();
                let mut loops: Vec<Option<LoopRecord>> = Vec::new();
                let mut i: usize = 0;
                while i < DECK_SLOTS
                    invariant
                        i <= DECK_SLOTS,
                        cues@ == empty_slots::<HotCueRecord>(i as nat),
                        loops@ == empty_slots::<LoopRecord>(i as nat),
                    decreases DECK_SLOTS - i,
                {
                    cues.push(None);
                    loops.push(None);
                    assert(cues@ =~= empty_slots::<HotCueRecord>((i + 1) as nat));
                    assert(loops@ =~= empty_slots::<LoopRecord>((i + 1) as nat));
                    i = i + 1;
                }
                let ghost old_ids = deck_ids(self.decks@);
                let entry = TrackDeckData { track_id: owned(id), hot_cues: cues, loops };
                self.decks.push(entry);
                proof {
                    assert(deck_ids(self.decks@) =~= old_ids.push(id@));
                    lemma_find_id_push(old_ids, id@, id@);
                    assert forall|t: Seq<char>|
                        #![auto]
                        self.cues_of(t) == old(self).cues_of(t) && self.loops_of(t) == old(
                            self,
                        ).loops_of(t) by {
                        lemma_find_id_push(old_ids, id@, t);
                        let k = find_id(old_ids, t, 0);
                        if k >= 0 {
                            lemma_find_id(old_ids, t, 0);
                            assert(self.decks@[k] == old(self).decks@[k]);
                        }
                    }
                }
                self.decks.len() - 1
            },
        }
    }

    /// Takes the deck data at position `k` out (leaving an empty placeholder).
    fn take_deck(&mut self, k: usize) -> (d: TrackDeckData)
        requires
            k < old(self).decks@.len(),
        ensures
            d == old(self).decks@[k as int],
            final(self).same_but_decks(&*old(self)),
            final(self).decks@.len() == old(self).decks@.len(),
            forall|i: int| 0 <= i < old(self).decks@.len() && i != k ==> final(self).decks@[i] == old(self).decks@[i],
    {
        let d = self.decks.remove(k);
        self.decks.insert(k, TrackDeckData { track_id: String::new(), hot_cues: Vec::new(), loops: Vec::new() });
        d
    }

    /// Puts deck data back at position `k`.
    fn put_deck(&mut self, k: usize, d: TrackDeckData)
        requires
            k < old(self).decks@.len(),
            cues_wf(d.hot_cues@),
            loops_wf(d.loops@),
            forall|i: int|
                0 <= i < old(self).decks@.len() && i != k ==> cues_wf(#[trigger] old(self).decks@[i].hot_cues@)
                    && loops_wf(old(self).decks@[i].loops@),
            forall|i: int| 0 <= i < old(self).banks@.len() ==> pads_wf(#[trigger] old(self).banks@[i].slots@),
            forall|i: int, j: int|
                0 <= i < j < old(self).banks@.len() ==> #[trigger] old(self).banks@[i].record.id@
                    != #[trigger] old(self).banks@[j].record.id@,
        ensures
            final(self).wf(),
            final(self).same_but_decks(&*old(self)),
            final(self).decks@ == old(self).decks@.update(k as int, d),
    {
        self.decks.set(k, d);
    }

    /// Deck data at `k` was replaced by `d` of the same track: for that track
    /// the slots are `d`'s, for every other track they are unchanged.
    proof fn lemma_replaced_deck(old_m: &Self, new_m: &Self, k: int, d: TrackDeckData, t: Seq<char>)
        requires
            0 <= k < old_m.decks@.len(),
            new_m.decks@ == old_m.decks@.update(k, d),
            d.track_id@ == old_m.decks@[k].track_id@,
        ensures
            find_id(deck_ids(old_m.decks@), t, 0) == k ==> new_m.cues_of(t) == d.hot_cues@
                && new_m.loops_of(t) == d.loops@,
            find_id(deck_ids(old_m.decks@), t, 0) != k ==> new_m.cues_of(t) == old_m.cues_of(t)
                && new_m.loops_of(t) == old_m.loops_of(t),
            t != d.track_id@ ==> find_id(deck_ids(old_m.decks@), t, 0) != k,
    {
        assert(deck_ids(new_m.decks@) =~= deck_ids(old_m.decks@));
        lemma_find_id(deck_ids(old_m.decks@), t, 0);
    }

    /// Save (insert or replace) the hot cue in `slot_index` of a track.
    /// Slots are 0..=15; any other slot is refused and nothing changes.
    pub fn save_track_hot_cue(
        &mut self,
        id: &TrackId,
        slot_index: u8,
        position_ms: i32,
        loop_length_beats: Option<i32>,
        color: Option<String>,
        label: Option<String>,
    ) -> (r: Result<(), LibraryError>)
        requires
            old(self).wf(),
        ensures
            final(self).wf(),
            final(self).same_but_decks(&*old(self)),
            slot_index > 15 ==> is_backend_error(r, "deck_data"@, "hot cue slot must be 0..=15"@)
                && final(self).decks@ == old(self).decks@,
            slot_index <= 15 ==> r is Ok && final(self).cues_of(id.0@) == old(self).cues_of(
                id.0@,
            ).update(
                slot_index as int,
                Some(
                    HotCueRecord { slot_index, position_ms, loop_length_beats, color, label },
                ),
            ),
            forall|t: Seq<char>| #![auto] t != id.0@ ==> final(self).cues_of(t) == old(self).cues_of(t),
            forall|t: Seq<char>| #![auto] final(self).loops_of(t) == old(self).loops_of(t),
    {
        if slot_index > 15 {
            return Err(
                LibraryError::Backend {
                    backend: "deck_data",
                    message: owned("hot cue slot must be 0..=15"),
                },
            );
        }
        let k = self.deck_entry_for(id.as_str());
        let ghost mid = *self;
        let rec = HotCueRecord { slot_index, position_ms, loop_length_beats, color, label };
        let mut d = self.take_deck(k);
        assert(cues_wf(mid.decks@[k as int].hot_cues@));
        d.hot_cues.set(slot_index as usize, Some(rec));
        self.put_deck(k, d);
        assert(self.decks@ =~= mid.decks@.update(k as int, d));
        proof {
            Self::lemma_replaced_deck(&mid, &*self, k as int, d, id.0@);
            assert forall|t: Seq<char>| #![auto] t != id.0@ implies self.cues_of(t) == old(self).cues_of(t) by {
                Self::lemma_replaced_deck(&mid, &*self, k as int, d, t);
                assert(mid.cues_of(t) == old(self).cues_of(t));
            }
            assert forall|t: Seq<char>| #![auto] self.loops_of(t) == old(self).loops_of(t) by {
                Self::lemma_replaced_deck(&mid, &*self, k as int, d, t);
                assert(mid.loops_of(t) == old(self).loops_of(t));
            }
        }
        Ok(())
    }

    /// Delete the hot cue in `slot_index` of a track (nothing happens when
    /// the slot is empty or out of range).
    pub fn delete_track_hot_cue(&mut self, id: &TrackId, slot_index: u8) -> (r: Result<(), LibraryError>)
        requires
            old(self).wf(),
        ensures
            r is Ok,
            final(self).wf(),
            final(self).same_but_decks(&*old(self)),
            final(self).cues_of(id.0@) == (if slot_index < DECK_SLOTS {
                old(self).cues_of(id.0@).update(slot_index as int, None)
            } else {
                old(self).cues_of(id.0@)
            }),
            forall|t: Seq<char>| #![auto] t != id.0@ ==> final(self).cues_of(t) == old(self).cues_of(t),
            forall|t: Seq<char>| #![auto] final(self).loops_of(t) == old(self).loops_of(t),
    {
        let ghost empty = empty_slots::<HotCueRecord>(DECK_SLOTS as nat);
        match self.deck_position(id.as_str()) {
            None => {
                proof {
                    if slot_index < DECK_SLOTS {
                        assert(empty.update(slot_index as int, None) =~= empty);
                    }
                }
                Ok(())
            },
            Some(k) => {
                if (slot_index as usize) >= DECK_SLOTS {
                    return Ok(());
                }
                let ghost mid = *self;
                let mut d = self.take_deck(k);
                assert(cues_wf(mid.decks@[k as int].hot_cues@));
                d.hot_cues.set(slot_index as usize, None);
                self.put_deck(k, d);
                assert(self.decks@ =~= mid.decks@.update(k as int, d));
                proof {
                    Self::lemma_replaced_deck(&mid, &*self, k as int, d, id.0@);
                    assert forall|t: Seq<char>|
                        #![auto]
                        t != id.0@ implies self.loops_of(t) == old(self).loops_of(t)
                            && self.cues_of(t) == old(self).cues_of(t) by {
                        Self::lemma_replaced_deck(&mid, &*self, k as int, d, t);
                    }
                }
                Ok(())
            },
        }
    }

    /// Save (insert or replace) the loop in `slot_index` of a track. Slots are
    /// 0..=15 and the loop must end after it starts; otherwise it is refused
    /// and nothing changes.
    pub fn save_track_loop(
        &mut self,
        id: &TrackId,
        slot_index: u8,
        in_ms: i32,
        out_ms: i32,
        label: Option<String>,
        color: Option<String>,
    ) -> (r: Result<(), LibraryError>)
        requires
            old(self).wf(),
        ensures
            final(self).wf(),
            final(self).same_but_decks(&*old(self)),
            slot_index > 15 ==> is_backend_error(r, "deck_data"@, "loop slot must be 0..=15"@)
                && final(self).decks@ == old(self).decks@,
            slot_index <= 15 && out_ms <= in_ms ==> is_backend_error(
                r,
                "deck_data"@,
                "loop out must be after loop in"@,
            ) && final(self).decks@ == old(self).decks@,
            slot_index <= 15 && in_ms < out_ms ==> r is Ok && final(self).loops_of(id.0@) == old(
                self,
            ).loops_of(id.0@).update(
                slot_index as int,
                Some(LoopRecord { slot_index, in_ms, out_ms, label, color }),
            ),
            forall|t: Seq<char>| #![auto] t != id.0@ ==> final(self).loops_of(t) == old(self).loops_of(t),
            forall|t: Seq<char>| #![auto] final(self).cues_of(t) == old(self).cues_of(t),
    {
        if slot_index > 15 {
            return Err(
                LibraryError::Backend { backend: "deck_data", message: owned("loop slot must be 0..=15") },
            );
        }
        if out_ms <= in_ms {
            return Err(
                LibraryError::Backend {
                    backend: "deck_data",
                    message: owned("loop out must be after loop in"),
                },
            );
        }
        let k = self.deck_entry_for(id.as_str());
        let ghost mid = *self;
        let rec = LoopRecord { slot_index, in_ms, out_ms, label, color };
        let mut d = self.take_deck(k);
        assert(cues_wf(mid.decks@[k as int].hot_cues@));
        d.loops.set(slot_index as usize, Some(rec));
        self.put_deck(k, d);
        assert(self.decks@ =~= mid.decks@.update(k as int, d));
        proof {
            Self::lemma_replaced_deck(&mid, &*self, k as int, d, id.0@);
            assert forall|t: Seq<char>| #![auto] t != id.0@ implies self.loops_of(t) == old(self).loops_of(t) by {
                Self::lemma_replaced_deck(&mid, &*self, k as int, d, t);
                assert(mid.loops_of(t) == old(self).loops_of(t));
            }
            assert forall|t: Seq<char>| #![auto] self.cues_of(t) == old(self).cues_of(t) by {
                Self::lemma_replaced_deck(&mid, &*self, k as int, d, t);
                assert(mid.cues_of(t) == old(self).cues_of(t));
            }
        }
        Ok(())
    }

    /// Delete the loop in `slot_index` of a track (nothing happens when the
    /// slot is empty or out of range).
    pub fn delete_track_loop(&mut self, id: &TrackId, slot_index: u8) -> (r: Result<(), LibraryError>)
        requires
            old(self).wf(),
        ensures
            r is Ok,
            final(self).wf(),
            final(self).same_but_decks(&*old(self)),
            final(self).loops_of(id.0@) == (if slot_index < DECK_SLOTS {
                old(self).loops_of(id.0@).update(slot_index as int, None)
            } else {
                old(self).loops_of(id.0@)
            }),
            forall|t: Seq<char>| #![auto] t != id.0@ ==> final(self).loops_of(t) == old(self).loops_of(t),
            forall|t: Seq<char>| #![auto] final(self).cues_of(t) == old(self).cues_of(t),
    {
        let ghost empty = empty_slots::<LoopRecord>(DECK_SLOTS as nat);
        match self.deck_position(id.as_str()) {
            None => {
                proof {
                    if slot_index < DECK_SLOTS {
                        assert(empty.update(slot_index as int, None) =~= empty);
                    }
                }
                Ok(())
            },
            Some(k) => {
                if (slot_index as usize) >= DECK_SLOTS {
                    return Ok(());
                }
                let ghost mid = *self;
                let mut d = self.take_deck(k);
                assert(cues_wf(mid.decks@[k as int].hot_cues@));
                d.loops.set(slot_index as usize, None);
                self.put_deck(k, d);
                assert(self.decks@ =~= mid.decks@.update(k as int, d));
                proof {
                    Self::lemma_replaced_deck(&mid, &*self, k as int, d, id.0@);
                    assert forall|t: Seq<char>|
                        #![auto]
                        t != id.0@ implies self.loops_of(t) == old(self).loops_of(t)
                            && self.cues_of(t) == old(self).cues_of(t) by {
                        Self::lemma_replaced_deck(&mid, &*self, k as int, d, t);
                    }
                }
                Ok(())
            },
        }
    }

    fn bank_position(&self, id: &str) -> (k: Option<usize>)
        ensures
            match k {
                Some(i) => i < self.banks@.len() && self.bank_pos(id@) == i,
                None => self.bank_pos(id@) == -1,
            },
    {
        let ids = chars_of(id);
        let mut i: usize = 0;
        while i < self.banks.len()
            invariant
                i <= self.banks@.len(),
                ids@ == id@,
                find_id(bank_ids(self.banks@), id@, 0) == find_id(bank_ids(self.banks@), id@, i as int),
            decreases self.banks.len() - i,
        {
            let c = chars_of(self.banks[i].record.id.as_str());
            if chars_eq(c.as_slice(), ids.as_slice()) {
                return Some(i);
            }
            i = i + 1;
        }
        None
    }

    /// The error for an unknown bank.
    fn bank_not_found(bank_id: &str) -> (e: LibraryError)
        ensures
            e matches LibraryError::Backend { backend, message } && backend@ == "sampler"@
                && message@ == "sampler bank not found: "@ + bank_id@,
    {
        let mut m = owned("sampler bank not found: ");
        crate::text::push_str(&mut m, bank_id);
        LibraryError::Backend { backend: "sampler", message: m }
    }

    /// The pads of a sampler bank, in slot order (none for an unknown bank).
    pub fn list_sampler_bank_slots(&self, bank_id: &str) -> (r: Result<Vec<SamplerSlotRecord>, LibraryError>)
        requires
            self.wf(),
        ensures
            r matches Ok(v) && v@ == listed(self.pads_of(bank_id@)),
    {
        let mut out: Vec<SamplerSlotRecord> = Vec::new();
        match self.bank_position(bank_id) {
            Some(k) => {
                let pads = &self.banks[k].slots;
                let mut s: usize = 0;
                while s < pads.len()
                    invariant
                        s <= pads@.len(),
                        out@ == listed(pads@.take(s as int)),
                    decreases pads.len() - s,
                {
                    assert(pads@.take(s + 1).drop_last() =~= pads@.take(s as int));
                    match &pads[s] {
                        Some(c) => {
                            out.push(c.clone());
                        },
                        None => {},
                    }
                    s = s + 1;
                }
                assert(pads@.take(pads.len() as int) =~= pads@);
            },
            None => {
                proof {
                    lemma_listed_empty::<SamplerSlotRecord>(BANK_SIZE as nat);
                }
            },
        }
        Ok(out)
    }

    /// Replaces the pads of bank `k`.
    fn put_pads(&mut self, k: usize, pads: Vec<Option<SamplerSlotRecord>>)
        requires
            old(self).wf(),
            k < old(self).banks@.len(),
            pads_wf(pads@),
        ensures
            final(self).wf(),
            final(self).same_but_banks(&*old(self)),
            final(self).banks@.len() == old(self).banks@.len(),
            final(self).banks@[k as int].record == old(self).banks@[k as int].record,
            final(self).banks@[k as int].slots@ == pads@,
            forall|i: int| 0 <= i < old(self).banks@.len() && i != k ==> final(self).banks@[i] == old(self).banks@[i],
            bank_ids(final(self).banks@) == bank_ids(old(self).banks@),
    {
        let mut b = self.banks.remove(k);
        b.slots = pads;
        self.banks.insert(k, b);
        assert(bank_ids(self.banks@) =~= bank_ids(old(self).banks@));
    }

    /// The pads of bank `k` (a copy).
    fn copy_pads(&self, k: usize) -> (pads: Vec<Option<SamplerSlotRecord>>)
        requires
            k < self.banks@.len(),
        ensures
            pads@ == self.banks@[k as int].slots@,
    {
        let src = &self.banks[k].slots;
        let mut out: Vec<Option<SamplerSlotRecord>> = Vec::new();
        let mut i: usize = 0;
        while i < src.len()
            invariant
                i <= src@.len(),
                out@ == src@.take(i as int),
            decreases src.len() - i,
        {
            let v = match &src[i] {
                Some(r) => Some(r.clone()),
                None => None,
            };
            out.push(v);
            assert(out@ =~= src@.take(i + 1));
            i = i + 1;
        }
        assert(src@.take(src.len() as int) =~= src@);
        out
    }

    /// Assign a track and/or file path to pad `slot_index` of a bank.
    /// Refused (nothing changes) when the slot is not 0..=7, the bank does not
    /// exist, or neither a track id nor a path is given.
    pub fn assign_sampler_bank_slot(
        &mut self,
        bank_id: &str,
        slot_index: u8,
        track_id: Option<String>,
        path: Option<String>,
        label: Option<String>,
    ) -> (r: Result<(), LibraryError>)
        requires
            old(self).wf(),
        ensures
            final(self).wf(),
            final(self).same_but_banks(&*old(self)),
            slot_index >= 8 ==> is_backend_error(r, "sampler"@, "sampler slot must be 0..=7"@)
                && final(self).banks@ == old(self).banks@,
            slot_index < 8 && old(self).bank_pos(bank_id@) < 0 ==> is_backend_error(
                r,
                "sampler"@,
                "sampler bank not found: "@ + bank_id@,
            ) && final(self).banks@ == old(self).banks@,
            slot_index < 8 && old(self).bank_pos(bank_id@) >= 0 && track_id is None && path is None
                ==> is_backend_error(r, "sampler"@, "track_id or path is required"@)
                && final(self).banks@ == old(self).banks@,
            slot_index < 8 && old(self).bank_pos(bank_id@) >= 0 && (track_id is Some || path is Some)
                && old(self).names_missing_track(track_id) ==> is_backend_error(
                r,
                "library"@,
                "FOREIGN KEY constraint failed"@,
            ) && final(self).banks@ == old(self).banks@,
            slot_index < 8 && old(self).bank_pos(bank_id@) >= 0 && (track_id is Some || path is Some)
                && !old(self).names_missing_track(track_id)
                ==> r is Ok && final(self).pads_of(bank_id@) == old(self).pads_of(bank_id@).update(
                slot_index as int,
                Some(SamplerSlotRecord { slot_index, track_id, path, label }),
            ) && bank_ids(final(self).banks@) == bank_ids(old(self).banks@),
            forall|b: Seq<char>| #![auto] b != bank_id@ ==> final(self).pads_of(b) == old(self).pads_of(b),
            forall|b: Seq<char>| #![auto] final(self).bank_of(b) == old(self).bank_of(b),
    {
        if (slot_index as usize) >= BANK_SIZE {
            return Err(
                LibraryError::Backend { backend: "sampler", message: owned("sampler slot must be 0..=7") },
            );
        }
        let k = match self.bank_position(bank_id) {
            Some(k) => k,
            None => {
                return Err(Self::bank_not_found(bank_id));
            },
        };
        if track_id.is_none() && path.is_none() {
            return Err(
                LibraryError::Backend {
                    backend: "sampler",
                    message: owned("track_id or path is required"),
                },
            );
        }
        match &track_id {
            Some(t) => {
                if self.track_position(t.as_str()).is_none() {
                    return Err(Self::foreign_key_error());
                }
            },
            None => {},
        }
        let mut pads = self.copy_pads(k);
        assert(pads_wf(self.banks@[k as int].slots@));
        pads.set(slot_index as usize, Some(SamplerSlotRecord { slot_index, track_id, path, label }));
        self.put_pads(k, pads);
        proof {
            lemma_find_id(bank_ids(old(self).banks@), bank_id@, 0);
            assert forall|b: Seq<char>| #![auto] b != bank_id@ implies self.pads_of(b) == old(self).pads_of(b) by {
                lemma_find_id(bank_ids(old(self).banks@), b, 0);
            }
            assert forall|b: Seq<char>| #![auto] self.bank_of(b) == old(self).bank_of(b) by {
                lemma_find_id(bank_ids(old(self).banks@), b, 0);
            }
        }
        Ok(())
    }

    /// Empty pad `slot_index` of a bank (refused when the slot is not 0..=7;
    /// nothing happens for an unknown bank or an empty pad).
    pub fn clear_sampler_bank_slot(&mut self, bank_id: &str, slot_index: u8) -> (r: Result<(), LibraryError>)
        requires
            old(self).wf(),
        ensures
            final(self).wf(),
            final(self).same_but_banks(&*old(self)),
            slot_index >= 8 ==> is_backend_error(r, "sampler"@, "sampler slot must be 0..=7"@)
                && final(self).banks@ == old(self).banks@,
            slot_index < 8 ==> r is Ok && final(self).pads_of(bank_id@) == old(self).pads_of(
                bank_id@,
            ).update(slot_index as int, None),
            forall|b: Seq<char>| #![auto] b != bank_id@ ==> final(self).pads_of(b) == old(self).pads_of(b),
            forall|b: Seq<char>| #![auto] final(self).bank_of(b) == old(self).bank_of(b),
    {
        if (slot_index as usize) >= BANK_SIZE {
            return Err(
                LibraryError::Backend { backend: "sampler", message: owned("sampler slot must be 0..=7") },
            );
        }
        match self.bank_position(bank_id) {
            Some(k) => {
                let mut pads = self.copy_pads(k);
                assert(pads_wf(self.banks@[k as int].slots@));
                pads.set(slot_index as usize, None);
                self.put_pads(k, pads);
                proof {
                    lemma_find_id(bank_ids(old(self).banks@), bank_id@, 0);
                    assert forall|b: Seq<char>| #![auto] b != bank_id@ implies self.pads_of(b) == old(self).pads_of(b) by {
                        lemma_find_id(bank_ids(old(self).banks@), b, 0);
                    }
                    assert forall|b: Seq<char>| #![auto] self.bank_of(b) == old(self).bank_of(b) by {
                        lemma_find_id(bank_ids(old(self).banks@), b, 0);
                    }
                }
            },
            None => {
                let ghost e = empty_slots::<SamplerSlotRecord>(BANK_SIZE as nat);
                assert(e.update(slot_index as int, None) =~= e);
            },
        }
        Ok(())
    }

    /// The record of bank `id`, if it exists.
    pub fn get_sampler_bank(&self, bank_id: &str) -> (r: Result<Option<SamplerBankRecord>, LibraryError>)
        ensures
            r matches Ok(o) && o == self.bank_of(bank_id@),
    {
        match self.bank_position(bank_id) {
            Some(k) => Ok(Some(self.banks[k].record.clone())),
            None => Ok(None),
        }
    }

    /// Create a bank named `name` (trimmed; an empty name is refused) at the
    /// end of the sort order, with no pads assigned. Its id is `bank-` and the
    /// current time in nanoseconds; if a bank already has that id the creation
    /// is refused. It succeeds whenever the name is not empty and no bank id
    /// starts with `bank-`.
    pub fn create_sampler_bank(&mut self, name: &str, play_mode: Option<SamplerPlayMode>) -> (r:
        Result<SamplerBankRecord, LibraryError>)
        requires
            old(self).wf(),
        ensures
            final(self).wf(),
            final(self).same_but_banks(&*old(self)),
            exists|id: Seq<char>|
                #![trigger old(self).bank_created(&*final(self), id, name@, play_mode, r)]
                starts_with(id, "bank-"@) && old(self).bank_created(&*final(self), id, name@, play_mode, r),
            trim(name@).len() > 0 && (forall|i: int|
                0 <= i < old(self).banks@.len() ==> !starts_with(
                    #[trigger] old(self).banks@[i].record.id@,
                    "bank-"@,
                )) ==> r is Ok,
    {
        let id = new_bank_id();
        let ghost gid = id@;
        proof {
            if trim(name@).len() > 0 && (forall|i: int|
                0 <= i < self.banks@.len() ==> !starts_with(#[trigger] self.banks@[i].record.id@, "bank-"@)) {
                lemma_find_id(bank_ids(self.banks@), gid, 0);
                let k = find_id(bank_ids(self.banks@), gid, 0);
                if k >= 0 {
                    assert(bank_ids(self.banks@)[k] == self.banks@[k].record.id@);
                }
            }
        }
        let r = self.insert_sampler_bank(id, name, play_mode);
        proof {
            assert(old(self).bank_created(&*self, gid, name@, play_mode, r));
        }
        r
    }

    /// Create bank `id` named `name` (trimmed; an empty name is refused) at
    /// the end of the sort order, with no pads assigned; refused when a bank
    /// already has that id.
    pub fn insert_sampler_bank(&mut self, id: String, name: &str, play_mode: Option<SamplerPlayMode>) -> (r:
        Result<SamplerBankRecord, LibraryError>)
        requires
            old(self).wf(),
        ensures
            final(self).wf(),
            final(self).same_but_banks(&*old(self)),
            old(self).bank_created(&*final(self), id@, name@, play_mode, r),
            r is Err <==> (trim(name@).len() == 0 || old(self).bank_pos(id@) >= 0),
    {
        let cs = chars_of(name);
        let t = trim_chars(cs.as_slice());
        if t.len() == 0 {
            return Err(
                LibraryError::Backend { backend: "sampler", message: owned("bank name must not be empty") },
            );
        }
        if self.bank_position(id.as_str()).is_some() {
            let mut m = owned("sampler bank id already exists: ");
            crate::text::push_str(&mut m, id.as_str());
            return Err(LibraryError::Backend { backend: "sampler", message: m });
        }
        let rec = SamplerBankRecord {
            id,
            name: string_of(t.as_slice()),
            play_mode,
            sort_index: self.banks.len() as i32,
        };
        let mut pads: Vec<Option<SamplerSlotRecord>> = Vec::new();
        let mut i: usize = 0;
        while i < BANK_SIZE
            invariant
                i <= BANK_SIZE,
                pads@ == empty_slots::<SamplerSlotRecord>(i as nat),
            decreases BANK_SIZE - i,
        {
            pads.push(None);
            assert(pads@ =~= empty_slots::<SamplerSlotRecord>((i + 1) as nat));
            i = i + 1;
        }
        let out = rec.clone();
        let ghost old_ids = bank_ids(self.banks@);
        proof {
            lemma_find_id(old_ids, rec.id@, 0);
        }
        self.banks.push(BankEntry { record: rec, slots: pads });
        proof {
            assert(bank_ids(self.banks@) =~= old_ids.push(out.id@));
            lemma_find_id_push(old_ids, out.id@, out.id@);
            assert forall|b: Seq<char>|
                #![auto]
                b != out.id@ implies self.bank_of(b) == old(self).bank_of(b) && self.pads_of(b)
                    == old(self).pads_of(b) by {
                lemma_find_id_push(old_ids, out.id@, b);
                lemma_find_id(old_ids, b, 0);
            }
            assert forall|i: int, j: int|
                0 <= i < j < self.banks@.len() implies #[trigger] self.banks@[i].record.id@
                    != #[trigger] self.banks@[j].record.id@ by {
                if j == self.banks@.len() - 1 {
                    assert(old_ids[i] == self.banks@[i].record.id@);
                }
            }
        }
        Ok(out)
    }

    /// Rename a bank (name trimmed; an empty name is refused) and set its play
    /// mode. Refused when the bank does not exist.
    #[verifier::spinoff_prover]
    pub fn update_sampler_bank(&mut self, bank_id: &str, name: &str, play_mode: Option<SamplerPlayMode>) -> (r:
        Result<(), LibraryError>)
        requires
            old(self).wf(),
        ensures
            final(self).wf(),
            final(self).same_but_banks(&*old(self)),
            trim(name@).len() == 0 ==> is_backend_error(r, "sampler"@, "bank name must not be empty"@)
                && final(self).banks@ == old(self).banks@,
            trim(name@).len() > 0 && old(self).bank_pos(bank_id@) < 0 ==> is_backend_error(
                r,
                "sampler"@,
                "sampler bank not found: "@ + bank_id@,
            ) && final(self).banks@ == old(self).banks@,
            trim(name@).len() > 0 && old(self).bank_pos(bank_id@) >= 0 ==> {
                let before = old(self).bank_of(bank_id@)->0;
                let after = final(self).bank_of(bank_id@);
                &&& r is Ok
                &&& after is Some
                &&& after->0.id == before.id
                &&& after->0.name@ == trim(name@)
                &&& after->0.play_mode == play_mode
                &&& after->0.sort_index == before.sort_index
            },
            forall|b: Seq<char>| #![auto] b != bank_id@ ==> final(self).bank_of(b) == old(self).bank_of(b),
            forall|b: Seq<char>| #![auto] final(self).pads_of(b) == old(self).pads_of(b),
    {
        let cs = chars_of(name);
        let t = trim_chars(cs.as_slice());
        if t.len() == 0 {
            return Err(
                LibraryError::Backend { backend: "sampler", message: owned("bank name must not be empty") },
            );
        }
        let k = match self.bank_position(bank_id) {
            Some(k) => k,
            None => {
                return Err(Self::bank_not_found(bank_id));
            },
        };
        let mut b = self.banks.remove(k);
        b.record.name = string_of(t.as_slice());
        b.record.play_mode = play_mode;
        self.banks.insert(k, b);
        proof {
            assert(bank_ids(self.banks@) =~= bank_ids(old(self).banks@));
            lemma_find_id(bank_ids(old(self).banks@), bank_id@, 0);
            assert forall|b2: Seq<char>|
                #![auto]
                b2 != bank_id@ implies self.bank_of(b2) == old(self).bank_of(b2) by {
                lemma_find_id(bank_ids(old(self).banks@), b2, 0);
            }
            assert forall|b2: Seq<char>| #![auto] self.pads_of(b2) == old(self).pads_of(b2) by {
                lemma_find_id(bank_ids(old(self).banks@), b2, 0);
            }
            assert forall|i: int| 0 <= i < self.banks@.len() implies pads_wf(#[trigger] self.banks@[i].slots@) by {
                assert(pads_wf(old(self).banks@[i].slots@));
            }
            assert forall|i: int, j: int|
                0 <= i < j < self.banks@.len() implies #[trigger] self.banks@[i].record.id@
                    != #[trigger] self.banks@[j].record.id@ by {
                assert(self.banks@[i].record.id@ == old(self).banks@[i].record.id@);
                assert(self.banks@[j].record.id@ == old(self).banks@[j].record.id@);
            }
        }
        Ok(())
    }

    /// Load the saved hot cues of a track, in slot order.
    pub fn list_track_hot_cues(&self, id: &TrackId) -> (r: Result<Vec<HotCueRecord>, LibraryError>)
        requires
            self.wf(),
        ensures
            r matches Ok(v) && v@ == listed(self.cues_of(id.0@)),
    {
        let mut out: Vec<HotCueRecord> = Vec::new();
        match self.deck_position(id.as_str()) {
            Some(k) => {
                let cues = &self.decks[k].hot_cues;
                assert(cues_wf(self.decks@[k as int].hot_cues@));
                let mut s: usize = 0;
                while s < cues.len()
                    invariant
                        s <= cues@.len(),
                        out@ == listed(cues@.take(s as int)),
                    decreases cues.len() - s,
                {
                    assert(cues@.take(s + 1).drop_last() =~= cues@.take(s as int));
                    match &cues[s] {
                        Some(c) => {
                            out.push(c.clone());
                        },
                        None => {},
                    }
                    s = s + 1;
                }
                assert(cues@.take(cues.len() as int) =~= cues@);
            },
            None => {
                proof {
                    lemma_listed_empty::<HotCueRecord>(DECK_SLOTS as nat);
                }
            },
        }
        Ok(out)
    }

    /// Load the saved loops of a track, in slot order.
    pub fn list_track_loops(&self, id: &TrackId) -> (r: Result<Vec<LoopRecord>, LibraryError>)
        requires
            self.wf(),
        ensures
            r matches Ok(v) && v@ == listed(self.loops_of(id.0@)),
    {
        let mut out: Vec<LoopRecord> = Vec::new();
        match self.deck_position(id.as_str()) {
            Some(k) => {
                let loops = &self.decks[k].loops;
                let mut s: usize = 0;
                while s < loops.len()
                    invariant
                        s <= loops@.len(),
                        out@ == listed(loops@.take(s as int)),
                    decreases loops.len() - s,
                {
                    assert(loops@.take(s + 1).drop_last() =~= loops@.take(s as int));
                    match &loops[s] {
                        Some(c) => {
                            out.push(c.clone());
                        },
                        None => {},
                    }
                    s = s + 1;
                }
                assert(loops@.take(loops.len() as int) =~= loops@);
            },
            None => {
                proof {
                    lemma_listed_empty::<LoopRecord>(DECK_SLOTS as nat);
                }
            },
        }
        Ok(out)
    }
}

/// The row `row` with its last-used sampler bank cleared when that bank is `b`.
pub open spec fn unlink_bank(row: TrackRow, b: Seq<char>) -> TrackRow {
    if row.last_sampler_bank_id matches Some(s) && s@ == b {
        TrackRow {
            id: row.id,
            source_type: row.source_type,
            source_ref: row.source_ref,
            provider: row.provider,
            metadata: row.metadata,
            last_sampler_bank_id: None,
        }
    } else {
        row
    }
}

/// The characters of an optional string.
pub open spec fn opt_chars(o: Option<String>) -> Option<Seq<char>> {
    match o {
        Some(s) => Some(s@),
        None => None,
    }
}

impl LibraryManager {
    /// The stored row of track `t`, if any.
    pub open spec fn track_of(&self, t: Seq<char>) -> Option<TrackRow> {
        let k = self.track_pos(t);
        if k >= 0 {
            Some(self.tracks@[k])
        } else {
            None
        }
    }

    /// `t` names a track that is not in the pool.
    pub open spec fn names_missing_track(&self, t: Option<String>) -> bool {
        match t {
            Some(s) => self.track_pos(s@) < 0,
            None => false,
        }
    }

    /// `b` names a sampler bank that does not exist.
    pub open spec fn names_missing_bank(&self, b: Option<&str>) -> bool {
        match b {
            Some(s) => self.bank_pos(s@) < 0,
            None => false,
        }
    }

    /// Everything but the track pool is the same in `self` and `other`.
    pub open spec fn same_but_tracks(&self, other: &Self) -> bool {
        &&& self.config == other.config
        &&& self.collections@ == other.collections@
        &&& self.entries@ == other.entries@
        &&& self.decks@ == other.decks@
        &&& self.banks@ == other.banks@
    }

    pub(crate) fn track_position(&self, id: &str) -> (k: Option<usize>)
        ensures
            match k {
                Some(i) => i < self.tracks@.len() && self.track_pos(id@) == i,
                None => self.track_pos(id@) == -1,
            },
    {
        let ids = chars_of(id);
        let mut i: usize = 0;
        while i < self.tracks.len()
            invariant
                i <= self.tracks@.len(),
                ids@ == id@,
                find_id(track_ids(self.tracks@), id@, 0) == find_id(track_ids(self.tracks@), id@, i as int),
            decreases self.tracks.len() - i,
        {
            let c = chars_of(self.tracks[i].id.as_str());
            if chars_eq(c.as_slice(), ids.as_slice()) {
                return Some(i);
            }
            i = i + 1;
        }
        None
    }

    /// The error a write that names a missing row gets from the database.
    fn foreign_key_error() -> (e: LibraryError)
        ensures
            e matches LibraryError::Backend { backend, message } && backend@ == "library"@
                && message@ == "FOREIGN KEY constraint failed"@,
    {
        LibraryError::Backend { backend: "library", message: owned("FOREIGN KEY constraint failed") }
    }

    /// Insert the row of track `id`, or update its source when it exists (the
    /// last-used sampler bank is kept).
    fn upsert_track(
        &mut self,
        id: &str,
        source_type: &str,
        source_ref: &str,
        provider: Option<String>,
        metadata: TrackMetadata,
    )
        requires
            old(self).wf(),
        ensures
            final(self).wf(),
            final(self).same_but_tracks(&*old(self)),
            final(self).track_of(id@) matches Some(row) && row.id@ == id@ && row.source_type@
                == source_type@ && row.source_ref@ == source_ref@ && row.provider == provider
                && row.metadata == metadata && row.last_sampler_bank_id == (match old(self).track_of(id@) {
                Some(o) => o.last_sampler_bank_id,
                None => None,
            }),
            forall|t: Seq<char>| #![auto] t != id@ ==> final(self).track_of(t) == old(self).track_of(t),
    {
        let ghost old_ids = track_ids(self.tracks@);
        match self.track_position(id) {
            Some(k) => {
                let mut row = self.tracks.remove(k);
                row.source_type = owned(source_type);
                row.source_ref = owned(source_ref);
                row.provider = provider;
                row.metadata = metadata;
                self.tracks.insert(k, row);
                proof {
                    lemma_find_id(old_ids, id@, 0);
                    assert(track_ids(self.tracks@) =~= old_ids);
                    assert forall|t: Seq<char>| #![auto] t != id@ implies self.track_of(t) == old(self).track_of(t) by {
                        lemma_find_id(old_ids, t, 0);
                    }
                }
            },
            None => {
                let row = TrackRow {
                    id: owned(id),
                    source_type: owned(source_type),
                    source_ref: owned(source_ref),
                    provider,
                    metadata,
                    last_sampler_bank_id: None,
                };
                self.tracks.push(row);
                proof {
                    assert(track_ids(self.tracks@) =~= old_ids.push(id@));
                    lemma_find_id_push(old_ids, id@, id@);
                    assert forall|t: Seq<char>| #![auto] t != id@ implies self.track_of(t) == old(self).track_of(t) by {
                        lemma_find_id_push(old_ids, id@, t);
                        lemma_find_id(old_ids, t, 0);
                    }
                }
            },
        }
    }

    /// Insert or update a file track (its source is the path).
    pub fn upsert_file_track(&mut self, id: &TrackId, path: &str, metadata: &TrackMetadata) -> (r: Result<
        (),
        LibraryError,
    >)
        requires
            old(self).wf(),
        ensures
            r is Ok,
            final(self).wf(),
            final(self).same_but_tracks(&*old(self)),
            final(self).track_of(id.0@) matches Some(row) && row.source_type@ == "file"@
                && row.source_ref@ == path@ && row.provider is None && row.metadata == *metadata
                && row.last_sampler_bank_id
                == (match old(self).track_of(id.0@) {
                Some(o) => o.last_sampler_bank_id,
                None => None,
            }),
            forall|t: Seq<char>| #![auto] t != id.0@ ==> final(self).track_of(t) == old(self).track_of(t),
    {
        self.upsert_track(id.as_str(), "file", path, None, metadata.clone());
        Ok(())
    }

    /// Insert or update a stream track (its source is the URI).
    pub fn upsert_stream_track(
        &mut self,
        id: &TrackId,
        uri: &str,
        metadata: &TrackMetadata,
        provider: Option<&str>,
    ) -> (r: Result<
        (),
        LibraryError,
    >)
        requires
            old(self).wf(),
        ensures
            r is Ok,
            final(self).wf(),
            final(self).same_but_tracks(&*old(self)),
            final(self).track_of(id.0@) matches Some(row) && row.source_type@ == "stream"@
                && row.source_ref@ == uri@ && row.metadata == *metadata && opt_chars(row.provider) == (match provider {
                Some(p) => Some(p@),
                None => None,
            }) && row.last_sampler_bank_id == (match old(self).track_of(id.0@) {
                Some(o) => o.last_sampler_bank_id,
                None => None,
            }),
            forall|t: Seq<char>| #![auto] t != id.0@ ==> final(self).track_of(t) == old(self).track_of(t),
    {
        let p = match provider {
            Some(p) => Some(owned(p)),
            None => None,
        };
        self.upsert_track(id.as_str(), "stream", uri, p, metadata.clone());
        Ok(())
    }

    /// A copy of the stored row of a track, if it exists.
    pub fn get_track_row(&self, id: &TrackId) -> (r: Result<Option<TrackRow>, LibraryError>)
        ensures
            r matches Ok(o) && o == self.track_of(id.0@),
    {
        match self.track_position(id.as_str()) {
            Some(k) => {
                let row = &self.tracks[k];
                Ok(
                    Some(
                        TrackRow {
                            id: row.id.clone(),
                            source_type: row.source_type.clone(),
                            source_ref: row.source_ref.clone(),
                            provider: copy_opt_string(&row.provider),
                            metadata: row.metadata.clone(),
                            last_sampler_bank_id: copy_opt_string(&row.last_sampler_bank_id),
                        },
                    ),
                )
            },
            None => Ok(None),
        }
    }

    /// Whether a track with this id is in the pool.
    pub fn track_exists(&self, id: &TrackId) -> (r: Result<bool, LibraryError>)
        ensures
            r matches Ok(b) && b == (self.track_pos(id.0@) >= 0),
    {
        Ok(self.track_position(id.as_str()).is_some())
    }

    /// Track fields needed to write a manual beat grid: the duration (0 when
    /// unknown, never negative), the key, and the sample rate (48 kHz when
    /// unknown). Refused for an unknown track.
    pub fn track_beat_grid_context(&self, track_id: &TrackId) -> (r: Result<TrackBeatGridContext, LibraryError>)
        ensures
            self.track_pos(track_id.0@) < 0 ==> is_backend_error(
                r,
                "library"@,
                "track not found: "@ + track_id.0@,
            ),
            self.track_of(track_id.0@) matches Some(row) ==> r matches Ok(ctx) && ctx.duration_ms == (
            match row.metadata.duration_ms {
                Some(d) => if d > 0 {
                    d
                } else {
                    0
                },
                None => 0,
            }) && ctx.key == row.metadata.key && ctx.sample_rate == (match row.metadata.sample_rate {
                Some(s) => s as i32,
                None => 48000,
            }),
    {
        match self.track_position(track_id.as_str()) {
            Some(k) => {
                let m = &self.tracks[k].metadata;
                let duration_ms: i32 = match m.duration_ms {
                    Some(d) => if d > 0 {
                        d
                    } else {
                        0
                    },
                    None => 0,
                };
                let sample_rate: i32 = match m.sample_rate {
                    Some(s) => s as i32,
                    None => 48000,
                };
                Ok(TrackBeatGridContext { duration_ms, key: copy_opt_string(&m.key), sample_rate })
            },
            None => {
                let mut msg = owned("track not found: ");
                crate::text::push_str(&mut msg, track_id.as_str());
                Err(LibraryError::Backend { backend: "library", message: msg })
            },
        }
    }

    /// Bank last used with this track (none for an unknown track).
    pub fn get_track_last_sampler_bank_id(&self, id: &TrackId) -> (r: Result<Option<String>, LibraryError>)
        ensures
            r matches Ok(o) && o == (match self.track_of(id.0@) {
                Some(row) => row.last_sampler_bank_id,
                None => None,
            }),
    {
        match self.track_position(id.as_str()) {
            Some(k) => Ok(copy_opt_string(&self.tracks[k].last_sampler_bank_id)),
            None => Ok(None),
        }
    }

    /// Remember which sampler bank was active when a pad was triggered for
    /// this track. Refused for an unknown track, and for a bank that does not
    /// exist.
    pub fn set_track_last_sampler_bank_id(&mut self, id: &TrackId, bank_id: Option<&str>) -> (r: Result<
        (),
        LibraryError,
    >)
        requires
            old(self).wf(),
        ensures
            final(self).wf(),
            final(self).same_but_tracks(&*old(self)),
            old(self).track_pos(id.0@) < 0 ==> is_backend_error(
                r,
                "sampler"@,
                "track not found: "@ + id.0@,
            ) && final(self).tracks@ == old(self).tracks@,
            old(self).track_pos(id.0@) >= 0 && old(self).names_missing_bank(bank_id) ==> is_backend_error(r, "library"@, "FOREIGN KEY constraint failed"@)
                && final(self).tracks@ == old(self).tracks@,
            old(self).track_pos(id.0@) >= 0 && !old(self).names_missing_bank(bank_id) ==> {
                let before = old(self).track_of(id.0@)->0;
                let after = final(self).track_of(id.0@);
                &&& r is Ok
                &&& after matches Some(row) && row.id == before.id && row.source_type == before.source_type
                    && row.source_ref == before.source_ref && row.provider == before.provider
                    && row.metadata == before.metadata
                &&& opt_chars(after->0.last_sampler_bank_id) == (match bank_id {
                    Some(b) => Some(b@),
                    None => None,
                })
            },
            forall|t: Seq<char>| #![auto] t != id.0@ ==> final(self).track_of(t) == old(self).track_of(t),
    {
        let k = match self.track_position(id.as_str()) {
            Some(k) => k,
            None => {
                let mut m = owned("track not found: ");
                crate::text::push_str(&mut m, id.as_str());
                return Err(LibraryError::Backend { backend: "sampler", message: m });
            },
        };
        let value = match bank_id {
            Some(b) => {
                if self.bank_position(b).is_none() {
                    return Err(Self::foreign_key_error());
                }
                Some(owned(b))
            },
            None => None,
        };
        let ghost old_ids = track_ids(self.tracks@);
        let mut row = self.tracks.remove(k);
        row.last_sampler_bank_id = value;
        self.tracks.insert(k, row);
        proof {
            lemma_find_id(old_ids, id.0@, 0);
            assert(track_ids(self.tracks@) =~= old_ids);
            assert forall|t: Seq<char>| #![auto] t != id.0@ implies self.track_of(t) == old(self).track_of(t) by {
                lemma_find_id(old_ids, t, 0);
            }
        }
        Ok(())
    }
}

impl LibraryManager {
    /// Set the ISRC of track `id`; nothing happens for an unknown track.
    pub fn update_track_isrc(&mut self, id: &TrackId, isrc: Option<String>)
        requires
            old(self).wf(),
        ensures
            final(self).wf(),
            final(self).same_but_tracks(&*old(self)),
            old(self).track_pos(id.0@) < 0 ==> final(self).tracks@ == old(self).tracks@,
            old(self).track_pos(id.0@) >= 0 ==> {
                let before = old(self).track_of(id.0@)->0;
                final(self).track_of(id.0@) == Some(
                    TrackRow { metadata: TrackMetadata { isrc: isrc, ..before.metadata }, ..before },
                )
            },
            forall|t: Seq<char>| #![auto] t != id.0@ ==> final(self).track_of(t) == old(self).track_of(t),
    {
        let k = match self.track_position(id.as_str()) {
            Some(k) => k,
            None => {
                return;
            },
        };
        let ghost old_ids = track_ids(self.tracks@);
        let mut row = self.tracks.remove(k);
        row.metadata.isrc = isrc;
        self.tracks.insert(k, row);
        proof {
            lemma_find_id(old_ids, id.0@, 0);
            assert(track_ids(self.tracks@) =~= old_ids);
            assert forall|t: Seq<char>| #![auto] t != id.0@ implies self.track_of(t) == old(self).track_of(t) by {
                lemma_find_id(old_ids, t, 0);
            }
        }
    }
}

impl LibraryManager {
    /// Delete a sampler bank with its pads; tracks that last used it forget
    /// it. Refused when the bank does not exist.
    #[verifier::spinoff_prover]
    pub fn delete_sampler_bank(&mut self, bank_id: &str) -> (r: Result<(), LibraryError>)
        requires
            old(self).wf(),
        ensures
            final(self).wf(),
            final(self).config == old(self).config,
            final(self).collections@ == old(self).collections@,
            final(self).entries@ == old(self).entries@,
            final(self).decks@ == old(self).decks@,
            old(self).bank_pos(bank_id@) < 0 ==> is_backend_error(
                r,
                "sampler"@,
                "sampler bank not found: "@ + bank_id@,
            ) && final(self).banks@ == old(self).banks@ && final(self).tracks@ == old(self).tracks@,
            old(self).bank_pos(bank_id@) >= 0 ==> {
                &&& r is Ok
                &&& final(self).bank_of(bank_id@) is None
                &&& final(self).pads_of(bank_id@) == empty_slots::<SamplerSlotRecord>(BANK_SIZE as nat)
                &&& final(self).banks@.len() == old(self).banks@.len() - 1
                &&& final(self).tracks@ == old(self).tracks@.map_values(
                    |row: TrackRow| unlink_bank(row, bank_id@),
                )
            },
            forall|b: Seq<char>|
                #![auto]
                b != bank_id@ ==> final(self).bank_of(b) == old(self).bank_of(b) && final(self).pads_of(b)
                    == old(self).pads_of(b),
    {
        let k = match self.bank_position(bank_id) {
            Some(k) => k,
            None => {
                return Err(Self::bank_not_found(bank_id));
            },
        };
        let ghost old_ids = bank_ids(self.banks@);
        let ghost old_banks = self.banks@;
        self.banks.remove(k);
        proof {
            assert(bank_ids(self.banks@) =~= old_ids.remove(k as int));
            lemma_find_id(old_ids, bank_id@, 0);
            lemma_find_id_remove(old_ids, k as int, bank_id@);
            assert forall|b: Seq<char>|
                #![auto]
                b != bank_id@ implies self.bank_of(b) == old(self).bank_of(b) && self.pads_of(b) == old(
                    self,
                ).pads_of(b) by {
                lemma_find_id_remove(old_ids, k as int, b);
                lemma_find_id(old_ids, b, 0);
            }
            assert forall|i: int| 0 <= i < self.banks@.len() implies pads_wf(#[trigger] self.banks@[i].slots@) by {
                if i < k {
                    assert(self.banks@[i] == old_banks[i]);
                } else {
                    assert(self.banks@[i] == old_banks[i + 1]);
                }
            }
            assert forall|i: int, j: int|
                0 <= i < j < self.banks@.len() implies #[trigger] self.banks@[i].record.id@
                    != #[trigger] self.banks@[j].record.id@ by {
                let i2 = if i < k { i } else { i + 1 };
                let j2 = if j < k { j } else { j + 1 };
                assert(self.banks@[i] == old_banks[i2]);
                assert(self.banks@[j] == old_banks[j2]);
                assert(old_banks[i2].record.id@ != old_banks[j2].record.id@);
            }
        }
        let ids = chars_of(bank_id);
        let mut i: usize = 0;
        while i < self.tracks.len()
            invariant
                i <= self.tracks@.len(),
                ids@ == bank_id@,
                self.tracks@.len() == old(self).tracks@.len(),
                forall|j: int| 0 <= j < i ==> self.tracks@[j] == unlink_bank(#[trigger] old(self).tracks@[j], bank_id@),
                forall|j: int| i <= j < self.tracks@.len() ==> self.tracks@[j] == old(self).tracks@[j],
                self.config == old(self).config,
                self.collections@ == old(self).collections@,
                self.entries@ == old(self).entries@,
                self.decks@ == old(self).decks@,
                self.banks@.len() == old(self).banks@.len() - 1,
                self.wf(),
                forall|b: Seq<char>|
                    #![auto]
                    b != bank_id@ ==> self.bank_of(b) == old(self).bank_of(b) && self.pads_of(b) == old(
                        self,
                    ).pads_of(b),
                self.bank_pos(bank_id@) == -1,
            decreases self.tracks.len() - i,
        {
            let hit = match &self.tracks[i].last_sampler_bank_id {
                Some(s) => {
                    let c = chars_of(s.as_str());
                    chars_eq(c.as_slice(), ids.as_slice())
                },
                None => false,
            };
            if hit {
                let mut row = self.tracks.remove(i);
                row.last_sampler_bank_id = None;
                self.tracks.insert(i, row);
            }
            i = i + 1;
        }
        proof {
            assert(self.tracks@ =~= old(self).tracks@.map_values(|row: TrackRow| unlink_bank(row, bank_id@)));
        }
        Ok(())
    }
}

/// Finding an id after one position was removed from a list of distinct ids.
pub proof fn lemma_find_id_remove(ids: Seq<Seq<char>>, k: int, t: Seq<char>)
    requires
        0 <= k < ids.len(),
        forall|i: int, j: int| 0 <= i < j < ids.len() ==> #[trigger] ids[i] != #[trigger] ids[j],
    ensures
        t == ids[k] ==> find_id(ids.remove(k), t, 0) == -1,
        t != ids[k] ==> find_id(ids.remove(k), t, 0) == (if find_id(ids, t, 0) < 0 {
            -1
        } else if find_id(ids, t, 0) < k {
            find_id(ids, t, 0)
        } else {
            find_id(ids, t, 0) - 1
        }),
{
    let r = ids.remove(k);
    assert forall|i: int| 0 <= i < r.len() implies #[trigger] r[i] == (if i < k { ids[i] } else { ids[i + 1] }) by {}
    lemma_find_id(ids, t, 0);
    lemma_find_id(r, t, 0);
    let a = find_id(ids, t, 0);
    let b = find_id(r, t, 0);
    if t == ids[k] {
        if b >= 0 {
            let b2 = if b < k { b } else { b + 1 };
            assert(r[b] == ids[b2]);
        }
    } else {
        if a >= 0 {
            let a2 = if a < k { a } else { a - 1 };
            assert(a != k);
            assert(r[a2] == t);
            if b >= 0 && b < a2 {
                let b2 = if b < k { b } else { b + 1 };
                assert(r[b] == ids[b2]);
            }
        } else {
            if b >= 0 {
                let b2 = if b < k { b } else { b + 1 };
                assert(r[b] == ids[b2]);
            }
        }
    }
}

/// Bank `a` is listed before bank `b`: by sort index, then by name.
pub open spec fn bank_before(a: SamplerBankRecord, b: SamplerBankRecord) -> bool {
    a.sort_index < b.sort_index || (a.sort_index == b.sort_index && chars_lt(a.name@, b.name@))
}

/// `bank_before` is a strict order that leaves apart only banks with the same
/// sort index and name.
pub proof fn lemma_bank_before_order(a: SamplerBankRecord, b: SamplerBankRecord, c: SamplerBankRecord)
    ensures
        !bank_before(a, a),
        bank_before(a, b) ==> !bank_before(b, a),
        !bank_before(a, b) && !bank_before(b, a) ==> a.sort_index == b.sort_index && a.name@ == b.name@,
        bank_before(a, b) && bank_before(b, c) ==> bank_before(a, c),
        !bank_before(a, b) && !bank_before(b, c) ==> !bank_before(a, c),
{
    lemma_chars_lt_order(a.name@, b.name@, c.name@);
    lemma_chars_lt_order(b.name@, c.name@, a.name@);
    lemma_chars_lt_order(c.name@, a.name@, b.name@);
    lemma_chars_lt_order(a.name@, c.name@, b.name@);
    lemma_chars_lt_order(c.name@, b.name@, a.name@);
    lemma_chars_lt_order(b.name@, a.name@, c.name@);
}

impl LibraryManager {
    /// Every sampler bank, ordered by sort index and then by name (banks that
    /// agree on both in any order).
    pub fn list_sampler_banks(&self) -> (r: Result<Vec<SamplerBankRecord>, LibraryError>)
        ensures
            r matches Ok(v) && v@.to_multiset() == self.banks@.map_values(
                |b: BankEntry| b.record,
            ).to_multiset() && forall|i: int, j: int|
                0 <= i < j < v@.len() ==> !bank_before(#[trigger] v@[j], #[trigger] v@[i]),
    {
        let mut out: Vec<SamplerBankRecord> = Vec::new();
        let mut i: usize = 0;
        assert(self.banks@.take(0).map_values(|b: BankEntry| b.record) =~= out@);
        while i < self.banks.len()
            invariant
                i <= self.banks@.len(),
                out@.to_multiset() == self.banks@.take(i as int).map_values(
                    |b: BankEntry| b.record,
                ).to_multiset(),
                forall|a: int, b: int|
                    0 <= a < b < out@.len() ==> !bank_before(#[trigger] out@[b], #[trigger] out@[a]),
            decreases self.banks.len() - i,
        {
            let x = self.banks[i].record.clone();
            let xname = chars_of(x.name.as_str());
            let mut p: usize = 0;
            while p < out.len()
                invariant
                    p <= out@.len(),
                    xname@ == x.name@,
                    forall|q: int| 0 <= q < p ==> !bank_before(x, #[trigger] out@[q]),
                ensures
                    p <= out@.len(),
                    forall|q: int| 0 <= q < p ==> !bank_before(x, #[trigger] out@[q]),
                    p < out@.len() ==> bank_before(x, out@[p as int]),
                decreases out.len() - p,
            {
                let y = &out[p];
                let before_y = if x.sort_index != y.sort_index {
                    x.sort_index < y.sort_index
                } else {
                    let yname = chars_of(y.name.as_str());
                    chars_less(xname.as_slice(), yname.as_slice())
                };
                if before_y {
                    break;
                }
                p = p + 1;
            }
            let ghost before = out@;
            proof {
                assert forall|a: int, b: int|
                    0 <= a < b < before.len() + 1 implies !bank_before(
                    #[trigger] before.insert(p as int, x)[b],
                    #[trigger] before.insert(p as int, x)[a],
                ) by {
                    let n = before.insert(p as int, x);
                    if a < p && b == p {
                        assert(n[a] == before[a] && n[b] == x);
                    } else if a == p && b > p {
                        assert(n[a] == x && n[b] == before[b - 1]);
                        lemma_bank_before_order(before[b - 1], before[p as int], x);
                        lemma_bank_before_order(x, before[p as int], before[b - 1]);
                        if b - 1 > p {
                            assert(!bank_before(before[b - 1], before[p as int]));
                        }
                    } else if a < p && b < p {
                        assert(n[a] == before[a] && n[b] == before[b]);
                    } else if a < p && b > p {
                        assert(n[a] == before[a] && n[b] == before[b - 1]);
                    } else {
                        assert(n[a] == before[a - 1] && n[b] == before[b - 1]);
                    }
                }
                assert(self.banks@.take(i + 1).map_values(|b: BankEntry| b.record)
                    =~= self.banks@.take(i as int).map_values(|b: BankEntry| b.record).push(
                    self.banks@[i as int].record,
                ));
            }
            let ghost xr = x;
            out.insert(p, x);
            proof {
                let prev = self.banks@.take(i as int).map_values(|b: BankEntry| b.record);
                assert(out@ == before.insert(p as int, xr));
                to_multiset_insert(before, p as int, xr);
                to_multiset_build(prev, xr);
            }
            i = i + 1;
        }
        assert(self.banks@.take(self.banks@.len() as int) =~= self.banks@);
        Ok(out)
    }
}

/// `std::time::SystemTime`, carried opaquely.
#[verifier::external_type_specification]
#[verifier::external_body]
pub struct ExSystemTime(std::time::SystemTime);

/// `SystemTime::now`: the clock's current time. Depends on the clock: nothing
/// is promised.
#[verifier::external_body]
fn system_now() -> (t: std::time::SystemTime) {
    std::time::SystemTime::now()
}

/// `SystemTime::duration_since(UNIX_EPOCH)`: the time elapsed since the Unix
/// epoch, `None` for a time before it. Nothing is stated of the duration.
#[verifier::external_body]
fn since_unix_epoch(t: &std::time::SystemTime) -> (d: Option<core::time::Duration>) {
    t.duration_since(std::time::UNIX_EPOCH).ok()
}

/// `Duration::as_nanos`: the whole duration in nanoseconds. Nothing is stated
/// of the number.
#[verifier::external_body]
fn duration_nanos(d: &core::time::Duration) -> (n: u128) {
    d.as_nanos()
}

/// Current time since the Unix epoch, in nanoseconds (0 if the clock is
/// before the epoch).
pub(crate) fn unix_nanos() -> (n: u128) {
    let now = system_now();
    match since_unix_epoch(&now) {
        Some(d) => duration_nanos(&d),
        None => 0,
    }
}

/// A new bank id: `bank-` and the current time in nanoseconds.
fn new_bank_id() -> (id: String)
    ensures
        starts_with(id@, "bank-"@),
{
    let mut id = owned("bank-");
    let ghost prefix = id@;
    let n = unix_nanos();
    crate::text::push_dec_u128(&mut id, n);
    proof {
        reveal_strlit("bank-");
        assert(id@.take(prefix.len() as int) =~= prefix);
    }
    id
}

/// Finding an id after one more position was appended.
pub proof fn lemma_find_id_push(ids: Seq<Seq<char>>, x: Seq<char>, t: Seq<char>)
    ensures
        find_id(ids.push(x), t, 0) == (if find_id(ids, t, 0) >= 0 {
            find_id(ids, t, 0)
        } else if x == t {
            ids.len() as int
        } else {
            -1
        }),
{
    let ids2 = ids.push(x);
    lemma_find_id(ids, t, 0);
    lemma_find_id(ids2, t, 0);
    let k = find_id(ids, t, 0);
    let k2 = find_id(ids2, t, 0);
    if k >= 0 {
        assert(ids2[k] == t);
        if k2 >= 0 && k2 < k {
            assert(ids2[k2] == ids[k2]);
        }
        if k2 == -1 {
            assert(ids2[k] == t);
        }
    } else {
        if k2 >= 0 && k2 < ids.len() {
            assert(ids2[k2] == ids[k2]);
        }
        if x == t && k2 == -1 {
            assert(ids2[ids.len() as int] == t);
        }
    }
}

/// No records are listed from empty slots.
pub proof fn lemma_listed_empty<R>(n: nat)
    ensures
        listed(empty_slots::<R>(n)).len() == 0,
    decreases n,
{
    if n > 0 {
        assert(empty_slots::<R>(n).drop_last() =~= empty_slots::<R>((n - 1) as nat));
        lemma_listed_empty::<R>((n - 1) as nat);
    }
}

} // verus!
