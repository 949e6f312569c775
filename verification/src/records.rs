//! Per-track performance data and sampler records.

use vstd::prelude::*;

verus! {

/// A copy of an optional string.
pub fn copy_opt_string(o: &Option<String>) -> (r: Option<String>)
    ensures
        r == *o,
{
    match o {
        Some(s) => Some(s.clone()),
        None => None,
    }
}

/// File-tag and basic audio metadata of a track: the text and integer fields
/// (tempo and gain figures are measured values and are kept by the app).
#[derive(Debug, PartialEq)]
pub struct TrackMetadata {
    pub title: Option<String>,
    pub artist: Option<String>,
    pub album: Option<String>,
    pub genre: Option<String>,
    /// Musical key (e.g. `"Am"`, `"F#m"`, `"Bb"`).
    pub key: Option<String>,
    pub duration_ms: Option<i32>,
    pub sample_rate: Option<u32>,
    pub channels: Option<u16>,
    pub bitrate_kbps: Option<u32>,
    pub isrc: Option<String>,
}

impl Default for TrackMetadata {
    fn default() -> (m: Self)
        ensures
            m.title is None && m.artist is None && m.album is None && m.genre is None
                && m.key is None && m.duration_ms is None && m.sample_rate is None
                && m.channels is None && m.bitrate_kbps is None && m.isrc is None,
    {
        TrackMetadata {
            title: None,
            artist: None,
            album: None,
            genre: None,
            key: None,
            duration_ms: None,
            sample_rate: None,
            channels: None,
            bitrate_kbps: None,
            isrc: None,
        }
    }
}

impl Clone for TrackMetadata {
    fn clone(&self) -> (r: Self)
        ensures
            r == *self,
    {
        TrackMetadata {
            title: copy_opt_string(&self.title),
            artist: copy_opt_string(&self.artist),
            album: copy_opt_string(&self.album),
            genre: copy_opt_string(&self.genre),
            key: copy_opt_string(&self.key),
            duration_ms: self.duration_ms,
            sample_rate: self.sample_rate,
            channels: self.channels,
            bitrate_kbps: self.bitrate_kbps,
            isrc: copy_opt_string(&self.isrc),
        }
    }
}

/// A saved hot cue of a track.
#[derive(Debug, PartialEq)]
pub struct HotCueRecord {
    pub slot_index: u8,
    pub position_ms: i32,
    pub loop_length_beats: Option<i32>,
    pub color: Option<String>,
    pub label: Option<String>,
}

impl Clone for HotCueRecord {
    fn clone(&self) -> (r: Self)
        ensures
            r == *self,
    {
        HotCueRecord {
            slot_index: self.slot_index,
            position_ms: self.position_ms,
            loop_length_beats: self.loop_length_beats,
            color: copy_opt_string(&self.color),
            label: copy_opt_string(&self.label),
        }
    }
}

/// A saved loop of a track.
#[derive(Debug, PartialEq)]
pub struct LoopRecord {
    pub slot_index: u8,
    pub in_ms: i32,
    pub out_ms: i32,
    pub label: Option<String>,
    pub color: Option<String>,
}

impl Clone for LoopRecord {
    fn clone(&self) -> (r: Self)
        ensures
            r == *self,
    {
        LoopRecord {
            slot_index: self.slot_index,
            in_ms: self.in_ms,
            out_ms: self.out_ms,
            label: copy_opt_string(&self.label),
            color: copy_opt_string(&self.color),
        }
    }
}

/// Bank play mode override. `None` on a bank = inherit app settings.
#[derive(Clone, Copy, Debug, PartialEq, Eq, Structural)]
pub enum SamplerPlayMode {
    Oneshot,
    Hold,
    Loop,
}

/// Storage value of a play mode.
pub open spec fn play_mode_wire(m: SamplerPlayMode) -> Seq<char> {
    match m {
        SamplerPlayMode::Oneshot => "oneshot"@,
        SamplerPlayMode::Hold => "hold"@,
        SamplerPlayMode::Loop => "loop"@,
    }
}

impl SamplerPlayMode {
    /// Storage value (`oneshot`, `hold`, `loop`).
    pub fn as_str(self) -> (s: &'static str)
        ensures
            s@ == play_mode_wire(self),
    {
        match self {
            SamplerPlayMode::Oneshot => "oneshot",
            SamplerPlayMode::Hold => "hold",
            SamplerPlayMode::Loop => "loop",
        }
    }
}

/// A sampler bank.
#[derive(Debug, PartialEq)]
pub struct SamplerBankRecord {
    pub id: String,
    pub name: String,
    /// `None` = inherit settings.
    pub play_mode: Option<SamplerPlayMode>,
    pub sort_index: i32,
}

impl Clone for SamplerBankRecord {
    fn clone(&self) -> (r: Self)
        ensures
            r == *self,
    {
        SamplerBankRecord {
            id: self.id.clone(),
            name: self.name.clone(),
            play_mode: self.play_mode,
            sort_index: self.sort_index,
        }
    }
}

/// One pad of a sampler bank.
#[derive(Debug, PartialEq)]
pub struct SamplerSlotRecord {
    pub slot_index: u8,
    pub track_id: Option<String>,
    pub path: Option<String>,
    pub label: Option<String>,
}

impl Clone for SamplerSlotRecord {
    fn clone(&self) -> (r: Self)
        ensures
            r == *self,
    {
        SamplerSlotRecord {
            slot_index: self.slot_index,
            track_id: copy_opt_string(&self.track_id),
            path: copy_opt_string(&self.path),
            label: copy_opt_string(&self.label),
        }
    }
}

/// The present records of a run of slots, in slot order.
pub open spec fn listed<R>(slots: Seq<Option<R>>) -> Seq<R>
    decreases slots.len(),
{
    if slots.len() == 0 {
        seq![]
    } else {
        let p = listed(slots.drop_last());
        match slots.last() {
            Some(r) => p.push(r),
            None => p,
        }
    }
}

/// Every present record of `slots` sits at its own position, by `idx`.
pub open spec fn at_own_slots<R>(slots: Seq<Option<R>>, idx: spec_fn(R) -> int) -> bool {
    forall|q: int| 0 <= q < slots.len() && #[trigger] slots[q] is Some ==> idx(slots[q]->0) == q
}

/// Each listed record is the record of some slot, and each present slot's
/// record is listed.
pub proof fn lemma_listed_members<R>(slots: Seq<Option<R>>)
    ensures
        forall|k: int| 0 <= k < listed(slots).len() ==> exists|q: int|
            0 <= q < slots.len() && #[trigger] slots[q] == Some(#[trigger] listed(slots)[k]),
        forall|q: int| 0 <= q < slots.len() && (#[trigger] slots[q]) is Some ==> listed(slots).contains(slots[q]->0),
    decreases slots.len(),
{
    if slots.len() > 0 {
        let init = slots.drop_last();
        lemma_listed_members(init);
        let p = listed(init);
        assert forall|k: int| 0 <= k < listed(slots).len() implies exists|q: int|
            0 <= q < slots.len() && #[trigger] slots[q] == Some(#[trigger] listed(slots)[k]) by {
            if k < p.len() {
                let q = choose|q: int| 0 <= q < init.len() && #[trigger] init[q] == Some(p[k]);
                assert(slots[q] == init[q]);
            } else {
                assert(slots[slots.len() - 1] == Some(listed(slots)[k]));
            }
        }
        assert forall|q: int| 0 <= q < slots.len() && (#[trigger] slots[q]) is Some implies listed(slots).contains(
            slots[q]->0,
        ) by {
            if q < slots.len() - 1 {
                assert(init[q] == slots[q]);
                let k = choose|k: int| 0 <= k < p.len() && p[k] == slots[q]->0;
                assert(listed(slots)[k] == p[k]);
            } else {
                assert(listed(slots)[listed(slots).len() - 1] == slots[q]->0);
            }
        }
    }
}

/// A record saved into a slot is listed.
pub proof fn law_saved_slot_is_listed<R>(slots: Seq<Option<R>>, s: int, rec: R)
    requires
        0 <= s < slots.len(),
    ensures
        listed(slots.update(s, Some(rec))).contains(rec),
{
    lemma_listed_members(slots.update(s, Some(rec)));
    assert(slots.update(s, Some(rec))[s] is Some);
}

/// Once a slot is cleared, no listed record belongs to it.
pub proof fn law_cleared_slot_not_listed<R>(slots: Seq<Option<R>>, s: int, idx: spec_fn(R) -> int)
    requires
        0 <= s < slots.len(),
        at_own_slots(slots, idx),
    ensures
        forall|k: int| 0 <= k < listed(slots.update(s, None)).len() ==> idx(
            #[trigger] listed(slots.update(s, None))[k],
        ) != s,
{
    let cleared = slots.update(s, None);
    lemma_listed_members(cleared);
    assert forall|k: int| 0 <= k < listed(cleared).len() implies idx(#[trigger] listed(cleared)[k]) != s by {
        let q = choose|q: int| 0 <= q < cleared.len() && #[trigger] cleared[q] == Some(listed(cleared)[k]);
        assert(q != s);
        assert(slots[q] == cleared[q]);
    }
}

/// Records are listed in slot order.
pub proof fn law_listed_in_slot_order<R>(slots: Seq<Option<R>>, idx: spec_fn(R) -> int)
    requires
        at_own_slots(slots, idx),
    ensures
        forall|i: int, j: int|
            0 <= i < j < listed(slots).len() ==> idx(#[trigger] listed(slots)[i]) < idx(
                #[trigger] listed(slots)[j],
            ),
        forall|i: int| 0 <= i < listed(slots).len() ==> 0 <= idx(#[trigger] listed(slots)[i]) < slots.len(),
    decreases slots.len(),
{
    if slots.len() > 0 {
        let init = slots.drop_last();
        assert forall|q: int| 0 <= q < init.len() && #[trigger] init[q] is Some implies idx(init[q]->0) == q by {
            assert(init[q] == slots[q]);
        }
        law_listed_in_slot_order(init, idx);
        lemma_listed_members(slots);
        assert forall|i: int| 0 <= i < listed(slots).len() implies 0 <= idx(#[trigger] listed(slots)[i])
            < slots.len() by {
            let q = choose|q: int| 0 <= q < slots.len() && #[trigger] slots[q] == Some(listed(slots)[i]);
            assert(slots[q] is Some);
        }
        let p = listed(init);
        assert forall|i: int, j: int|
            0 <= i < j < listed(slots).len() implies idx(#[trigger] listed(slots)[i]) < idx(
            #[trigger] listed(slots)[j],
        ) by {
            assert(listed(slots)[i] == p[i]);
            if j < p.len() {
                assert(listed(slots)[j] == p[j]);
            } else {
                assert(slots[slots.len() - 1] is Some);
                assert(listed(slots)[j] == slots[slots.len() - 1]->0);
                assert(idx(p[i]) < init.len());
            }
        }
    }
}

} // verus!
