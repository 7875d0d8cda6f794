//! Resolved show state and runtime bookkeeping.
//!
//! [`ShowState`] is everything derived from a show definition at load
//! time: receiver entries with their assigned group ids, the name
//! lookup table, MIDI trigger tables, one [`MappingMeta`] per mapping
//! (top-level and clip-embedded), and the resolved clip timelines.
//! [`MutableShowState`] is what changes as the show runs: receiver
//! ownership, the sustain buffer, the lights-out clock and the clip
//! engine.

use vstd::prelude::*;

use crate::clip::{ClipDef, ClipEngine, ClipView, ResolvedStep, DEFAULT_TEMPO_MILLI_BPM, spec_initial_clip};
use crate::config::ConfigFile;
use crate::midi::{midi_note_of, note_name_shape_ok, parse_note_name, spec_note_name_shape};
use crate::packet::{GROUP_ID_FIRST};
use crate::show::{ClipStep, Color, Effect, LightMapping, LightMappingType, MidiMappingType, ReceiverConfiguration, ShowDefinition, Target};

verus! {

/// The mapping id a receiver holds while idle.
pub const INACTIVE_MAPPING: usize = 0;

/// Whether a resolved clip step turns the given mapping on.
pub open spec fn spec_step_turns_on(step: ResolvedStep, id: usize) -> bool {
    step matches ResolvedStep::MappingOn(x) && x == id
}

/// The last instruction sent to one receiver: which mapping owns it.
/// `trigger_mapping` is [`INACTIVE_MAPPING`] while the receiver is idle;
/// it is updated only through [`ReceiverState::activate`] and
/// [`ReceiverState::deactivate`].
#[derive(Debug, Clone, Copy, PartialEq, Eq, Structural)]
pub struct ReceiverState {
    pub id: u8,
    pub trigger_mapping: usize,
}

impl ReceiverState {
    /// An idle receiver with the given id.
    pub fn new(id: u8) -> (r: ReceiverState)
        ensures
            r.id == id,
            r.trigger_mapping == INACTIVE_MAPPING,
    {
        ReceiverState { id, trigger_mapping: INACTIVE_MAPPING }
    }

    /// Record an activation: the mapping takes ownership, unless it is
    /// one-shot, in which case the receiver is left idle.
    pub fn activate(&mut self, mapping_id: usize, one_shot: bool)
        ensures
            final(self).id == old(self).id,
            final(self).trigger_mapping == if one_shot { INACTIVE_MAPPING } else { mapping_id },
    {
        self.trigger_mapping = if one_shot { INACTIVE_MAPPING } else { mapping_id };
    }

    /// Whether this receiver currently attributes its state to the
    /// given mapping.
    pub fn activated_by(&self, mapping_id: usize) -> (r: bool)
        ensures
            r == (self.trigger_mapping == mapping_id),
    {
        self.trigger_mapping == mapping_id
    }

    /// Record a deactivation: ownership is cleared exactly when the
    /// given mapping still held it; reports whether it did.
    pub fn deactivate(&mut self, mapping_id: usize) -> (r: bool)
        ensures
            r == (old(self).trigger_mapping == mapping_id),
            final(self).id == old(self).id,
            final(self).trigger_mapping == if r { INACTIVE_MAPPING } else { old(self).trigger_mapping },
    {
        let r = self.trigger_mapping == mapping_id;
        if r {
            self.trigger_mapping = INACTIVE_MAPPING;
        }
        r
    }

    /// Whether any mapping owns this receiver.
    pub fn is_active(&self) -> (r: bool)
        ensures
            r == (self.trigger_mapping != INACTIVE_MAPPING),
    {
        self.trigger_mapping != INACTIVE_MAPPING
    }
}

/// Per-activation overrides, carried by clip steps into the runtime:
/// each present field wins over the mapping's own. `tempo` is in
/// milli-BPM, the durations in milliseconds.
#[derive(Debug, Clone, Copy)]
pub struct EffectOverrides {
    pub color: Option<Color>,
    pub tempo: Option<u32>,
    pub attack: Option<u32>,
    pub sustain: Option<u32>,
    pub release: Option<u32>,
}

/// What a mapping drives, after resolution: an effect, or a clip by
/// index.
#[derive(Debug, Clone, Copy)]
pub enum ResolvedLight {
    Effect(Effect),
    Clip(usize),
}

/// A mapping with everything resolved: its stable id, its flags and
/// envelope with defaults applied (`tempo` in milli-BPM, durations in
/// milliseconds), its resolved wire target list, and the indexes of
/// every receiver it touches (groups expanded, "all" expanded).
#[derive(Debug, Clone)]
pub struct MappingMeta {
    pub id: usize,
    pub one_shot: bool,
    pub light: ResolvedLight,
    pub color: Color,
    pub attack: u32,
    pub sustain: u32,
    pub release: u32,
    pub tempo: u32,
    pub override_clip_color: bool,
    pub targets: Vec<u8>,
    pub receivers: Vec<usize>,
}

/// One receiver after resolution: its id, assigned group id and LED
/// count.
#[derive(Debug, Clone, Copy)]
pub struct ReceiverEntry {
    pub id: u8,
    pub group_id: Option<u8>,
    pub led_count: u16,
}

/// A group after resolution: its name, assigned id, and the indexes of
/// its member receivers.
#[derive(Debug, Clone)]
pub struct GroupEntry {
    pub name: String,
    pub gid: u8,
    pub member_idxs: Vec<usize>,
}

/// One entry of the target name lookup: a receiver or group name and
/// the id it resolves to.
#[derive(Debug, Clone)]
pub struct LookupEntry {
    pub name: String,
    pub value: u8,
}

/// One MIDI trigger binding: channel, note number or controller
/// number, and the mapping it fires.
#[derive(Debug, Clone, Copy)]
pub struct MidiTrigger {
    pub channel: u8,
    pub number: u8,
    pub mapping_id: usize,
}

/// Everything derived from a show definition at load time. Immutable
/// while the show runs.
#[derive(Debug)]
pub struct ShowState {
    pub config: ConfigFile,
    pub receivers: Vec<ReceiverEntry>,
    pub groups: Vec<GroupEntry>,
    pub target_lookup: Vec<LookupEntry>,
    pub note_triggers: Vec<MidiTrigger>,
    pub controller_triggers: Vec<MidiTrigger>,
    pub mappings: Vec<MappingMeta>,
    pub clips: Vec<ClipDef>,
}

/// Everything that changes as the show runs.
#[derive(Debug)]
pub struct MutableShowState {
    /// When the last effect was triggered, in ms.
    pub last_effect: u64,
    /// When the last lights-out keepalive went out, in ms.
    pub last_lights_out: u64,
    /// Ownership state of every receiver, in show order.
    pub receiver_state: Vec<ReceiverState>,
    /// Whether deactivations from live MIDI are being buffered.
    pub sustain: bool,
    /// Mapping ids whose deactivation is buffered, in arrival order.
    pub pending_off: Vec<usize>,
    /// Play state of every clip, in show order.
    pub clip_engine: ClipEngine,
}

/// The mathematical image of a [`MutableShowState`].
#[verifier::ext_equal]
pub struct StateView {
    pub last_effect: u64,
    pub last_lights_out: u64,
    pub receivers: Seq<ReceiverState>,
    pub sustain: bool,
    pub pending_off: Seq<usize>,
    pub clips: Seq<ClipView>,
}

impl View for MutableShowState {
    type V = StateView;

    open spec fn view(&self) -> StateView {
        StateView {
            last_effect: self.last_effect,
            last_lights_out: self.last_lights_out,
            receivers: self.receiver_state@,
            sustain: self.sustain,
            pending_off: self.pending_off@,
            clips: self.clip_engine@,
        }
    }
}

impl ShowState {
    /// Structural soundness of the resolved tables: ids are positional,
    /// every index points inside the tables it indexes, and every list
    /// that ends up on the wire fits a frame.
    pub open spec fn wf(&self) -> bool {
        &&& self.receivers@.len() <= 240
        &&& forall|i: int| 0 <= i < self.mappings@.len() ==>
            (#[trigger] self.mappings@[i]).id == i + 1
        &&& forall|i: int| 0 <= i < self.mappings@.len() ==>
            (#[trigger] self.mappings@[i]).targets@.len() <= 240
        &&& forall|i: int| 0 <= i < self.mappings@.len() ==>
            (#[trigger] self.mappings@[i]).receivers@.len() <= 240
        &&& forall|i: int, k: int|
            0 <= i < self.mappings@.len()
                && 0 <= k < (#[trigger] self.mappings@[i]).receivers@.len() ==>
                #[trigger] self.mappings@[i].receivers@[k] < self.receivers@.len()
        &&& forall|i: int| 0 <= i < self.mappings@.len() ==>
            ((#[trigger] self.mappings@[i]).light matches ResolvedLight::Clip(c) ==>
                c < self.clips@.len())
        &&& forall|k: int| 0 <= k < self.note_triggers@.len() ==>
            1 <= (#[trigger] self.note_triggers@[k]).mapping_id <= self.mappings@.len()
        &&& forall|k: int| 0 <= k < self.controller_triggers@.len() ==>
            1 <= (#[trigger] self.controller_triggers@[k]).mapping_id <= self.mappings@.len()
        &&& forall|c: int, s: int|
            0 <= c < self.clips@.len() && 0 <= s < (#[trigger] self.clips@[c]).steps@.len() ==>
                self.spec_step_wf(#[trigger] self.clips@[c].steps@[s])
    }

    /// Structural soundness of one resolved clip step.
    pub open spec fn spec_step_wf(&self, step: ResolvedStep) -> bool {
        match step {
            ResolvedStep::MappingOn(id) => 1 <= id <= self.mappings@.len(),
            ResolvedStep::StopOther(Some(c)) => c < self.clips@.len(),
            _ => true,
        }
    }

    /// The mapping ids that steps of clip `c` can turn on.
    pub open spec fn spec_clip_on_ids(&self, c: int) -> Set<usize> {
        Set::new(
            |id: usize|
                exists|s: int|
                    0 <= s < self.clips@[c].steps@.len()
                        && spec_step_turns_on(#[trigger] self.clips@[c].steps@[s], id),
        )
    }

    /// Whether every mapping a clip can turn on drives an effect (and
    /// not another clip). Deactivation contracts are exact for such
    /// shows.
    pub open spec fn spec_clips_flat(&self) -> bool {
        forall|c: int, s: int|
            0 <= c < self.clips@.len() && 0 <= s < (#[trigger] self.clips@[c]).steps@.len() ==>
                (match #[trigger] self.clips@[c].steps@[s] {
                    ResolvedStep::MappingOn(id) =>
                        1 <= id <= self.mappings@.len()
                            && self.mappings@[id - 1].light is Effect,
                    _ => true,
                })
    }

    /// Soundness of a runtime state against this show: the receiver
    /// table mirrors the show's receivers; every owned receiver is owned
    /// by a mapping that targets it and is not one-shot; every clip's
    /// owned set holds valid, non-one-shot ids that some step of that
    /// clip turns on, without duplicates.
    pub open spec fn spec_state_wf(&self, v: StateView) -> bool {
        &&& v.receivers.len() == self.receivers@.len()
        &&& forall|j: int| 0 <= j < v.receivers.len() ==>
            (#[trigger] v.receivers[j]).id == self.receivers@[j].id
        &&& forall|j: int| 0 <= j < v.receivers.len() ==>
            ((#[trigger] v.receivers[j]).trigger_mapping == INACTIVE_MAPPING
                || (1 <= v.receivers[j].trigger_mapping <= self.mappings@.len()
                    && self.mappings@[v.receivers[j].trigger_mapping - 1].receivers@.contains(
                        j as usize)
                    && !self.mappings@[v.receivers[j].trigger_mapping - 1].one_shot))
        &&& v.clips.len() == self.clips@.len()
        &&& forall|c: int, k: int|
            0 <= c < v.clips.len() && 0 <= k < (#[trigger] v.clips[c]).active.len() ==>
                self.spec_owned_id_wf(c, #[trigger] v.clips[c].active[k])
        &&& forall|c: int| 0 <= c < v.clips.len() ==>
            (#[trigger] v.clips[c]).active.no_duplicates()
    }

    /// Soundness of one clip-owned mapping id.
    pub open spec fn spec_owned_id_wf(&self, c: int, id: usize) -> bool {
        &&& 1 <= id <= self.mappings@.len()
        &&& !self.mappings@[id - 1].one_shot
        &&& self.spec_clip_on_ids(c).contains(id)
    }

    /// Build the initial runtime state: every receiver idle, every clip
    /// stopped, sustain off, nothing pending, both clocks at `now`.
    pub fn create_mutable_state(&self, now: u64) -> (state: MutableShowState)
        ensures
            self.spec_state_wf(state@),
            state@.last_effect == now,
            state@.last_lights_out == now,
            state@.sustain == false,
            state@.pending_off == Seq::<usize>::empty(),
            forall|j: int| 0 <= j < state@.receivers.len() ==>
                (#[trigger] state@.receivers[j]).trigger_mapping == INACTIVE_MAPPING,
            forall|c: int| 0 <= c < state@.clips.len() ==>
                #[trigger] state@.clips[c] == spec_initial_clip(),
    {
        let mut receiver_state: Vec<ReceiverState> = Vec::new();
        let mut i: usize = 0;
        while i < self.receivers.len()
            invariant
                i <= self.receivers@.len(),
                receiver_state@.len() == i,
                forall|j: int| 0 <= j < i ==>
                    (#[trigger] receiver_state@[j]).id == self.receivers@[j].id
                        && receiver_state@[j].trigger_mapping == INACTIVE_MAPPING,
            decreases self.receivers@.len() - i,
        {
            receiver_state.push(ReceiverState::new(self.receivers[i].id));
            i = i + 1;
        }
        let clip_engine = ClipEngine::new(self.clips.len());
        MutableShowState {
            last_effect: now,
            last_lights_out: now,
            receiver_state,
            sustain: false,
            pending_off: Vec::new(),
            clip_engine,
        }
    }
}

// ---------------------------------------------------------------------
// Resolution: from a show definition to the tables above.
// ---------------------------------------------------------------------

/// Why a show definition was refused.
#[derive(Debug, Clone, PartialEq)]
pub enum ShowError {
    /// A mapping names a color the show's color map lacks.
    UnknownColor(String),
    /// A target name matches no receiver and no group.
    UnknownTarget(String),
    /// A numeric target matches no declared receiver.
    UnknownTargetId(u64),
    /// A numeric target lies outside 1..=255.
    TargetOutOfRange(u64),
    /// A target list entry is of a kind the show format does not carry.
    UnsupportedTarget,
    /// A top-level mapping (the cue is named) has no MIDI trigger.
    MissingMidi(String),
    /// A note name spells no note.
    UnknownNote(String),
    /// A mapping names a clip the show does not define.
    UnknownClip(String),
    /// More distinct group names than the group id range holds.
    TooManyGroups,
    /// More receivers than a wire frame can list.
    TooManyReceivers,
    /// More targets on one mapping than a wire frame can list.
    TooManyTargets,
    /// More mappings, counting clip-embedded ones, than ids exist for.
    TooManyMappings,
}

/// Whether an optional name is present and spells `name`.
pub open spec fn spec_opt_name_is(o: Option<String>, name: Seq<char>) -> bool {
    o matches Some(n) && n@ == name
}

/// The distinct group names of the show's receivers, in first-seen
/// order. The k-th name is assigned group id `GROUP_ID_FIRST + k`.
pub open spec fn spec_group_names(rs: Seq<ReceiverConfiguration>) -> Seq<Seq<char>>
    decreases rs.len(),
{
    if rs.len() == 0 {
        Seq::empty()
    } else {
        let prefix = spec_group_names(rs.drop_last());
        match rs.last().group_name {
            Some(g) => if prefix.contains(g@) {
                prefix
            } else {
                prefix.push(g@)
            },
            None => prefix,
        }
    }
}

/// The indexes of the receivers that carry the given group name,
/// ascending.
pub open spec fn spec_member_idxs(rs: Seq<ReceiverConfiguration>, name: Seq<char>) -> Seq<usize>
    decreases rs.len(),
{
    if rs.len() == 0 {
        Seq::empty()
    } else {
        let prefix = spec_member_idxs(rs.drop_last(), name);
        if spec_opt_name_is(rs.last().group_name, name) {
            prefix.push((rs.len() - 1) as usize)
        } else {
            prefix
        }
    }
}

/// Every member index of a group lies below the receiver count.
pub proof fn lemma_member_idxs_bounded(rs: Seq<ReceiverConfiguration>, name: Seq<char>)
    ensures
        forall|k: int| 0 <= k < spec_member_idxs(rs, name).len() ==>
            #[trigger] spec_member_idxs(rs, name)[k] < rs.len(),
    decreases rs.len(),
{
    if rs.len() > 0 {
        lemma_member_idxs_bounded(rs.drop_last(), name);
        let prefix = spec_member_idxs(rs.drop_last(), name);
        let whole = spec_member_idxs(rs, name);
        assert forall|k: int| 0 <= k < whole.len() implies #[trigger] whole[k] < rs.len() by {
            if k < prefix.len() {
                assert(whole[k] == prefix[k]);
            }
        }
    }
}

/// The value the name lookup table gives for a name: the value of the
/// first entry carrying it.
pub open spec fn spec_tbl_lookup(tbl: Seq<LookupEntry>, name: Seq<char>) -> Option<u8>
    decreases tbl.len(),
{
    if tbl.len() == 0 {
        None
    } else if tbl[0].name@ == name {
        Some(tbl[0].value)
    } else {
        spec_tbl_lookup(tbl.drop_first(), name)
    }
}

/// A successful table lookup returns the value of some entry with that
/// name.
pub proof fn lemma_tbl_lookup_sound(tbl: Seq<LookupEntry>, name: Seq<char>)
    requires
        spec_tbl_lookup(tbl, name) is Some,
    ensures
        exists|k: int|
            0 <= k < tbl.len() && (#[trigger] tbl[k]).name@ == name
                && spec_tbl_lookup(tbl, name) == Some(tbl[k].value),
    decreases tbl.len(),
{
    if tbl[0].name@ == name {
        assert(tbl[0].name@ == name && spec_tbl_lookup(tbl, name) == Some(tbl[0].value));
    } else {
        lemma_tbl_lookup_sound(tbl.drop_first(), name);
        let k = choose|k: int|
            0 <= k < tbl.drop_first().len() && (#[trigger] tbl.drop_first()[k]).name@ == name
                && spec_tbl_lookup(tbl.drop_first(), name) == Some(tbl.drop_first()[k].value);
        assert(tbl[k + 1].name@ == name && spec_tbl_lookup(tbl, name) == Some(tbl[k + 1].value));
    }
}

/// A name carried by any entry of the table looks up to something.
pub proof fn lemma_tbl_lookup_complete(tbl: Seq<LookupEntry>, name: Seq<char>, k: int)
    requires
        0 <= k < tbl.len(),
        tbl[k].name@ == name,
    ensures
        spec_tbl_lookup(tbl, name) is Some,
    decreases tbl.len(),
{
    if tbl[0].name@ != name {
        lemma_tbl_lookup_complete(tbl.drop_first(), name, k - 1);
    }
}

/// Look a name up in the table; the first entry carrying it wins.
pub fn tbl_lookup(tbl: &Vec<LookupEntry>, name: &String) -> (r: Option<u8>)
    ensures
        r == spec_tbl_lookup(tbl@, name@),
{
    proof {
        assert(tbl@.skip(0) =~= tbl@);
    }
    let mut i: usize = 0;
    while i < tbl.len()
        invariant
            i <= tbl@.len(),
            spec_tbl_lookup(tbl@, name@) == spec_tbl_lookup(tbl@.skip(i as int), name@),
        decreases tbl@.len() - i,
    {
        let hit = {
            let e = &tbl[i];
            e.name == *name
        };
        assert(tbl@.skip(i as int)[0] == tbl@[i as int]);
        if hit {
            return Some(tbl[i].value);
        }
        assert(tbl@.skip(i as int).drop_first() =~= tbl@.skip(i as int + 1));
        i = i + 1;
    }
    assert(tbl@.skip(tbl@.len() as int).len() == 0);
    None
}

/// Whether the table holds an entry for the name.
pub fn tbl_has(tbl: &Vec<LookupEntry>, name: &String) -> (r: bool)
    ensures
        r == (spec_tbl_lookup(tbl@, name@) is Some),
{
    tbl_lookup(tbl, name).is_some()
}

/// The index of the first receiver entry with the given id.
pub open spec fn spec_rid_idx(entries: Seq<ReceiverEntry>, id: u8) -> Option<int>
    decreases entries.len(),
{
    if entries.len() == 0 {
        None
    } else if entries[0].id == id {
        Some(0int)
    } else {
        match spec_rid_idx(entries.drop_first(), id) {
            Some(i) => Some(i + 1),
            None => None,
        }
    }
}

/// Find the first receiver entry with the given id.
pub fn rid_idx(entries: &Vec<ReceiverEntry>, id: u8) -> (r: Option<usize>)
    ensures
        ({
            let s = spec_rid_idx(entries@, id);
            match r {
                Some(i) => s == Some(i as int) && i < entries@.len() && entries@[i as int].id == id,
                None => s is None,
            }
        }),
{
    proof {
        lemma_rid_idx_props(entries@, id);
    }
    let mut i: usize = 0;
    while i < entries.len()
        invariant
            i <= entries@.len(),
            forall|k: int| 0 <= k < i ==> (#[trigger] entries@[k]).id != id,
        decreases entries@.len() - i,
    {
        if entries[i].id == id {
            proof {
                lemma_rid_idx_first(entries@, id, i as int);
            }
            return Some(i);
        }
        i = i + 1;
    }
    proof {
        lemma_rid_idx_none(entries@, id);
    }
    None
}

/// Where `spec_rid_idx` finds an index, it points at an entry with the
/// id it was asked for.
pub proof fn lemma_rid_idx_props(entries: Seq<ReceiverEntry>, id: u8)
    ensures
        spec_rid_idx(entries, id) matches Some(i) ==>
            0 <= i < entries.len() && entries[i].id == id,
    decreases entries.len(),
{
    if entries.len() > 0 && entries[0].id != id {
        lemma_rid_idx_props(entries.drop_first(), id);
    }
}

/// The first position carrying the id is what `spec_rid_idx` finds.
pub proof fn lemma_rid_idx_first(entries: Seq<ReceiverEntry>, id: u8, i: int)
    requires
        0 <= i < entries.len(),
        entries[i].id == id,
        forall|k: int| 0 <= k < i ==> (#[trigger] entries[k]).id != id,
    ensures
        spec_rid_idx(entries, id) == Some(i),
    decreases entries.len(),
{
    if i > 0 {
        lemma_rid_idx_first(entries.drop_first(), id, i - 1);
    }
}

/// Where no entry carries the id, `spec_rid_idx` finds nothing.
pub proof fn lemma_rid_idx_none(entries: Seq<ReceiverEntry>, id: u8)
    requires
        forall|k: int| 0 <= k < entries.len() ==> (#[trigger] entries[k]).id != id,
    ensures
        spec_rid_idx(entries, id) is None,
    decreases entries.len(),
{
    if entries.len() > 0 {
        lemma_rid_idx_none(entries.drop_first(), id);
    }
}

/// The index of the group with the given group id, if any.
pub open spec fn spec_gid_find(groups: Seq<GroupEntry>, gid: u8) -> Option<int>
    decreases groups.len(),
{
    if groups.len() == 0 {
        None
    } else if groups[0].gid == gid {
        Some(0int)
    } else {
        match spec_gid_find(groups.drop_first(), gid) {
            Some(i) => Some(i + 1),
            None => None,
        }
    }
}

/// Find the group with the given group id.
pub fn gid_find(groups: &Vec<GroupEntry>, gid: u8) -> (r: Option<usize>)
    ensures
        (r is None) == (spec_gid_find(groups@, gid) is None),
        r matches Some(g) ==> spec_gid_find(groups@, gid) == Some(g as int)
            && g < groups@.len() && groups@[g as int].gid == gid,
{
    proof {
        lemma_gid_find_props(groups@, gid);
    }
    let mut i: usize = 0;
    while i < groups.len()
        invariant
            i <= groups@.len(),
            forall|k: int| 0 <= k < i ==> (#[trigger] groups@[k]).gid != gid,
        decreases groups@.len() - i,
    {
        let hit = {
            let g = &groups[i];
            g.gid == gid
        };
        if hit {
            proof {
                lemma_gid_find_first(groups@, gid, i as int);
            }
            return Some(i);
        }
        i = i + 1;
    }
    proof {
        lemma_gid_find_none(groups@, gid);
    }
    None
}

/// Where `spec_gid_find` finds an index, it points at the asked-for id.
pub proof fn lemma_gid_find_props(groups: Seq<GroupEntry>, gid: u8)
    ensures
        spec_gid_find(groups, gid) matches Some(i) ==>
            0 <= i < groups.len() && groups[i].gid == gid,
    decreases groups.len(),
{
    if groups.len() > 0 && groups[0].gid != gid {
        lemma_gid_find_props(groups.drop_first(), gid);
    }
}

/// The first position carrying the id is what `spec_gid_find` finds.
pub proof fn lemma_gid_find_first(groups: Seq<GroupEntry>, gid: u8, i: int)
    requires
        0 <= i < groups.len(),
        groups[i].gid == gid,
        forall|k: int| 0 <= k < i ==> (#[trigger] groups[k]).gid != gid,
    ensures
        spec_gid_find(groups, gid) == Some(i),
    decreases groups.len(),
{
    if i > 0 {
        lemma_gid_find_first(groups.drop_first(), gid, i - 1);
    }
}

/// Where no group carries the id, `spec_gid_find` finds nothing.
pub proof fn lemma_gid_find_none(groups: Seq<GroupEntry>, gid: u8)
    requires
        forall|k: int| 0 <= k < groups.len() ==> (#[trigger] groups[k]).gid != gid,
    ensures
        spec_gid_find(groups, gid) is None,
    decreases groups.len(),
{
    if groups.len() > 0 {
        lemma_gid_find_none(groups.drop_first(), gid);
    }
}

/// The color bound to a name, by the first matching entry.
pub open spec fn spec_color_of(colors: Seq<(String, Color)>, name: Seq<char>) -> Option<Color>
    decreases colors.len(),
{
    if colors.len() == 0 {
        None
    } else if colors[0].0@ == name {
        Some(colors[0].1)
    } else {
        spec_color_of(colors.drop_first(), name)
    }
}

/// Look a color name up; the first matching entry wins.
pub fn color_of(colors: &Vec<(String, Color)>, name: &String) -> (r: Option<Color>)
    ensures
        r == spec_color_of(colors@, name@),
{
    proof {
        assert(colors@.skip(0) =~= colors@);
    }
    let mut i: usize = 0;
    while i < colors.len()
        invariant
            i <= colors@.len(),
            spec_color_of(colors@, name@) == spec_color_of(colors@.skip(i as int), name@),
        decreases colors@.len() - i,
    {
        assert(colors@.skip(i as int)[0] == colors@[i as int]);
        let hit = {
            let e = &colors[i];
            e.0 == *name
        };
        if hit {
            return Some(colors[i].1);
        }
        assert(colors@.skip(i as int).drop_first() =~= colors@.skip(i as int + 1));
        i = i + 1;
    }
    assert(colors@.skip(colors@.len() as int).len() == 0);
    None
}

/// The index of the clip with the given name, if any; the first match
/// wins.
pub open spec fn spec_clip_idx(clips: Seq<(String, Vec<ClipStep>)>, name: Seq<char>) -> Option<int>
    decreases clips.len(),
{
    if clips.len() == 0 {
        None
    } else if clips[0].0@ == name {
        Some(0int)
    } else {
        match spec_clip_idx(clips.drop_first(), name) {
            Some(i) => Some(i + 1),
            None => None,
        }
    }
}

/// Where `spec_clip_idx` finds an index, it lies inside the clip list.
pub proof fn lemma_clip_idx_bounded(clips: Seq<(String, Vec<ClipStep>)>, name: Seq<char>)
    ensures
        spec_clip_idx(clips, name) matches Some(i) ==> 0 <= i < clips.len(),
    decreases clips.len(),
{
    if clips.len() > 0 && clips[0].0@ != name {
        lemma_clip_idx_bounded(clips.drop_first(), name);
    }
}

/// Find the clip with the given name.
pub fn clip_idx(clips: &Vec<(String, Vec<ClipStep>)>, name: &String) -> (r: Option<usize>)
    ensures
        ({
            let s = spec_clip_idx(clips@, name@);
            match r {
                Some(i) => s == Some(i as int) && i < clips@.len(),
                None => s is None,
            }
        }),
{
    proof {
        lemma_clip_idx_bounded(clips@, name@);
        assert(clips@.skip(0) =~= clips@);
    }
    let mut i: usize = 0;
    while i < clips.len()
        invariant
            i <= clips@.len(),
            spec_clip_idx(clips@, name@) == (match spec_clip_idx(clips@.skip(i as int), name@) {
                Some(j) => Some(j + i),
                None => None,
            }),
        decreases clips@.len() - i,
    {
        assert(clips@.skip(i as int)[0] == clips@[i as int]);
        let hit = {
            let e = &clips[i];
            e.0 == *name
        };
        if hit {
            return Some(i);
        }
        assert(clips@.skip(i as int).drop_first() =~= clips@.skip(i as int + 1));
        i = i + 1;
    }
    assert(clips@.skip(clips@.len() as int).len() == 0);
    None
}

/// The distinct group names never repeat.
pub proof fn lemma_group_names_distinct(rs: Seq<ReceiverConfiguration>)
    ensures
        spec_group_names(rs).no_duplicates(),
    decreases rs.len(),
{
    if rs.len() > 0 {
        lemma_group_names_distinct(rs.drop_last());
    }
}

/// A name the prefix knows, the whole list knows.
pub proof fn lemma_group_names_contains_mono(rs: Seq<ReceiverConfiguration>, name: Seq<char>)
    requires
        rs.len() > 0,
        spec_group_names(rs.drop_last()).contains(name),
    ensures
        spec_group_names(rs).contains(name),
{
    let prefix = spec_group_names(rs.drop_last());
    let whole = spec_group_names(rs);
    let k = choose|k: int| 0 <= k < prefix.len() && prefix[k] == name;
    assert(whole[k] == name);
}

/// A group name nobody declares has no members.
pub proof fn lemma_member_empty_if_unnamed(rs: Seq<ReceiverConfiguration>, name: Seq<char>)
    requires
        !spec_group_names(rs).contains(name),
    ensures
        spec_member_idxs(rs, name).len() == 0,
    decreases rs.len(),
{
    if rs.len() > 0 {
        if spec_opt_name_is(rs.last().group_name, name) {
            let prefix = spec_group_names(rs.drop_last());
            if prefix.contains(name) {
                lemma_group_names_contains_mono(rs, name);
            } else {
                assert(spec_group_names(rs).last() == name);
                assert(spec_group_names(rs).contains(name));
            }
        } else {
            if spec_group_names(rs.drop_last()).contains(name) {
                lemma_group_names_contains_mono(rs, name);
            }
            lemma_member_empty_if_unnamed(rs.drop_last(), name);
        }
    }
}

/// The distinct group names of a prefix are never more than those of
/// the whole list.
pub proof fn lemma_group_names_grow(rs: Seq<ReceiverConfiguration>, i: int)
    requires
        0 <= i <= rs.len(),
    ensures
        spec_group_names(rs.subrange(0, i)).len() <= spec_group_names(rs).len(),
    decreases rs.len(),
{
    if i == rs.len() {
        assert(rs.subrange(0, i) =~= rs);
    } else {
        assert(rs.drop_last() =~= rs.subrange(0, rs.len() - 1));
        assert(rs.subrange(0, i) =~= rs.drop_last().subrange(0, i));
        lemma_group_names_grow(rs.drop_last(), i);
    }
}

/// Find the group with the given name; reports its index, or that no
/// group carries the name.
fn group_name_find(groups: &Vec<GroupEntry>, name: &String) -> (r: Option<usize>)
    ensures
        match r {
            Some(k) => k < groups@.len() && groups@[k as int].name@ == name@,
            None => forall|k: int| 0 <= k < groups@.len() ==> (#[trigger] groups@[k]).name@ != name@,
        },
{
    let mut i: usize = 0;
    while i < groups.len()
        invariant
            i <= groups@.len(),
            forall|k: int| 0 <= k < i ==> (#[trigger] groups@[k]).name@ != name@,
        decreases groups@.len() - i,
    {
        let hit = {
            let g = &groups[i];
            g.name == *name
        };
        if hit {
            return Some(i);
        }
        i = i + 1;
    }
    None
}

/// What the resolver guarantees of one receiver's group assignment,
/// relative to the group table.
pub open spec fn spec_receiver_group_ok(
    r: ReceiverConfiguration,
    entry: ReceiverEntry,
    groups: Seq<GroupEntry>,
) -> bool {
    match r.group_name {
        None => entry.group_id is None,
        Some(g) => exists|k: int|
            0 <= k < groups.len() && (#[trigger] groups[k]).name@ == g@
                && entry.group_id == Some(groups[k].gid),
    }
}

/// Soundness of one lookup entry: it binds a declared receiver name to
/// that receiver's id, or a declared group name to that group's id.
pub open spec fn spec_lookup_entry_ok(
    e: LookupEntry,
    rs: Seq<ReceiverConfiguration>,
    groups: Seq<GroupEntry>,
) -> bool {
    ||| exists|j: int|
        0 <= j < rs.len() && spec_opt_name_is((#[trigger] rs[j]).name, e.name@) && e.value == rs[j].id
    ||| exists|k: int|
        0 <= k < groups.len() && (#[trigger] groups[k]).name@ == e.name@ && e.value == groups[k].gid
}

/// Build the receiver entries, the group table and the name lookup
/// table from the show's receiver list.
///
/// Group ids follow first-seen order from [`GROUP_ID_FIRST`] up; each
/// group's members are the receivers declaring its name, ascending.
/// The lookup table binds every declared receiver name and group name
/// (first binding of a name wins).
fn build_receivers(rs: &Vec<ReceiverConfiguration>) -> (r: Result<
    (Vec<ReceiverEntry>, Vec<GroupEntry>, Vec<LookupEntry>),
    ShowError,
>)
    ensures
        match r {
            Ok(built) => {
                let (entries, groups, tbl) = built;
                &&& rs@.len() <= 240
                &&& entries@.len() == rs@.len()
                &&& forall|j: int| 0 <= j < rs@.len() ==>
                    (#[trigger] entries@[j]).id == rs@[j].id
                        && entries@[j].led_count == rs@[j].led_count
                &&& forall|j: int| 0 <= j < rs@.len() ==>
                    spec_receiver_group_ok(rs@[j], #[trigger] entries@[j], groups@)
                &&& groups@.len() == spec_group_names(rs@).len()
                &&& groups@.len() <= 70
                &&& forall|k: int| 0 <= k < groups@.len() ==>
                    (#[trigger] groups@[k]).name@ == spec_group_names(rs@)[k]
                &&& forall|k: int| 0 <= k < groups@.len() ==>
                    (#[trigger] groups@[k]).gid == GROUP_ID_FIRST + k
                &&& forall|k: int| 0 <= k < groups@.len() ==>
                    (#[trigger] groups@[k]).member_idxs@ == spec_member_idxs(
                        rs@,
                        groups@[k].name@,
                    )
                &&& forall|e: int| 0 <= e < tbl@.len() ==>
                    spec_lookup_entry_ok(#[trigger] tbl@[e], rs@, groups@)
                &&& forall|j: int|
                    0 <= j < rs@.len() && (#[trigger] rs@[j]).name is Some ==>
                        spec_tbl_lookup(tbl@, rs@[j].name->Some_0@) is Some
                &&& forall|j: int|
                    0 <= j < rs@.len() && (#[trigger] rs@[j]).group_name is Some ==>
                        spec_tbl_lookup(tbl@, rs@[j].group_name->Some_0@) is Some
            },
            Err(e) => {
                &&& (rs@.len() > 240 || spec_group_names(rs@).len() > 70)
                &&& (e == ShowError::TooManyReceivers ==> rs@.len() > 240)
                &&& (e == ShowError::TooManyGroups ==> spec_group_names(rs@).len() > 70)
            },
        },
{
    if rs.len() > 240 {
        return Err(ShowError::TooManyReceivers);
    }
    let mut entries: Vec<ReceiverEntry> = Vec::new();
    let mut groups: Vec<GroupEntry> = Vec::new();
    let mut tbl: Vec<LookupEntry> = Vec::new();
    let mut i: usize = 0;
    proof {
        assert(rs@.subrange(0, 0) =~= Seq::<ReceiverConfiguration>::empty());
        lemma_group_names_distinct(rs@);
    }
    while i < rs.len()
        invariant
            i <= rs@.len(),
            rs@.len() <= 240,
            entries@.len() == i,
            forall|j: int| 0 <= j < i ==>
                (#[trigger] entries@[j]).id == rs@[j].id
                    && entries@[j].led_count == rs@[j].led_count,
            forall|j: int| 0 <= j < i ==>
                spec_receiver_group_ok(rs@[j], #[trigger] entries@[j], groups@),
            groups@.len() == spec_group_names(rs@.subrange(0, i as int)).len(),
            groups@.len() <= 70,
            forall|k: int| 0 <= k < groups@.len() ==>
                (#[trigger] groups@[k]).name@ == spec_group_names(rs@.subrange(0, i as int))[k],
            forall|k: int| 0 <= k < groups@.len() ==>
                (#[trigger] groups@[k]).gid == GROUP_ID_FIRST + k,
            forall|k: int| 0 <= k < groups@.len() ==>
                (#[trigger] groups@[k]).member_idxs@ == spec_member_idxs(
                    rs@.subrange(0, i as int),
                    groups@[k].name@,
                ),
            forall|e: int| 0 <= e < tbl@.len() ==>
                spec_lookup_entry_ok(#[trigger] tbl@[e], rs@.subrange(0, i as int), groups@),
            forall|j: int|
                0 <= j < i && (#[trigger] rs@[j]).name is Some ==>
                    spec_tbl_lookup(tbl@, rs@[j].name->Some_0@) is Some,
            forall|j: int|
                0 <= j < i && (#[trigger] rs@[j]).group_name is Some ==>
                    spec_tbl_lookup(tbl@, rs@[j].group_name->Some_0@) is Some,
        decreases rs@.len() - i,
    {
        let ghost prefix = rs@.subrange(0, i as int);
        let ghost prefix1 = rs@.subrange(0, i as int + 1);
        proof {
            assert(prefix1.drop_last() =~= prefix);
            assert(prefix1.last() == rs@[i as int]);
            lemma_group_names_distinct(prefix1);
        }
        let ghost groups0 = groups@;
        let r = &rs[i];
        let mut gid_here: Option<u8> = None;
        match &r.group_name {
            Some(g) => {
                match group_name_find(&groups, g) {
                    Some(k) => {
                        proof {
                            assert(spec_group_names(prefix).contains(g@)) by {
                                assert(spec_group_names(prefix)[k as int] == g@);
                            }
                            assert(spec_group_names(prefix1) =~= spec_group_names(prefix));
                        }
                        // append this receiver to the group's members
                        let mut ge = groups.remove(k);
                        ge.member_idxs.push(i);
                        gid_here = Some(ge.gid);
                        groups.insert(k, ge);
                        proof {
                            assert(groups@ =~= groups0.update(
                                k as int,
                                GroupEntry {
                                    name: groups0[k as int].name,
                                    gid: groups0[k as int].gid,
                                    member_idxs: groups@[k as int].member_idxs,
                                },
                            ));
                            assert forall|k2: int| 0 <= k2 < groups@.len() implies
                                (#[trigger] groups@[k2]).member_idxs@ == spec_member_idxs(
                                    prefix1,
                                    groups@[k2].name@,
                                ) by {
                                if k2 == k {
                                    assert(spec_opt_name_is(rs@[i as int].group_name, g@));
                                    assert(spec_member_idxs(prefix1, g@)
                                        =~= spec_member_idxs(prefix, g@).push(i));
                                } else {
                                    // distinct names: the new receiver is no member here
                                    assert(groups@[k2].name@ != g@) by {
                                        assert(spec_group_names(prefix).no_duplicates()) by {
                                            lemma_group_names_distinct(prefix);
                                        }
                                    }
                                    assert(spec_member_idxs(prefix1, groups@[k2].name@)
                                        =~= spec_member_idxs(prefix, groups@[k2].name@));
                                }
                            }
                        }
                    },
                    None => {
                        proof {
                            assert(!spec_group_names(prefix).contains(g@)) by {
                                if spec_group_names(prefix).contains(g@) {
                                    let k = choose|k: int|
                                        0 <= k < spec_group_names(prefix).len()
                                            && spec_group_names(prefix)[k] == g@;
                                    assert(groups@[k].name@ == g@);
                                }
                            }
                            assert(spec_group_names(prefix1)
                                =~= spec_group_names(prefix).push(g@));
                        }
                        if groups.len() >= 70 {
                            proof {
                                lemma_group_names_grow(rs@, i as int + 1);
                            }
                            return Err(ShowError::TooManyGroups);
                        }
                        let gid: u8 = GROUP_ID_FIRST + (groups.len() as u8);
                        let mut member_idxs: Vec<usize> = Vec::new();
                        member_idxs.push(i);
                        gid_here = Some(gid);
                        groups.push(GroupEntry { name: g.clone(), gid, member_idxs });
                        proof {
                            lemma_member_empty_if_unnamed(prefix, g@);
                            assert(spec_member_idxs(prefix1, g@)
                                =~= spec_member_idxs(prefix, g@).push(i));
                            assert(groups@.last().member_idxs@ =~= seq![i]);
                            assert forall|k2: int| 0 <= k2 < groups@.len() implies
                                (#[trigger] groups@[k2]).member_idxs@ == spec_member_idxs(
                                    prefix1,
                                    groups@[k2].name@,
                                ) by {
                                if k2 < groups@.len() - 1 {
                                    assert(groups@[k2] == groups0[k2]);
                                    assert(groups@[k2].name@ != g@) by {
                                        lemma_group_names_distinct(prefix1);
                                        assert(spec_group_names(prefix1)[k2]
                                            == groups@[k2].name@);
                                        assert(spec_group_names(prefix1).last() == g@);
                                    }
                                    assert(spec_member_idxs(prefix1, groups@[k2].name@)
                                        =~= spec_member_idxs(prefix, groups@[k2].name@));
                                } else {
                                    assert(spec_member_idxs(prefix1, g@) =~= seq![i]);
                                }
                            }
                        }
                    },
                }
            },
            None => {
                proof {
                    assert(spec_group_names(prefix1) =~= spec_group_names(prefix));
                    assert forall|k2: int| 0 <= k2 < groups@.len() implies
                        (#[trigger] groups@[k2]).member_idxs@ == spec_member_idxs(
                            prefix1,
                            groups@[k2].name@,
                        ) by {
                        assert(spec_member_idxs(prefix1, groups@[k2].name@)
                            =~= spec_member_idxs(prefix, groups@[k2].name@));
                    }
                }
            },
        }
        proof {
            // record the group witness for this receiver
            assert(match rs@[i as int].group_name {
                None => gid_here is None,
                Some(g) => exists|k: int|
                    0 <= k < groups@.len() && (#[trigger] groups@[k]).name@ == g@
                        && gid_here == Some(groups@[k].gid),
            });
            // older receivers keep their group witnesses in the grown table
            assert forall|j: int| 0 <= j < i implies spec_receiver_group_ok(
                rs@[j],
                #[trigger] entries@[j],
                groups@,
            ) by {
                assert(spec_receiver_group_ok(rs@[j], entries@[j], groups0));
                match rs@[j].group_name {
                    Some(g) => {
                        let k = choose|k: int|
                            0 <= k < groups0.len() && (#[trigger] groups0[k]).name@ == g@
                                && entries@[j].group_id == Some(groups0[k].gid);
                        assert(groups@[k].name@ == g@ && groups@[k].gid == groups0[k].gid);
                    },
                    None => {},
                }
            }
        }
        entries.push(ReceiverEntry { id: r.id, group_id: gid_here, led_count: r.led_count });
        let ghost tbl0 = tbl@;
        // bind the receiver's name, then its group's name; first binding wins
        match &r.name {
            Some(n) => {
                if !tbl_has(&tbl, n) {
                    tbl.push(LookupEntry { name: n.clone(), value: r.id });
                    proof {
                        lemma_tbl_lookup_complete(tbl@, n@, tbl@.len() - 1);
                    }
                }
            },
            None => {},
        }
        let ghost tbl1 = tbl@;
        proof {
            assert(match rs@[i as int].name {
                Some(n) => spec_tbl_lookup(tbl1, n@) is Some,
                None => true,
            }) by {
                match rs@[i as int].name {
                    Some(n) => {
                        if spec_tbl_lookup(tbl0, n@) is Some {
                            lemma_tbl_lookup_extend(tbl0, tbl1, n@);
                        }
                    },
                    None => {},
                }
            }
        }
        match (&r.group_name, gid_here) {
            (Some(g), Some(gid)) => {
                if !tbl_has(&tbl, g) {
                    tbl.push(LookupEntry { name: g.clone(), value: gid });
                    proof {
                        lemma_tbl_lookup_complete(tbl@, g@, tbl@.len() - 1);
                    }
                }
            },
            _ => {},
        }
        proof {
            let ghost prefixn = rs@.subrange(0, i as int + 1);
            // pushing entries never removes a binding
            assert forall|name: Seq<char>|
                spec_tbl_lookup(tbl0, name) is Some implies spec_tbl_lookup(
                tbl@,
                name,
            ) is Some by {
                lemma_tbl_lookup_extend(tbl0, tbl@, name);
            }
            assert forall|name: Seq<char>|
                spec_tbl_lookup(tbl1, name) is Some implies spec_tbl_lookup(
                tbl@,
                name,
            ) is Some by {
                lemma_tbl_lookup_extend(tbl1, tbl@, name);
            }
            // every table entry still binds a declared name
            assert forall|e: int| 0 <= e < tbl@.len() implies spec_lookup_entry_ok(
                #[trigger] tbl@[e],
                prefixn,
                groups@,
            ) by {
                assert(prefixn[i as int] == rs@[i as int]);
                if e < tbl0.len() {
                    assert(spec_lookup_entry_ok(tbl@[e], prefix, groups0));
                    if exists|j: int|
                        0 <= j < prefix.len() && spec_opt_name_is(
                            (#[trigger] prefix[j]).name,
                            tbl@[e].name@,
                        ) && tbl@[e].value == prefix[j].id {
                        let j = choose|j: int|
                            0 <= j < prefix.len() && spec_opt_name_is(
                                (#[trigger] prefix[j]).name,
                                tbl@[e].name@,
                            ) && tbl@[e].value == prefix[j].id;
                        assert(prefixn[j] == prefix[j]);
                        assert(spec_opt_name_is(prefixn[j].name, tbl@[e].name@));
                    } else {
                        let k = choose|k: int|
                            0 <= k < groups0.len() && (#[trigger] groups0[k]).name@
                                == tbl@[e].name@ && tbl@[e].value == groups0[k].gid;
                        assert(groups@[k].name@ == tbl@[e].name@
                            && groups@[k].gid == groups0[k].gid);
                    }
                } else if e < tbl1.len() {
                    // the receiver-name binding added this turn
                    assert(spec_opt_name_is(prefixn[i as int].name, tbl@[e].name@)
                        && tbl@[e].value == prefixn[i as int].id);
                } else {
                    // the group-name binding added this turn
                    assert(match rs@[i as int].group_name {
                        None => false,
                        Some(g) => exists|k: int|
                            0 <= k < groups@.len() && (#[trigger] groups@[k]).name@ == g@
                                && gid_here == Some(groups@[k].gid),
                    });
                }
            }
        }
        i = i + 1;
    }
    proof {
        assert(rs@.subrange(0, rs@.len() as int) =~= rs@);
    }
    Ok((entries, groups, tbl))
}

/// A binding the shorter table has, any extension of it has.
pub proof fn lemma_tbl_lookup_extend(tbl0: Seq<LookupEntry>, tbl: Seq<LookupEntry>, name: Seq<char>)
    requires
        tbl0.len() <= tbl.len(),
        forall|k: int| 0 <= k < tbl0.len() ==> tbl[k] == tbl0[k],
        spec_tbl_lookup(tbl0, name) is Some,
    ensures
        spec_tbl_lookup(tbl, name) is Some,
    decreases tbl0.len(),
{
    if tbl0.len() > 0 {
        if tbl0[0].name@ != name {
            assert(tbl0.drop_first().len() <= tbl.drop_first().len());
            lemma_tbl_lookup_extend(tbl0.drop_first(), tbl.drop_first(), name);
        }
    }
}

// --- MIDI triggers -----------------------------------------------------

/// The note trigger table a mapping list resolves to: one entry per
/// mapping with a note trigger whose name spells a note, in order,
/// bound to the mapping's positional id.
pub open spec fn spec_note_triggers(ms: Seq<LightMapping>) -> Seq<MidiTrigger>
    decreases ms.len(),
{
    if ms.len() == 0 {
        Seq::empty()
    } else {
        let p = spec_note_triggers(ms.drop_last());
        match ms.last().midi {
            Some(MidiMappingType::Note { channel, note }) => if spec_note_name_shape(note@) {
                match midi_note_of(note@) {
                    Some(k) => p.push(
                        MidiTrigger { channel, number: k, mapping_id: ms.len() as usize },
                    ),
                    None => p,
                }
            } else {
                p
            },
            _ => p,
        }
    }
}

/// The controller trigger table a mapping list resolves to.
pub open spec fn spec_controller_triggers(ms: Seq<LightMapping>) -> Seq<MidiTrigger>
    decreases ms.len(),
{
    if ms.len() == 0 {
        Seq::empty()
    } else {
        let p = spec_controller_triggers(ms.drop_last());
        match ms.last().midi {
            Some(MidiMappingType::Controller { channel, cc }) => p.push(
                MidiTrigger { channel, number: cc, mapping_id: ms.len() as usize },
            ),
            _ => p,
        }
    }
}

/// Whether every top-level mapping carries a MIDI trigger whose note
/// name, if any, is of the shape the note parser accepts and spells a
/// note.
pub open spec fn spec_triggers_ok(ms: Seq<LightMapping>) -> bool {
    forall|i: int| 0 <= i < ms.len() ==>
        (match (#[trigger] ms[i]).midi {
            None => false,
            Some(MidiMappingType::Note { channel: _, note }) => spec_note_name_shape(note@)
                && midi_note_of(note@) is Some,
            Some(MidiMappingType::Controller { .. }) => true,
        })
}

/// Build the note and controller trigger tables from the top-level
/// mappings, binding positional ids. Refuses a mapping without a MIDI
/// trigger, and a note name that spells no note.
fn build_triggers(ms: &Vec<LightMapping>) -> (r: Result<
    (Vec<MidiTrigger>, Vec<MidiTrigger>),
    ShowError,
>)
    ensures
        match r {
            Ok(built) => {
                let (notes, ctrls) = built;
                &&& spec_triggers_ok(ms@)
                &&& notes@ == spec_note_triggers(ms@)
                &&& ctrls@ == spec_controller_triggers(ms@)
                &&& forall|k: int| 0 <= k < notes@.len() ==>
                    1 <= (#[trigger] notes@[k]).mapping_id <= ms@.len()
                &&& forall|k: int| 0 <= k < ctrls@.len() ==>
                    1 <= (#[trigger] ctrls@[k]).mapping_id <= ms@.len()
            },
            Err(_) => !spec_triggers_ok(ms@),
        },
{
    let mut notes: Vec<MidiTrigger> = Vec::new();
    let mut ctrls: Vec<MidiTrigger> = Vec::new();
    let mut i: usize = 0;
    proof {
        assert(ms@.subrange(0, 0) =~= Seq::<LightMapping>::empty());
    }
    while i < ms.len()
        invariant
            i <= ms@.len(),
            notes@ == spec_note_triggers(ms@.subrange(0, i as int)),
            ctrls@ == spec_controller_triggers(ms@.subrange(0, i as int)),
            forall|k: int| 0 <= k < notes@.len() ==>
                1 <= (#[trigger] notes@[k]).mapping_id <= i,
            forall|k: int| 0 <= k < ctrls@.len() ==>
                1 <= (#[trigger] ctrls@[k]).mapping_id <= i,
            forall|j: int| 0 <= j < i ==>
                (match (#[trigger] ms@[j]).midi {
                    None => false,
                    Some(MidiMappingType::Note { channel: _, note }) =>
                        spec_note_name_shape(note@) && midi_note_of(note@) is Some,
                    Some(MidiMappingType::Controller { .. }) => true,
                }),
        decreases ms@.len() - i,
    {
        proof {
            assert(ms@.subrange(0, i as int + 1).drop_last() =~= ms@.subrange(0, i as int));
            assert(ms@.subrange(0, i as int + 1).last() == ms@[i as int]);
        }
        let id: usize = i + 1;
        let m = &ms[i];
        match &m.midi {
            None => {
                return Err(ShowError::MissingMidi(m.cue.clone()));
            },
            Some(MidiMappingType::Note { channel, note }) => {
                if !note_name_shape_ok(note.as_str()) {
                    return Err(ShowError::UnknownNote(note.clone()));
                }
                match parse_note_name(note.as_str()) {
                    Some(key) => {
                        notes.push(MidiTrigger { channel: *channel, number: key, mapping_id: id });
                    },
                    None => {
                        return Err(ShowError::UnknownNote(note.clone()));
                    },
                }
            },
            Some(MidiMappingType::Controller { channel, cc }) => {
                ctrls.push(MidiTrigger { channel: *channel, number: *cc, mapping_id: id });
            },
        }
        i = i + 1;
    }
    proof {
        assert(ms@.subrange(0, ms@.len() as int) =~= ms@);
    }
    Ok((notes, ctrls))
}

// --- Targets and mapping metas ----------------------------------------

/// The value of a canonical decimal id string: one to three ASCII
/// digits with no sign and no leading zero — exactly the strings a
/// byte-ranged receiver id writes as decimal.
pub open spec fn spec_decimal_id(s: Seq<char>) -> Option<u64> {
    if 1 <= s.len() <= 3 && (forall|i: int|
        0 <= i < s.len() ==> ('0' as u32) <= (#[trigger] s[i]) as u32 <= ('9' as u32)) && (s.len()
        == 1 || s[0] != '0') {
        if s.len() == 1 {
            Some((s[0] as u32 - '0' as u32) as u64)
        } else if s.len() == 2 {
            Some(((s[0] as u32 - '0' as u32) * 10 + (s[1] as u32 - '0' as u32)) as u64)
        } else {
            Some(
                ((s[0] as u32 - '0' as u32) * 100 + (s[1] as u32 - '0' as u32) * 10 + (s[2] as u32
                    - '0' as u32)) as u64,
            )
        }
    } else {
        None
    }
}

/// Read a canonical decimal id string.
fn decimal_id(s: &str) -> (r: Option<u64>)
    ensures
        r == spec_decimal_id(s@),
{
    let n = s.unicode_len();
    if n < 1 || n > 3 {
        return None;
    }
    let d0 = s.get_char(0) as u32;
    if !(('0' as u32) <= d0 && d0 <= ('9' as u32)) {
        return None;
    }
    if n == 1 {
        return Some((d0 - ('0' as u32)) as u64);
    }
    if d0 == ('0' as u32) {
        return None;
    }
    let d1 = s.get_char(1) as u32;
    if !(('0' as u32) <= d1 && d1 <= ('9' as u32)) {
        return None;
    }
    if n == 2 {
        return Some(((d0 - ('0' as u32)) * 10 + (d1 - ('0' as u32))) as u64);
    }
    let d2 = s.get_char(2) as u32;
    if !(('0' as u32) <= d2 && d2 <= ('9' as u32)) {
        return None;
    }
    Some(((d0 - ('0' as u32)) * 100 + (d1 - ('0' as u32)) * 10 + (d2 - ('0' as u32))) as u64)
}

/// Whether a name token resolves as a decimal receiver id: it is a
/// canonical digit string naming a declared receiver in 1..=255.
pub open spec fn spec_name_as_id(s: Seq<char>, entries: Seq<ReceiverEntry>) -> bool {
    spec_decimal_id(s) matches Some(v) && 1 <= v <= 255 && spec_rid_idx(entries, v as u8) is Some
}

/// Whether one target token resolves: a number names a declared
/// receiver id in 1..=255; a name is a digit string naming a declared
/// receiver, or is bound by the lookup table.
pub open spec fn spec_token_ok(
    t: Target,
    tbl: Seq<LookupEntry>,
    entries: Seq<ReceiverEntry>,
) -> bool {
    match t {
        Target::Number(n) => 1 <= n <= 255 && spec_rid_idx(entries, n as u8) is Some,
        Target::Name(s) => spec_name_as_id(s@, entries) || spec_tbl_lookup(tbl, s@) is Some,
        Target::Unsupported => false,
    }
}

/// The wire id a resolving target token stands for; for a name, the
/// decimal reading wins over a table binding.
pub open spec fn spec_token_value(
    t: Target,
    tbl: Seq<LookupEntry>,
    entries: Seq<ReceiverEntry>,
) -> u8 {
    match t {
        Target::Number(n) => n as u8,
        Target::Name(s) => if spec_name_as_id(s@, entries) {
            spec_decimal_id(s@)->Some_0 as u8
        } else {
            spec_tbl_lookup(tbl, s@)->Some_0
        },
        Target::Unsupported => 0,
    }
}

/// Resolve one target token to a wire id, or say why it does not
/// resolve.
fn convert_target(t: &Target, tbl: &Vec<LookupEntry>, entries: &Vec<ReceiverEntry>) -> (r: Result<
    u8,
    ShowError,
>)
    ensures
        match r {
            Ok(v) => spec_token_ok(*t, tbl@, entries@) && v == spec_token_value(*t, tbl@, entries@),
            Err(_) => !spec_token_ok(*t, tbl@, entries@),
        },
{
    match t {
        Target::Number(n) => {
            if 1 <= *n && *n <= 255 {
                let id = *n as u8;
                match rid_idx(entries, id) {
                    Some(_) => Ok(id),
                    None => Err(ShowError::UnknownTargetId(*n)),
                }
            } else {
                Err(ShowError::TargetOutOfRange(*n))
            }
        },
        Target::Name(s) => {
            match decimal_id(s.as_str()) {
                Some(v) => {
                    if 1 <= v && v <= 255 {
                        match rid_idx(entries, v as u8) {
                            Some(_) => {
                                return Ok(v as u8);
                            },
                            None => {},
                        }
                    }
                },
                None => {},
            }
            match tbl_lookup(tbl, s) {
                Some(v) => Ok(v),
                None => Err(ShowError::UnknownTarget(s.clone())),
            }
        },
        Target::Unsupported => Err(ShowError::UnsupportedTarget),
    }
}

/// The wire ids a target list resolves to, token by token.
pub open spec fn spec_target_values(
    ts: Seq<Target>,
    tbl: Seq<LookupEntry>,
    entries: Seq<ReceiverEntry>,
) -> Seq<u8> {
    ts.map_values(|t: Target| spec_token_value(t, tbl, entries))
}

/// Resolve a whole target list, or say why some token does not
/// resolve.
fn resolve_targets(
    ts: &Vec<Target>,
    tbl: &Vec<LookupEntry>,
    entries: &Vec<ReceiverEntry>,
) -> (r: Result<Vec<u8>, ShowError>)
    ensures
        match r {
            Ok(v) => (forall|j: int| 0 <= j < ts@.len() ==>
                spec_token_ok(#[trigger] ts@[j], tbl@, entries@)) && v@ == spec_target_values(
                ts@,
                tbl@,
                entries@,
            ),
            Err(_) => exists|j: int|
                0 <= j < ts@.len() && !spec_token_ok(#[trigger] ts@[j], tbl@, entries@),
        },
{
    let mut out: Vec<u8> = Vec::new();
    let mut i: usize = 0;
    while i < ts.len()
        invariant
            i <= ts@.len(),
            out@.len() == i,
            forall|j: int| 0 <= j < i ==> spec_token_ok(#[trigger] ts@[j], tbl@, entries@),
            forall|j: int| 0 <= j < i ==>
                out@[j] == spec_token_value(#[trigger] ts@[j], tbl@, entries@),
        decreases ts@.len() - i,
    {
        match convert_target(&ts[i], tbl, entries) {
            Ok(v) => {
                out.push(v);
            },
            Err(e) => {
                return Err(e);
            },
        }
        i = i + 1;
    }
    assert(out@ =~= spec_target_values(ts@, tbl@, entries@));
    Ok(out)
}

/// Whether the wire id `t` addresses receiver index `i`: a group id
/// addresses its members, any other id the receiver that carries it.
pub open spec fn spec_touches(
    t: u8,
    i: usize,
    groups: Seq<GroupEntry>,
    entries: Seq<ReceiverEntry>,
) -> bool {
    match spec_gid_find(groups, t) {
        Some(g) => groups[g].member_idxs@.contains(i),
        None => spec_rid_idx(entries, t) == Some(i as int),
    }
}

/// Whether a mapping with the given resolved target list touches
/// receiver index `i`. An empty list touches every receiver.
pub open spec fn spec_touched(
    targets: Seq<u8>,
    i: usize,
    groups: Seq<GroupEntry>,
    entries: Seq<ReceiverEntry>,
) -> bool {
    targets.len() == 0 || exists|k: int|
        0 <= k < targets.len() && spec_touches(#[trigger] targets[k], i, groups, entries)
}

/// The receiver indexes below `n` that the target list touches,
/// ascending.
pub open spec fn spec_touched_upto(
    targets: Seq<u8>,
    groups: Seq<GroupEntry>,
    entries: Seq<ReceiverEntry>,
    n: int,
) -> Seq<usize>
    decreases n,
{
    if n <= 0 {
        Seq::empty()
    } else {
        let p = spec_touched_upto(targets, groups, entries, n - 1);
        if spec_touched(targets, (n - 1) as usize, groups, entries) {
            p.push((n - 1) as usize)
        } else {
            p
        }
    }
}

/// Every index the expansion lists lies below `n`, and there are at
/// most `n` of them.
pub proof fn lemma_touched_upto_bounded(
    targets: Seq<u8>,
    groups: Seq<GroupEntry>,
    entries: Seq<ReceiverEntry>,
    n: int,
)
    ensures
        spec_touched_upto(targets, groups, entries, n).len() <= (if n >= 0 { n } else { 0 }),
        forall|k: int| 0 <= k < spec_touched_upto(targets, groups, entries, n).len() ==>
            #[trigger] spec_touched_upto(targets, groups, entries, n)[k] < n,
    decreases n,
{
    if n > 0 {
        lemma_touched_upto_bounded(targets, groups, entries, n - 1);
        let p = spec_touched_upto(targets, groups, entries, n - 1);
        let w = spec_touched_upto(targets, groups, entries, n);
        assert forall|k: int| 0 <= k < w.len() implies #[trigger] w[k] < n by {
            if k < p.len() {
                assert(w[k] == p[k]);
            }
        }
    }
}

/// Whether the wire id `t` addresses receiver index `i`.
fn touches(t: u8, i: usize, groups: &Vec<GroupEntry>, entries: &Vec<ReceiverEntry>) -> (r: bool)
    ensures
        r == spec_touches(t, i, groups@, entries@),
{
    match gid_find(groups, t) {
        Some(g) => {
            assert(spec_gid_find(groups@, t) == Some(g as int));
            let found = {
                let ge = &groups[g];
                crate::util::contains_id(&ge.member_idxs, i)
            };
            found
        },
        None => {
            match rid_idx(entries, t) {
                Some(j) => {
                    assert(spec_rid_idx(entries@, t) == Some(j as int));
                    j == i
                },
                None => false,
            }
        },
    }
}

/// The receiver indexes a mapping with the given resolved target list
/// touches, ascending. An empty list means every receiver.
fn expand_groups(
    targets: &Vec<u8>,
    groups: &Vec<GroupEntry>,
    entries: &Vec<ReceiverEntry>,
) -> (r: Vec<usize>)
    ensures
        r@ == spec_touched_upto(targets@, groups@, entries@, entries@.len() as int),
        r@.len() <= entries@.len(),
        forall|k: int| 0 <= k < r@.len() ==> #[trigger] r@[k] < entries@.len(),
{
    proof {
        lemma_touched_upto_bounded(targets@, groups@, entries@, entries@.len() as int);
    }
    let mut out: Vec<usize> = Vec::new();
    let mut i: usize = 0;
    while i < entries.len()
        invariant
            i <= entries@.len(),
            out@ == spec_touched_upto(targets@, groups@, entries@, i as int),
        decreases entries@.len() - i,
    {
        let hit = if targets.len() == 0 {
            true
        } else {
            let mut k: usize = 0;
            let mut found = false;
            while k < targets.len()
                invariant
                    k <= targets@.len(),
                    targets@.len() > 0,
                    found ==> spec_touched(targets@, i, groups@, entries@),
                    !found ==> forall|k2: int| 0 <= k2 < k ==>
                        !spec_touches(#[trigger] targets@[k2], i, groups@, entries@),
                decreases targets@.len() - k,
            {
                if !found {
                    if touches(targets[k], i, groups, entries) {
                        found = true;
                    }
                }
                k = k + 1;
            }
            found
        };
        proof {
            if !hit {
                assert(!spec_touched(targets@, i, groups@, entries@));
            }
        }
        if hit {
            out.push(i);
        }
        i = i + 1;
    }
    out
}

/// Whether one mapping resolves against the built tables: its targets,
/// its color, and (for a clip mapping) its clip name.
pub open spec fn spec_mapping_ok(
    m: LightMapping,
    colors: Seq<(String, Color)>,
    clips: Seq<(String, Vec<ClipStep>)>,
    tbl: Seq<LookupEntry>,
    entries: Seq<ReceiverEntry>,
) -> bool {
    &&& (match m.targets {
        None => true,
        Some(v) => v@.len() <= 240 && forall|j: int| 0 <= j < v@.len() ==>
            spec_token_ok(#[trigger] v@[j], tbl, entries),
    })
    &&& spec_color_of(colors, m.color@) is Some
    &&& (match m.light {
        LightMappingType::Effect(_) => true,
        LightMappingType::Clip(n) => spec_clip_idx(clips, n@) is Some,
    })
}

/// The resolved target list of a mapping: empty ("all receivers")
/// where the list is absent.
pub open spec fn spec_mapping_targets(
    m: LightMapping,
    tbl: Seq<LookupEntry>,
    entries: Seq<ReceiverEntry>,
) -> Seq<u8> {
    match m.targets {
        None => Seq::empty(),
        Some(v) => spec_target_values(v@, tbl, entries),
    }
}

/// What the resolver guarantees of one built meta, relative to its
/// source mapping and the built tables.
pub open spec fn spec_meta_matches(
    m: LightMapping,
    id: usize,
    meta: MappingMeta,
    colors: Seq<(String, Color)>,
    clips: Seq<(String, Vec<ClipStep>)>,
    tbl: Seq<LookupEntry>,
    groups: Seq<GroupEntry>,
    entries: Seq<ReceiverEntry>,
) -> bool {
    &&& meta.id == id
    &&& meta.one_shot == m.spec_one_shot()
    &&& meta.attack == (match m.attack {
        Some(a) => a,
        None => 0u32,
    })
    &&& meta.sustain == (match m.sustain {
        Some(s) => s,
        None => 0u32,
    })
    &&& meta.release == (match m.release {
        Some(r) => r,
        None => 0u32,
    })
    &&& meta.tempo == (match m.tempo {
        Some(t) => t,
        None => DEFAULT_TEMPO_MILLI_BPM,
    })
    &&& meta.override_clip_color == (m.override_clip_color == Some(true))
    &&& Some(meta.color) == spec_color_of(colors, m.color@)
    &&& (match m.light {
        LightMappingType::Effect(e) => meta.light matches ResolvedLight::Effect(e2) && e2 == e,
        LightMappingType::Clip(n) => meta.light matches ResolvedLight::Clip(c)
            && Some(c as int) == spec_clip_idx(clips, n@),
    })
    &&& meta.targets@ == spec_mapping_targets(m, tbl, entries)
    &&& meta.receivers@ == spec_touched_upto(meta.targets@, groups, entries, entries.len() as int)
}

/// The structural bounds a built meta satisfies, no matter which
/// mapping it came from.
pub open spec fn spec_meta_sane(
    meta: MappingMeta,
    groups: Seq<GroupEntry>,
    entries: Seq<ReceiverEntry>,
    clips: Seq<(String, Vec<ClipStep>)>,
) -> bool {
    &&& meta.targets@.len() <= 240
    &&& meta.receivers@ == spec_touched_upto(meta.targets@, groups, entries, entries.len() as int)
    &&& (meta.light matches ResolvedLight::Clip(ci) ==> ci < clips.len())
}

/// Resolve one mapping into its meta record, or say why it does not
/// resolve.
fn create_light_mapping_meta(
    m: &LightMapping,
    id: usize,
    colors: &Vec<(String, Color)>,
    clips: &Vec<(String, Vec<ClipStep>)>,
    tbl: &Vec<LookupEntry>,
    groups: &Vec<GroupEntry>,
    entries: &Vec<ReceiverEntry>,
) -> (r: Result<MappingMeta, ShowError>)
    ensures
        match r {
            Ok(meta) => spec_mapping_ok(*m, colors@, clips@, tbl@, entries@)
                && spec_meta_matches(*m, id, meta, colors@, clips@, tbl@, groups@, entries@)
                && spec_meta_sane(meta, groups@, entries@, clips@),
            Err(_) => !spec_mapping_ok(*m, colors@, clips@, tbl@, entries@),
        },
{
    let targets: Vec<u8> = match &m.targets {
        None => Vec::new(),
        Some(v) => {
            if v.len() > 240 {
                return Err(ShowError::TooManyTargets);
            }
            match resolve_targets(v, tbl, entries) {
                Ok(t) => t,
                Err(e) => {
                    return Err(e);
                },
            }
        },
    };
    let color = match color_of(colors, &m.color) {
        Some(c) => c,
        None => {
            return Err(ShowError::UnknownColor(m.color.clone()));
        },
    };
    let light = match &m.light {
        LightMappingType::Effect(e) => ResolvedLight::Effect(*e),
        LightMappingType::Clip(n) => {
            match clip_idx(clips, n) {
                Some(c) => ResolvedLight::Clip(c),
                None => {
                    return Err(ShowError::UnknownClip(n.clone()));
                },
            }
        },
    };
    let receivers = expand_groups(&targets, groups, entries);
    let meta = MappingMeta {
        id,
        one_shot: m.is_one_shot(),
        light,
        color,
        attack: match m.attack {
            Some(a) => a,
            None => 0,
        },
        sustain: match m.sustain {
            Some(s) => s,
            None => 0,
        },
        release: match m.release {
            Some(r) => r,
            None => 0,
        },
        tempo: match m.tempo {
            Some(t) => t,
            None => DEFAULT_TEMPO_MILLI_BPM,
        },
        override_clip_color: match m.override_clip_color {
            Some(b) => b,
            None => false,
        },
        targets,
        receivers,
    };
    proof {
        if m.targets is None {
            assert(meta.targets@ =~= spec_mapping_targets(*m, tbl@, entries@));
        }
    }
    Ok(meta)
}

// --- Show-pure validity and the bridge to the built tables ------------

/// Whether some receiver declares the name, as its own name or as its
/// group's.
pub open spec fn spec_name_declared(rs: Seq<ReceiverConfiguration>, name: Seq<char>) -> bool {
    exists|j: int|
        0 <= j < rs.len() && (spec_opt_name_is((#[trigger] rs[j]).name, name) || spec_opt_name_is(
            rs[j].group_name,
            name,
        ))
}

/// Whether one target token resolves, stated over the show alone.
pub open spec fn spec_token_ok_show(t: Target, rs: Seq<ReceiverConfiguration>) -> bool {
    match t {
        Target::Number(n) => 1 <= n <= 255 && (exists|j: int|
            0 <= j < rs.len() && (#[trigger] rs[j]).id == n as u8),
        Target::Name(s) => (spec_decimal_id(s@) matches Some(v) && 1 <= v <= 255 && (exists|j: int|
            0 <= j < rs.len() && (#[trigger] rs[j]).id == v as u8)) || spec_name_declared(rs, s@),
        Target::Unsupported => false,
    }
}

/// Whether one mapping resolves, stated over the show alone.
pub open spec fn spec_mapping_ok_show(
    m: LightMapping,
    rs: Seq<ReceiverConfiguration>,
    colors: Seq<(String, Color)>,
    clips: Seq<(String, Vec<ClipStep>)>,
) -> bool {
    &&& (match m.targets {
        None => true,
        Some(v) => v@.len() <= 240 && forall|j: int| 0 <= j < v@.len() ==>
            spec_token_ok_show(#[trigger] v@[j], rs),
    })
    &&& spec_color_of(colors, m.color@) is Some
    &&& (match m.light {
        LightMappingType::Effect(_) => true,
        LightMappingType::Clip(n) => spec_clip_idx(clips, n@) is Some,
    })
}

/// The id assigned to the mapping a clip step turns on: the top-level
/// mappings come first, then the clip-embedded ones in clip order and
/// step order.
pub open spec fn spec_count_on(steps: Seq<ClipStep>, upto: int) -> int
    decreases upto,
{
    if upto <= 0 {
        0
    } else {
        spec_count_on(steps, upto - 1) + (if steps[upto - 1] is MappingOn {
            1int
        } else {
            0int
        })
    }
}

/// The number of `MappingOn` steps in all clips before clip `c`.
pub open spec fn spec_on_before(clips: Seq<(String, Vec<ClipStep>)>, c: int) -> int
    decreases c,
{
    if c <= 0 {
        0
    } else {
        spec_on_before(clips, c - 1) + spec_count_on(
            clips[c - 1].1@,
            clips[c - 1].1@.len() as int,
        )
    }
}

/// The id assigned to the mapping embedded at step `s` of clip `c`.
pub open spec fn spec_embed_id(show: ShowDefinition, c: int, s: int) -> int {
    show.mappings@.len() + spec_on_before(show.clips@, c) + spec_count_on(show.clips@[c].1@, s) + 1
}

/// Whether a whole show resolves: it is what [`ShowState::new`]
/// accepts. (The bound on the total mapping count is a machine limit:
/// ids must stay addressable.)
pub open spec fn spec_show_resolves(show: ShowDefinition) -> bool {
    &&& show.receivers@.len() <= 240
    &&& spec_group_names(show.receivers@).len() <= 70
    &&& show.mappings@.len() + spec_on_before(show.clips@, show.clips@.len() as int) <= usize::MAX
    &&& spec_triggers_ok(show.mappings@)
    &&& forall|i: int| 0 <= i < show.mappings@.len() ==>
        spec_mapping_ok_show(#[trigger] show.mappings@[i], show.receivers@, show.colors@, show.clips@)
    &&& forall|c: int, s: int|
        0 <= c < show.clips@.len() && 0 <= s < (#[trigger] show.clips@[c]).1@.len() ==>
            ((#[trigger] show.clips@[c].1@[s]) matches ClipStep::MappingOn(m) ==>
                spec_mapping_ok_show(m, show.receivers@, show.colors@, show.clips@))
}

/// What the resolver guarantees of one resolved clip step.
pub open spec fn spec_rstep_matches(
    orig: ClipStep,
    r: ResolvedStep,
    clips: Seq<(String, Vec<ClipStep>)>,
    id: usize,
) -> bool {
    match orig {
        ClipStep::MappingOn(_) => r == ResolvedStep::MappingOn(id),
        ClipStep::MappingOff(i) => r == ResolvedStep::MappingOff(i),
        ClipStep::WaitBeats(b) => r == ResolvedStep::WaitBeats(b),
        ClipStep::WaitMillis(w) => r == ResolvedStep::WaitMillis(w),
        ClipStep::Loop(i) => r == ResolvedStep::Loop(i),
        ClipStep::SetColor(c) => r == ResolvedStep::SetColor(c),
        ClipStep::SetTempo(t) => r == ResolvedStep::SetTempo(t),
        ClipStep::Stop => r == ResolvedStep::Stop,
        ClipStep::StopOther(n) => (match spec_clip_idx(clips, n@) {
            Some(ci) => r == ResolvedStep::StopOther(Some(ci as usize)),
            None => r == ResolvedStep::StopOther(None::<usize>),
        }),
        ClipStep::End => r == ResolvedStep::End,
    }
}

/// A receiver id declared anywhere is found by `spec_rid_idx`.
pub proof fn lemma_rid_idx_found(entries: Seq<ReceiverEntry>, id: u8, j: int)
    requires
        0 <= j < entries.len(),
        entries[j].id == id,
    ensures
        spec_rid_idx(entries, id) is Some,
    decreases entries.len(),
{
    if entries[0].id != id {
        lemma_rid_idx_found(entries.drop_first(), id, j - 1);
    }
}

/// Every distinct group name is declared by some receiver.
pub proof fn lemma_names_are_declared(rs: Seq<ReceiverConfiguration>, name: Seq<char>)
    requires
        spec_group_names(rs).contains(name),
    ensures
        exists|j: int| 0 <= j < rs.len() && spec_opt_name_is((#[trigger] rs[j]).group_name, name),
    decreases rs.len(),
{
    let prefix = spec_group_names(rs.drop_last());
    if spec_opt_name_is(rs.last().group_name, name) {
        assert(spec_opt_name_is(rs[rs.len() - 1].group_name, name));
    } else {
        assert(prefix.contains(name)) by {
            let whole = spec_group_names(rs);
            let k = choose|k: int| 0 <= k < whole.len() && whole[k] == name;
            match rs.last().group_name {
                Some(g) => {
                    if !prefix.contains(g@) {
                        if k < prefix.len() {
                            assert(prefix[k] == name);
                        }
                    } else {
                        assert(prefix[k] == name);
                    }
                },
                None => {
                    assert(prefix[k] == name);
                },
            }
        }
        lemma_names_are_declared(rs.drop_last(), name);
        let j = choose|j: int|
            0 <= j < rs.drop_last().len() && spec_opt_name_is(
                (#[trigger] rs.drop_last()[j]).group_name,
                name,
            );
        assert(spec_opt_name_is(rs[j].group_name, name));
    }
}

/// The facts the resolver establishes about its tables, bundled for
/// the bridge between table-relative and show-pure validity.
pub open spec fn spec_tables_ok(
    rs: Seq<ReceiverConfiguration>,
    tbl: Seq<LookupEntry>,
    groups: Seq<GroupEntry>,
    entries: Seq<ReceiverEntry>,
) -> bool {
    &&& entries.len() == rs.len()
    &&& forall|j: int| 0 <= j < rs.len() ==> (#[trigger] entries[j]).id == rs[j].id
    &&& forall|e: int| 0 <= e < tbl.len() ==> spec_lookup_entry_ok(#[trigger] tbl[e], rs, groups)
    &&& forall|j: int|
        0 <= j < rs.len() && (#[trigger] rs[j]).name is Some ==>
            spec_tbl_lookup(tbl, rs[j].name->Some_0@) is Some
    &&& forall|j: int|
        0 <= j < rs.len() && (#[trigger] rs[j]).group_name is Some ==>
            spec_tbl_lookup(tbl, rs[j].group_name->Some_0@) is Some
    &&& groups.len() == spec_group_names(rs).len()
    &&& forall|k: int| 0 <= k < groups.len() ==>
        (#[trigger] groups[k]).name@ == spec_group_names(rs)[k]
}

/// A target token resolves against the built tables exactly when it
/// resolves against the show.
pub proof fn lemma_token_bridge(
    t: Target,
    rs: Seq<ReceiverConfiguration>,
    tbl: Seq<LookupEntry>,
    groups: Seq<GroupEntry>,
    entries: Seq<ReceiverEntry>,
)
    requires
        spec_tables_ok(rs, tbl, groups, entries),
    ensures
        spec_token_ok(t, tbl, entries) == spec_token_ok_show(t, rs),
{
    match t {
        Target::Number(n) => {
            if 1 <= n <= 255 {
                let id = n as u8;
                if spec_rid_idx(entries, id) is Some {
                    lemma_rid_idx_props(entries, id);
                    let i = spec_rid_idx(entries, id)->Some_0;
                    assert(rs[i].id == id);
                }
                if exists|j: int| 0 <= j < rs.len() && (#[trigger] rs[j]).id == id {
                    let j = choose|j: int| 0 <= j < rs.len() && (#[trigger] rs[j]).id == id;
                    lemma_rid_idx_found(entries, id, j);
                }
            }
        },
        Target::Name(s) => {
            match spec_decimal_id(s@) {
                Some(v) => {
                    if 1 <= v <= 255 {
                        let id = v as u8;
                        if spec_rid_idx(entries, id) is Some {
                            lemma_rid_idx_props(entries, id);
                            let i = spec_rid_idx(entries, id)->Some_0;
                            assert(rs[i].id == id);
                        }
                        if exists|j: int| 0 <= j < rs.len() && (#[trigger] rs[j]).id == id {
                            let j = choose|j: int|
                                0 <= j < rs.len() && (#[trigger] rs[j]).id == id;
                            lemma_rid_idx_found(entries, id, j);
                        }
                    }
                },
                None => {},
            }
            if spec_tbl_lookup(tbl, s@) is Some {
                lemma_tbl_lookup_sound(tbl, s@);
                let e = choose|e: int|
                    0 <= e < tbl.len() && (#[trigger] tbl[e]).name@ == s@ && spec_tbl_lookup(
                        tbl,
                        s@,
                    ) == Some(tbl[e].value);
                if exists|k: int|
                    0 <= k < groups.len() && (#[trigger] groups[k]).name@ == tbl[e].name@
                        && tbl[e].value == groups[k].gid {
                    let k = choose|k: int|
                        0 <= k < groups.len() && (#[trigger] groups[k]).name@ == tbl[e].name@
                            && tbl[e].value == groups[k].gid;
                    assert(spec_group_names(rs).contains(s@)) by {
                        assert(spec_group_names(rs)[k] == s@);
                    }
                    lemma_names_are_declared(rs, s@);
                }
            }
            if spec_name_declared(rs, s@) {
                let j = choose|j: int|
                    0 <= j < rs.len() && (spec_opt_name_is((#[trigger] rs[j]).name, s@)
                        || spec_opt_name_is(rs[j].group_name, s@));
                assert(spec_tbl_lookup(tbl, s@) is Some);
            }
        },
        Target::Unsupported => {},
    }
}

/// `MappingOn` counts never shrink as the prefix grows.
pub proof fn lemma_count_on_mono(steps: Seq<ClipStep>, a: int, b: int)
    requires
        a <= b,
    ensures
        spec_count_on(steps, a) <= spec_count_on(steps, b),
    decreases b - a,
{
    if a < b {
        lemma_count_on_mono(steps, a, b - 1);
    }
}

/// `MappingOn` counts are never negative.
pub proof fn lemma_count_on_nonneg(steps: Seq<ClipStep>, n: int)
    ensures
        spec_count_on(steps, n) >= 0,
{
    lemma_count_on_mono(steps, 0, if n >= 0 { n } else { 0 });
}

/// The embedded-mapping count never shrinks as more clips are counted.
pub proof fn lemma_on_before_mono(clips: Seq<(String, Vec<ClipStep>)>, a: int, b: int)
    requires
        a <= b,
    ensures
        spec_on_before(clips, a) <= spec_on_before(clips, b),
    decreases b - a,
{
    if a < b {
        lemma_on_before_mono(clips, a, b - 1);
        lemma_count_on_nonneg(clips[b - 1].1@, clips[b - 1].1@.len() as int);
    }
}

/// A `MappingOn` step at `(c, s)` pushes the total embedded-mapping
/// count strictly past the count assigned before it.
pub proof fn lemma_on_counts_lower(clips: Seq<(String, Vec<ClipStep>)>, c: int, s: int)
    requires
        0 <= c < clips.len(),
        0 <= s < clips[c].1@.len(),
        clips[c].1@[s] is MappingOn,
    ensures
        spec_on_before(clips, clips.len() as int) >= spec_on_before(clips, c) + spec_count_on(
            clips[c].1@,
            s,
        ) + 1,
{
    let steps = clips[c].1@;
    assert(spec_count_on(steps, s + 1) == spec_count_on(steps, s) + 1);
    lemma_count_on_mono(steps, s + 1, steps.len() as int);
    assert(spec_on_before(clips, c + 1) == spec_on_before(clips, c) + spec_count_on(
        steps,
        steps.len() as int,
    ));
    lemma_on_before_mono(clips, c + 1, clips.len() as int);
}

/// A mapping resolves against the built tables exactly when it
/// resolves against the show.
pub proof fn lemma_mapping_bridge(
    m: LightMapping,
    rs: Seq<ReceiverConfiguration>,
    colors: Seq<(String, Color)>,
    clips: Seq<(String, Vec<ClipStep>)>,
    tbl: Seq<LookupEntry>,
    groups: Seq<GroupEntry>,
    entries: Seq<ReceiverEntry>,
)
    requires
        spec_tables_ok(rs, tbl, groups, entries),
    ensures
        spec_mapping_ok(m, colors, clips, tbl, entries) == spec_mapping_ok_show(
            m,
            rs,
            colors,
            clips,
        ),
{
    match m.targets {
        None => {},
        Some(v) => {
            assert forall|j: int| 0 <= j < v@.len() implies (spec_token_ok(
                #[trigger] v@[j],
                tbl,
                entries,
            ) == spec_token_ok_show(v@[j], rs)) by {
                lemma_token_bridge(v@[j], rs, tbl, groups, entries);
            }
        },
    }
}

/// Resolve every top-level mapping into its meta record, ids
/// positional from 1.
#[verifier::loop_isolation(false)]
fn resolve_top_mappings(
    show: &ShowDefinition,
    tbl: &Vec<LookupEntry>,
    groups: &Vec<GroupEntry>,
    entries: &Vec<ReceiverEntry>,
) -> (r: Result<Vec<MappingMeta>, ShowError>)
    ensures
        match r {
            Ok(v) => {
                &&& v@.len() == show.mappings@.len()
                &&& forall|i: int| 0 <= i < v@.len() ==> (#[trigger] v@[i]).id == i + 1
                &&& forall|i: int| 0 <= i < v@.len() ==>
                    spec_meta_sane(#[trigger] v@[i], groups@, entries@, show.clips@)
                &&& forall|i: int| 0 <= i < show.mappings@.len() ==>
                    spec_meta_matches(
                        #[trigger] show.mappings@[i],
                        (i + 1) as usize,
                        v@[i],
                        show.colors@,
                        show.clips@,
                        tbl@,
                        groups@,
                        entries@,
                    )
                &&& forall|i: int| 0 <= i < show.mappings@.len() ==>
                    spec_mapping_ok(
                        #[trigger] show.mappings@[i],
                        show.colors@,
                        show.clips@,
                        tbl@,
                        entries@,
                    )
            },
            Err(_) => exists|i: int|
                0 <= i < show.mappings@.len() && !spec_mapping_ok(
                    #[trigger] show.mappings@[i],
                    show.colors@,
                    show.clips@,
                    tbl@,
                    entries@,
                ),
        },
{
    let top = show.mappings.len();
    let mut mappings: Vec<MappingMeta> = Vec::new();
    let mut i: usize = 0;
    while i < top
        invariant
            i <= top,
            mappings@.len() == i,
            forall|i2: int| 0 <= i2 < i ==> (#[trigger] mappings@[i2]).id == i2 + 1,
            forall|i2: int| 0 <= i2 < i ==>
                spec_meta_sane(#[trigger] mappings@[i2], groups@, entries@, show.clips@),
            forall|i2: int| 0 <= i2 < i ==>
                spec_meta_matches(
                    #[trigger] show.mappings@[i2],
                    (i2 + 1) as usize,
                    mappings@[i2],
                    show.colors@,
                    show.clips@,
                    tbl@,
                    groups@,
                    entries@,
                ),
            forall|i2: int| 0 <= i2 < i ==>
                spec_mapping_ok(
                    #[trigger] show.mappings@[i2],
                    show.colors@,
                    show.clips@,
                    tbl@,
                    entries@,
                ),
        decreases top - i,
    {
        match create_light_mapping_meta(
            &show.mappings[i],
            i + 1,
            &show.colors,
            &show.clips,
            tbl,
            groups,
            entries,
        ) {
            Ok(meta) => {
                mappings.push(meta);
            },
            Err(e) => {
                return Err(e);
            },
        }
        i = i + 1;
    }
    Ok(mappings)
}

/// Resolve the steps of clip `c`, appending a meta record for each
/// `MappingOn` step; ids continue from the current mapping count.
#[verifier::loop_isolation(false)]
#[verifier::rlimit(100)]
#[verifier::spinoff_prover]
fn resolve_clip_steps(
    show: &ShowDefinition,
    c: usize,
    tbl: &Vec<LookupEntry>,
    groups: &Vec<GroupEntry>,
    entries: &Vec<ReceiverEntry>,
    mappings: &mut Vec<MappingMeta>,
) -> (r: Result<Vec<ResolvedStep>, ShowError>)
    requires
        c < show.clips@.len(),
        old(mappings)@.len() == show.mappings@.len() + spec_on_before(show.clips@, c as int),
        forall|i: int| 0 <= i < old(mappings)@.len() ==>
            (#[trigger] old(mappings)@[i]).id == i + 1,
        forall|i: int| 0 <= i < old(mappings)@.len() ==>
            spec_meta_sane(#[trigger] old(mappings)@[i], groups@, entries@, show.clips@),
    ensures
        match r {
            Ok(rsteps) => {
                &&& final(mappings)@.len() == show.mappings@.len() + spec_on_before(
                    show.clips@,
                    c as int + 1,
                )
                &&& forall|i: int| 0 <= i < old(mappings)@.len() ==>
                    #[trigger] final(mappings)@[i] == old(mappings)@[i]
                &&& forall|i: int| 0 <= i < final(mappings)@.len() ==>
                    (#[trigger] final(mappings)@[i]).id == i + 1
                &&& forall|i: int| 0 <= i < final(mappings)@.len() ==>
                    spec_meta_sane(#[trigger] final(mappings)@[i], groups@, entries@, show.clips@)
                &&& rsteps@.len() == show.clips@[c as int].1@.len()
                &&& forall|s: int| 0 <= s < show.clips@[c as int].1@.len() ==>
                    spec_rstep_matches(
                        #[trigger] show.clips@[c as int].1@[s],
                        rsteps@[s],
                        show.clips@,
                        spec_embed_id(*show, c as int, s) as usize,
                    )
                &&& forall|s: int| 0 <= s < show.clips@[c as int].1@.len() ==>
                    ((#[trigger] show.clips@[c as int].1@[s]) matches ClipStep::MappingOn(m) ==>
                        spec_meta_matches(
                            m,
                            spec_embed_id(*show, c as int, s) as usize,
                            final(mappings)@[spec_embed_id(*show, c as int, s) - 1],
                            show.colors@,
                            show.clips@,
                            tbl@,
                            groups@,
                            entries@,
                        ))
                &&& forall|s: int| 0 <= s < show.clips@[c as int].1@.len() ==>
                    ((#[trigger] show.clips@[c as int].1@[s]) matches ClipStep::MappingOn(m) ==>
                        spec_mapping_ok(m, show.colors@, show.clips@, tbl@, entries@))
            },
            Err(_) => {
                ||| show.mappings@.len() + spec_on_before(show.clips@, show.clips@.len() as int)
                    > usize::MAX
                ||| exists|s: int|
                    0 <= s < show.clips@[c as int].1@.len() && ((
                    #[trigger] show.clips@[c as int].1@[s]) matches ClipStep::MappingOn(m)
                        && !spec_mapping_ok(m, show.colors@, show.clips@, tbl@, entries@))
            },
        },
{
    let top = show.mappings.len();
    let pair = &show.clips[c];
    let mut rsteps: Vec<ResolvedStep> = Vec::new();
    let mut s: usize = 0;
    while s < pair.1.len()
        invariant
            s <= pair.1@.len(),
            rsteps@.len() == s,
            mappings@.len() == top + spec_on_before(show.clips@, c as int) + spec_count_on(
                pair.1@,
                s as int,
            ),
            forall|i2: int| 0 <= i2 < old(mappings)@.len() ==>
                #[trigger] mappings@[i2] == old(mappings)@[i2],
            forall|i2: int| 0 <= i2 < mappings@.len() ==>
                (#[trigger] mappings@[i2]).id == i2 + 1,
            forall|i2: int| 0 <= i2 < mappings@.len() ==>
                spec_meta_sane(#[trigger] mappings@[i2], groups@, entries@, show.clips@),
            forall|s2: int| 0 <= s2 < s ==>
                spec_rstep_matches(
                    #[trigger] pair.1@[s2],
                    rsteps@[s2],
                    show.clips@,
                    spec_embed_id(*show, c as int, s2) as usize,
                ),
            forall|s2: int| 0 <= s2 < s ==>
                ((#[trigger] pair.1@[s2]) matches ClipStep::MappingOn(m) ==>
                    spec_meta_matches(
                        m,
                        spec_embed_id(*show, c as int, s2) as usize,
                        mappings@[spec_embed_id(*show, c as int, s2) - 1],
                        show.colors@,
                        show.clips@,
                        tbl@,
                        groups@,
                        entries@,
                    )),
            forall|s2: int| 0 <= s2 < s ==>
                ((#[trigger] pair.1@[s2]) matches ClipStep::MappingOn(m) ==>
                    spec_mapping_ok(m, show.colors@, show.clips@, tbl@, entries@)),
        decreases pair.1@.len() - s,
    {
        match &pair.1[s] {
            ClipStep::MappingOn(m) => {
                proof {
                    lemma_count_on_nonneg(pair.1@, s as int);
                    lemma_on_before_mono(show.clips@, 0, c as int);
                }
                if mappings.len() == usize::MAX {
                    proof {
                        lemma_on_counts_lower(show.clips@, c as int, s as int);
                    }
                    return Err(ShowError::TooManyMappings);
                }
                let id = mappings.len() + 1;
                match create_light_mapping_meta(
                    m,
                    id,
                    &show.colors,
                    &show.clips,
                    tbl,
                    groups,
                    entries,
                ) {
                    Ok(meta) => {
                        mappings.push(meta);
                        rsteps.push(ResolvedStep::MappingOn(id));
                        proof {
                            // ids of earlier on-steps lie below the old
                            // length, so the push kept their metas
                            assert forall|s2: int|
                                0 <= s2 < s && (#[trigger] pair.1@[s2]) is MappingOn implies
                                1 <= spec_embed_id(*show, c as int, s2)
                                    && spec_embed_id(*show, c as int, s2) <= top
                                    + spec_on_before(show.clips@, c as int) + spec_count_on(
                                    pair.1@,
                                    s as int,
                                ) by {
                                lemma_count_on_nonneg(pair.1@, s2);
                                assert(spec_count_on(pair.1@, s2 + 1) == spec_count_on(
                                    pair.1@,
                                    s2,
                                ) + 1);
                                lemma_count_on_mono(pair.1@, s2 + 1, s as int);
                            }
                        }
                    },
                    Err(e) => {
                        return Err(e);
                    },
                }
            },
            ClipStep::MappingOff(i2) => {
                rsteps.push(ResolvedStep::MappingOff(*i2));
            },
            ClipStep::WaitBeats(b) => {
                rsteps.push(ResolvedStep::WaitBeats(*b));
            },
            ClipStep::WaitMillis(w) => {
                rsteps.push(ResolvedStep::WaitMillis(*w));
            },
            ClipStep::Loop(i2) => {
                rsteps.push(ResolvedStep::Loop(*i2));
            },
            ClipStep::SetColor(col) => {
                rsteps.push(ResolvedStep::SetColor(*col));
            },
            ClipStep::SetTempo(t) => {
                rsteps.push(ResolvedStep::SetTempo(*t));
            },
            ClipStep::Stop => {
                rsteps.push(ResolvedStep::Stop);
            },
            ClipStep::StopOther(n) => {
                rsteps.push(ResolvedStep::StopOther(clip_idx(&show.clips, n)));
            },
            ClipStep::End => {
                rsteps.push(ResolvedStep::End);
            },
        }
        s = s + 1;
    }
    Ok(rsteps)
}

/// Resolve every clip timeline, appending a meta record for each
/// clip-embedded mapping; ids continue past the top-level ones in clip
/// order and step order.
#[verifier::loop_isolation(false)]
#[verifier::rlimit(100)]
#[verifier::spinoff_prover]
fn resolve_clips(
    show: &ShowDefinition,
    tbl: &Vec<LookupEntry>,
    groups: &Vec<GroupEntry>,
    entries: &Vec<ReceiverEntry>,
    mappings: &mut Vec<MappingMeta>,
) -> (r: Result<Vec<ClipDef>, ShowError>)
    requires
        old(mappings)@.len() == show.mappings@.len(),
        forall|i: int| 0 <= i < old(mappings)@.len() ==>
            (#[trigger] old(mappings)@[i]).id == i + 1,
        forall|i: int| 0 <= i < old(mappings)@.len() ==>
            spec_meta_sane(#[trigger] old(mappings)@[i], groups@, entries@, show.clips@),
    ensures
        match r {
            Ok(clips) => {
                &&& final(mappings)@.len() == show.mappings@.len() + spec_on_before(
                    show.clips@,
                    show.clips@.len() as int,
                )
                &&& forall|i: int| 0 <= i < old(mappings)@.len() ==>
                    #[trigger] final(mappings)@[i] == old(mappings)@[i]
                &&& forall|i: int| 0 <= i < final(mappings)@.len() ==>
                    (#[trigger] final(mappings)@[i]).id == i + 1
                &&& forall|i: int| 0 <= i < final(mappings)@.len() ==>
                    spec_meta_sane(#[trigger] final(mappings)@[i], groups@, entries@, show.clips@)
                &&& clips@.len() == show.clips@.len()
                &&& forall|c: int| 0 <= c < show.clips@.len() ==>
                    (#[trigger] clips@[c]).name@ == show.clips@[c].0@
                        && clips@[c].steps@.len() == show.clips@[c].1@.len()
                &&& forall|c: int, s: int|
                    0 <= c < show.clips@.len() && 0 <= s < (#[trigger] show.clips@[c]).1@.len()
                        ==> spec_rstep_matches(
                        #[trigger] show.clips@[c].1@[s],
                        clips@[c].steps@[s],
                        show.clips@,
                        spec_embed_id(*show, c, s) as usize,
                    )
                &&& forall|c: int, s: int|
                    0 <= c < show.clips@.len() && 0 <= s < (#[trigger] show.clips@[c]).1@.len()
                        ==> ((#[trigger] show.clips@[c].1@[s]) matches ClipStep::MappingOn(m) ==>
                        spec_meta_matches(
                            m,
                            spec_embed_id(*show, c, s) as usize,
                            final(mappings)@[spec_embed_id(*show, c, s) - 1],
                            show.colors@,
                            show.clips@,
                            tbl@,
                            groups@,
                            entries@,
                        ))
                &&& forall|c: int, s: int|
                    0 <= c < show.clips@.len() && 0 <= s < (#[trigger] show.clips@[c]).1@.len()
                        ==> ((#[trigger] show.clips@[c].1@[s]) matches ClipStep::MappingOn(m) ==>
                        spec_mapping_ok(m, show.colors@, show.clips@, tbl@, entries@))
            },
            Err(_) => {
                ||| show.mappings@.len() + spec_on_before(show.clips@, show.clips@.len() as int)
                    > usize::MAX
                ||| exists|c: int, s: int|
                    0 <= c < show.clips@.len() && 0 <= s < (#[trigger] show.clips@[c]).1@.len()
                        && ((#[trigger] show.clips@[c].1@[s]) matches ClipStep::MappingOn(m)
                        && !spec_mapping_ok(m, show.colors@, show.clips@, tbl@, entries@))
            },
        },
{
    let top = show.mappings.len();
    let mut clips: Vec<ClipDef> = Vec::new();
    let mut c: usize = 0;
    while c < show.clips.len()
        invariant
            c <= show.clips@.len(),
            clips@.len() == c,
            mappings@.len() == top + spec_on_before(show.clips@, c as int),
            forall|i2: int| 0 <= i2 < top ==>
                #[trigger] mappings@[i2] == old(mappings)@[i2],
            forall|i2: int| 0 <= i2 < mappings@.len() ==>
                (#[trigger] mappings@[i2]).id == i2 + 1,
            forall|i2: int| 0 <= i2 < mappings@.len() ==>
                spec_meta_sane(#[trigger] mappings@[i2], groups@, entries@, show.clips@),
            forall|c2: int| 0 <= c2 < c ==>
                (#[trigger] clips@[c2]).name@ == show.clips@[c2].0@
                    && clips@[c2].steps@.len() == show.clips@[c2].1@.len(),
            forall|c2: int, s2: int|
                0 <= c2 < c && 0 <= s2 < (#[trigger] show.clips@[c2]).1@.len() ==>
                    spec_rstep_matches(
                        #[trigger] show.clips@[c2].1@[s2],
                        clips@[c2].steps@[s2],
                        show.clips@,
                        spec_embed_id(*show, c2, s2) as usize,
                    ),
            forall|c2: int, s2: int|
                0 <= c2 < c && 0 <= s2 < (#[trigger] show.clips@[c2]).1@.len() ==>
                    ((#[trigger] show.clips@[c2].1@[s2]) matches ClipStep::MappingOn(m) ==>
                        spec_meta_matches(
                            m,
                            spec_embed_id(*show, c2, s2) as usize,
                            mappings@[spec_embed_id(*show, c2, s2) - 1],
                            show.colors@,
                            show.clips@,
                            tbl@,
                            groups@,
                            entries@,
                        )),
            forall|c2: int, s2: int|
                0 <= c2 < c && 0 <= s2 < (#[trigger] show.clips@[c2]).1@.len() ==>
                    ((#[trigger] show.clips@[c2].1@[s2]) matches ClipStep::MappingOn(m) ==>
                        spec_mapping_ok(m, show.colors@, show.clips@, tbl@, entries@)),
        decreases show.clips@.len() - c,
    {
        let ghost mappings_before = mappings@;
        proof {
            lemma_on_before_mono(show.clips@, 0, c as int);
        }
        let rsteps = match resolve_clip_steps(show, c, tbl, groups, entries, mappings) {
            Ok(v) => v,
            Err(e) => {
                return Err(e);
            },
        };
        let pair = &show.clips[c];
        clips.push(ClipDef { name: pair.0.clone(), steps: rsteps });
        proof {
            // metas of earlier clips sit below the old length, so the
            // step kept them unchanged
            assert forall|c2: int, s2: int|
                0 <= c2 < c as int && 0 <= s2 < (#[trigger] show.clips@[c2]).1@.len() implies
                ((#[trigger] show.clips@[c2].1@[s2]) matches ClipStep::MappingOn(m) ==>
                    spec_meta_matches(
                        m,
                        spec_embed_id(*show, c2, s2) as usize,
                        mappings@[spec_embed_id(*show, c2, s2) - 1],
                        show.colors@,
                        show.clips@,
                        tbl@,
                        groups@,
                        entries@,
                    )) by {
                match show.clips@[c2].1@[s2] {
                    ClipStep::MappingOn(_) => {
                        lemma_on_counts_lower_prefix(show.clips@, c2, s2, c as int);
                        lemma_count_on_nonneg(show.clips@[c2].1@, s2);
                        lemma_on_before_mono(show.clips@, 0, c2);
                    },
                    _ => {},
                }
            }
        }
        c = c + 1;
    }
    Ok(clips)
}

/// A `MappingOn` step at `(c, s)` received an id not exceeding the
/// count assigned before any later clip `d`.
pub proof fn lemma_on_counts_lower_prefix(
    clips: Seq<(String, Vec<ClipStep>)>,
    c: int,
    s: int,
    d: int,
)
    requires
        0 <= c < d <= clips.len(),
        0 <= s < clips[c].1@.len(),
        clips[c].1@[s] is MappingOn,
    ensures
        spec_on_before(clips, d) >= spec_on_before(clips, c) + spec_count_on(clips[c].1@, s) + 1,
{
    let steps = clips[c].1@;
    assert(spec_count_on(steps, s + 1) == spec_count_on(steps, s) + 1);
    lemma_count_on_mono(steps, s + 1, steps.len() as int);
    assert(spec_on_before(clips, c + 1) == spec_on_before(clips, c) + spec_count_on(
        steps,
        steps.len() as int,
    ));
    lemma_on_before_mono(clips, c + 1, d);
}

/// With sound and complete tables, table-relative validity of every
/// mapping gives show-pure resolvability.
#[verifier::rlimit(100)]
pub proof fn lemma_show_resolves_from_parts(
    show: ShowDefinition,
    tbl: Seq<LookupEntry>,
    groups: Seq<GroupEntry>,
    entries: Seq<ReceiverEntry>,
)
    requires
        spec_tables_ok(show.receivers@, tbl, groups, entries),
        show.receivers@.len() <= 240,
        spec_group_names(show.receivers@).len() <= 70,
        show.mappings@.len() + spec_on_before(show.clips@, show.clips@.len() as int) <= usize::MAX,
        spec_triggers_ok(show.mappings@),
        forall|i: int| 0 <= i < show.mappings@.len() ==>
            spec_mapping_ok(#[trigger] show.mappings@[i], show.colors@, show.clips@, tbl, entries),
        forall|c: int, s: int|
            0 <= c < show.clips@.len() && 0 <= s < (#[trigger] show.clips@[c]).1@.len() ==>
                ((#[trigger] show.clips@[c].1@[s]) matches ClipStep::MappingOn(m) ==>
                    spec_mapping_ok(m, show.colors@, show.clips@, tbl, entries)),
    ensures
        spec_show_resolves(show),
{
    assert forall|i: int| 0 <= i < show.mappings@.len() implies spec_mapping_ok_show(
        #[trigger] show.mappings@[i],
        show.receivers@,
        show.colors@,
        show.clips@,
    ) by {
        lemma_mapping_bridge(
            show.mappings@[i],
            show.receivers@,
            show.colors@,
            show.clips@,
            tbl,
            groups,
            entries,
        );
    }
    assert forall|c: int, s: int|
        0 <= c < show.clips@.len() && 0 <= s < (#[trigger] show.clips@[c]).1@.len() implies ((
    #[trigger] show.clips@[c].1@[s]) matches ClipStep::MappingOn(m) ==> spec_mapping_ok_show(
        m,
        show.receivers@,
        show.colors@,
        show.clips@,
    )) by {
        match show.clips@[c].1@[s] {
            ClipStep::MappingOn(m) => {
                assert(spec_mapping_ok(m, show.colors@, show.clips@, tbl, entries));
                lemma_mapping_bridge(
                    m,
                    show.receivers@,
                    show.colors@,
                    show.clips@,
                    tbl,
                    groups,
                    entries,
                );
            },
            _ => {},
        }
    }
}

/// The resolved tables of an accepted show are structurally sound.
#[verifier::rlimit(100)]
pub proof fn lemma_state_wf_from_parts(st: ShowState, show: ShowDefinition)
    requires
        st.receivers@.len() <= 240,
        st.mappings@.len() == show.mappings@.len() + spec_on_before(
            show.clips@,
            show.clips@.len() as int,
        ),
        forall|i: int| 0 <= i < st.mappings@.len() ==> (#[trigger] st.mappings@[i]).id == i + 1,
        forall|i: int| 0 <= i < st.mappings@.len() ==>
            spec_meta_sane(#[trigger] st.mappings@[i], st.groups@, st.receivers@, show.clips@),
        st.clips@.len() == show.clips@.len(),
        forall|c: int| 0 <= c < show.clips@.len() ==>
            (#[trigger] st.clips@[c]).steps@.len() == show.clips@[c].1@.len(),
        forall|c: int, s: int|
            0 <= c < show.clips@.len() && 0 <= s < (#[trigger] show.clips@[c]).1@.len() ==>
                spec_rstep_matches(
                    #[trigger] show.clips@[c].1@[s],
                    st.clips@[c].steps@[s],
                    show.clips@,
                    spec_embed_id(show, c, s) as usize,
                ),
        forall|k: int| 0 <= k < st.note_triggers@.len() ==>
            1 <= (#[trigger] st.note_triggers@[k]).mapping_id <= show.mappings@.len(),
        forall|k: int| 0 <= k < st.controller_triggers@.len() ==>
            1 <= (#[trigger] st.controller_triggers@[k]).mapping_id <= show.mappings@.len(),
        st.mappings@.len() <= usize::MAX,
    ensures
        st.wf(),
{
    lemma_on_before_mono(show.clips@, 0, show.clips@.len() as int);
    assert forall|i2: int| 0 <= i2 < st.mappings@.len() implies
        (#[trigger] st.mappings@[i2]).receivers@.len() <= 240 && (forall|k: int|
            0 <= k < st.mappings@[i2].receivers@.len() ==>
                #[trigger] st.mappings@[i2].receivers@[k] < st.receivers@.len()) by {
        lemma_touched_upto_bounded(
            st.mappings@[i2].targets@,
            st.groups@,
            st.receivers@,
            st.receivers@.len() as int,
        );
    }
    assert forall|c2: int, s2: int|
        0 <= c2 < st.clips@.len() && 0 <= s2 < (#[trigger] st.clips@[c2]).steps@.len() implies
        st.spec_step_wf(#[trigger] st.clips@[c2].steps@[s2]) by {
        match show.clips@[c2].1@[s2] {
            ClipStep::MappingOn(_) => {
                lemma_on_counts_lower(show.clips@, c2, s2);
                lemma_count_on_nonneg(show.clips@[c2].1@, s2);
                lemma_on_before_mono(show.clips@, 0, c2);
            },
            ClipStep::StopOther(n) => {
                lemma_clip_idx_bounded(show.clips@, n@);
            },
            _ => {},
        }
    }
}

impl ShowState {
    /// Resolve a show definition against a configuration. Accepts the
    /// show exactly when [`spec_show_resolves`] holds of it; the built
    /// tables then correspond to the show as each clause below states:
    /// group ids count up from [`GROUP_ID_FIRST`] in first-seen order,
    /// and the target lookup binds every declared receiver name and
    /// group name to its id (a target given as a decimal id string
    /// resolves through the token rules, not the table).
    #[verifier::loop_isolation(false)]
    #[verifier::rlimit(100)]
    #[verifier::spinoff_prover]
    pub fn new(show: &ShowDefinition, config: &ConfigFile) -> (r: Result<ShowState, ShowError>)
        ensures
            match r {
                Ok(st) => {
                    &&& st.wf()
                    &&& spec_show_resolves(*show)
                    &&& st.config == *config
                    &&& st.receivers@.len() == show.receivers@.len()
                    &&& forall|j: int| 0 <= j < show.receivers@.len() ==>
                        (#[trigger] st.receivers@[j]).id == show.receivers@[j].id
                            && st.receivers@[j].led_count == show.receivers@[j].led_count
                            && spec_receiver_group_ok(
                            show.receivers@[j],
                            st.receivers@[j],
                            st.groups@,
                        )
                    &&& st.groups@.len() == spec_group_names(show.receivers@).len()
                    &&& forall|k: int| 0 <= k < st.groups@.len() ==>
                        (#[trigger] st.groups@[k]).name@ == spec_group_names(show.receivers@)[k]
                            && st.groups@[k].gid == GROUP_ID_FIRST + k
                            && st.groups@[k].member_idxs@ == spec_member_idxs(
                            show.receivers@,
                            st.groups@[k].name@,
                        )
                    &&& forall|e: int| 0 <= e < st.target_lookup@.len() ==>
                        spec_lookup_entry_ok(
                            #[trigger] st.target_lookup@[e],
                            show.receivers@,
                            st.groups@,
                        )
                    &&& forall|j: int|
                        0 <= j < show.receivers@.len() && (#[trigger] show.receivers@[j]).name
                            is Some ==> spec_tbl_lookup(
                            st.target_lookup@,
                            show.receivers@[j].name->Some_0@,
                        ) is Some
                    &&& forall|j: int|
                        0 <= j < show.receivers@.len() && (#[trigger] show.receivers@[j]).group_name
                            is Some ==> spec_tbl_lookup(
                            st.target_lookup@,
                            show.receivers@[j].group_name->Some_0@,
                        ) is Some
                    &&& st.note_triggers@ == spec_note_triggers(show.mappings@)
                    &&& st.controller_triggers@ == spec_controller_triggers(show.mappings@)
                    &&& st.mappings@.len() == show.mappings@.len() + spec_on_before(
                        show.clips@,
                        show.clips@.len() as int,
                    )
                    &&& forall|i: int| 0 <= i < show.mappings@.len() ==>
                        spec_meta_matches(
                            #[trigger] show.mappings@[i],
                            (i + 1) as usize,
                            st.mappings@[i],
                            show.colors@,
                            show.clips@,
                            st.target_lookup@,
                            st.groups@,
                            st.receivers@,
                        )
                    &&& st.clips@.len() == show.clips@.len()
                    &&& forall|c: int| 0 <= c < show.clips@.len() ==>
                        (#[trigger] st.clips@[c]).name@ == show.clips@[c].0@
                            && st.clips@[c].steps@.len() == show.clips@[c].1@.len()
                    &&& forall|c: int, s: int|
                        0 <= c < show.clips@.len() && 0 <= s < (#[trigger] show.clips@[c]).1@.len()
                            ==> spec_rstep_matches(
                            #[trigger] show.clips@[c].1@[s],
                            st.clips@[c].steps@[s],
                            show.clips@,
                            spec_embed_id(*show, c, s) as usize,
                        )
                    &&& forall|c: int, s: int|
                        0 <= c < show.clips@.len() && 0 <= s < (#[trigger] show.clips@[c]).1@.len()
                            ==> ((#[trigger] show.clips@[c].1@[s]) matches ClipStep::MappingOn(m)
                            ==> spec_meta_matches(
                            m,
                            spec_embed_id(*show, c, s) as usize,
                            st.mappings@[spec_embed_id(*show, c, s) - 1],
                            show.colors@,
                            show.clips@,
                            st.target_lookup@,
                            st.groups@,
                            st.receivers@,
                        ))
                },
                Err(_) => !spec_show_resolves(*show),
            },
    {
        let (entries, groups, tbl) = match build_receivers(&show.receivers) {
            Ok(b) => b,
            Err(e) => {
                return Err(e);
            },
        };
        let (note_triggers, controller_triggers) = match build_triggers(&show.mappings) {
            Ok(b) => b,
            Err(e) => {
                return Err(e);
            },
        };
        proof {
            assert(spec_tables_ok(show.receivers@, tbl@, groups@, entries@));
        }
        let mut mappings = match resolve_top_mappings(show, &tbl, &groups, &entries) {
            Ok(v) => v,
            Err(e) => {
                proof {
                    let i = choose|i: int|
                        0 <= i < show.mappings@.len() && !spec_mapping_ok(
                            #[trigger] show.mappings@[i],
                            show.colors@,
                            show.clips@,
                            tbl@,
                            entries@,
                        );
                    lemma_mapping_bridge(
                        show.mappings@[i],
                        show.receivers@,
                        show.colors@,
                        show.clips@,
                        tbl@,
                        groups@,
                        entries@,
                    );
                }
                return Err(e);
            },
        };
        let clips = match resolve_clips(show, &tbl, &groups, &entries, &mut mappings) {
            Ok(v) => v,
            Err(e) => {
                proof {
                    if exists|c: int, s: int|
                        0 <= c < show.clips@.len() && 0 <= s
                            < (#[trigger] show.clips@[c]).1@.len() && ((
                        #[trigger] show.clips@[c].1@[s]) matches ClipStep::MappingOn(m)
                            && !spec_mapping_ok(m, show.colors@, show.clips@, tbl@, entries@)) {
                        let (c, s) = choose|c: int, s: int|
                            0 <= c < show.clips@.len() && 0 <= s
                                < (#[trigger] show.clips@[c]).1@.len() && ((
                            #[trigger] show.clips@[c].1@[s]) matches ClipStep::MappingOn(m)
                                && !spec_mapping_ok(m, show.colors@, show.clips@, tbl@, entries@));
                        match show.clips@[c].1@[s] {
                            ClipStep::MappingOn(m) => {
                                lemma_mapping_bridge(
                                    m,
                                    show.receivers@,
                                    show.colors@,
                                    show.clips@,
                                    tbl@,
                                    groups@,
                                    entries@,
                                );
                            },
                            _ => {},
                        }
                    }
                }
                return Err(e);
            },
        };
        let total_count = mappings.len();
        let st = ShowState {
            config: config.clone(),
            receivers: entries,
            groups,
            target_lookup: tbl,
            note_triggers,
            controller_triggers,
            mappings,
            clips,
        };
        proof {
            assert(st.mappings@.len() == total_count);
            lemma_show_resolves_from_parts(*show, st.target_lookup@, st.groups@, st.receivers@);
            lemma_state_wf_from_parts(st, *show);
        }
        Ok(st)
    }
}

} // verus!
