//! The show runtime: activation and deactivation with receiver
//! ownership, sustain buffering, the lights-out keepalive, MIDI
//! dispatch and clip stepping.
//!
//! Every operation that the hardware loop would transmit is appended
//! to a caller-supplied packet list instead; the caller owns the radio.
//! Each operation's contract states the new runtime state and the
//! emitted packets as a function of the old state. Deactivation can
//! cascade through clips; its contracts are exact for shows whose
//! clips only turn on effect mappings ([`ShowState::spec_clips_flat`]),
//! and for every show they promise that ownership is only ever cleared.

use vstd::prelude::*;

use crate::clip::{beats_to_millis, spec_started_clip, spec_stopped_clip, ClipView, ResolvedStep};
use crate::packet::{Command, Packet, PacketPayload, PacketView, ShowPacket, spec_adr, spec_sustain, convert_millis_adr, convert_millis_sustain};
use crate::show::Effect;
use crate::midi::MidiEvent;
use crate::showstate::{EffectOverrides, MappingMeta, MidiTrigger, MutableShowState, ReceiverEntry, ReceiverState, ResolvedLight, ShowState, StateView, INACTIVE_MAPPING};
use crate::util::copy_bytes;

verus! {

/// The images of a packet list.
pub open spec fn spec_pkts(s: Seq<Packet>) -> Seq<PacketView> {
    s.map_values(|p: Packet| p@)
}

/// The packet list only grew: the images of the old packets stand
/// unchanged at the front of the new list.
pub open spec fn spec_pkts_prefix(a: Seq<Packet>, b: Seq<Packet>) -> bool {
    a.len() <= b.len() && spec_pkts(b).subrange(0, a.len() as int) == spec_pkts(a)
}

/// An unchanged list trivially only appended.
pub proof fn lemma_pkts_prefix_refl(a: Seq<Packet>)
    ensures
        spec_pkts_prefix(a, a),
{
    assert(spec_pkts(a).subrange(0, a.len() as int) =~= spec_pkts(a));
}

/// Only-appending composes.
pub proof fn lemma_pkts_prefix_trans(a: Seq<Packet>, b: Seq<Packet>, c: Seq<Packet>)
    requires
        spec_pkts_prefix(a, b),
        spec_pkts_prefix(b, c),
    ensures
        spec_pkts_prefix(a, c),
{
    assert(spec_pkts(c).subrange(0, a.len() as int) =~= spec_pkts(b).subrange(0, a.len() as int));
}

/// A list extended by some packets keeps its old images in front.
pub proof fn lemma_pkts_prefix_of_extension(a: Seq<Packet>, b: Seq<Packet>, x: Seq<PacketView>)
    requires
        spec_pkts(b) == spec_pkts(a) + x,
    ensures
        spec_pkts_prefix(a, b),
{
    assert(spec_pkts(a).len() == a.len());
    assert(spec_pkts(b).len() == b.len());
    assert(spec_pkts(b).subrange(0, a.len() as int) =~= spec_pkts(a));
}

/// The rounded BPM byte for a tempo in milli-BPM, saturating at 255.
pub open spec fn spec_tempo_byte(milli_bpm: u32) -> u8 {
    let r = (milli_bpm + 500) / 1000;
    if r > 255 {
        255u8
    } else {
        (r as u8)
    }
}

/// Round a tempo in milli-BPM to its wire byte.
pub fn tempo_byte(milli_bpm: u32) -> (b: u8)
    ensures
        b == spec_tempo_byte(milli_bpm),
{
    let r = ((milli_bpm as u64) + 500) / 1000;
    if r > 255 {
        255
    } else {
        r as u8
    }
}

/// The show packet an activation of `meta` sends: overrides win over
/// the mapping's fields, then the effect packs its parameters.
pub open spec fn spec_effect_packet(meta: MappingMeta, e: Effect, ov: Option<EffectOverrides>) -> ShowPacket {
    let color = match ov {
        Some(o) => match o.color {
            Some(c) => c,
            None => meta.color,
        },
        None => meta.color,
    };
    let attack_ms = match ov {
        Some(o) => match o.attack {
            Some(a) => a,
            None => meta.attack,
        },
        None => meta.attack,
    };
    let sustain_ms = match ov {
        Some(o) => match o.sustain {
            Some(x) => x,
            None => meta.sustain,
        },
        None => meta.sustain,
    };
    let release_ms = match ov {
        Some(o) => match o.release {
            Some(x) => x,
            None => meta.release,
        },
        None => meta.release,
    };
    let tempo_mbpm = match ov {
        Some(o) => match o.tempo {
            Some(t) => t,
            None => meta.tempo,
        },
        None => meta.tempo,
    };
    let base = ShowPacket {
        effect: e.spec_effect_id(),
        color: color,
        attack: spec_adr(attack_ms),
        sustain: spec_sustain(sustain_ms),
        release: spec_adr(release_ms),
        param1: 0,
        param2: 0,
        tempo: spec_tempo_byte(tempo_mbpm),
    };
    e.spec_populate(base)
}

/// Receiver states after an activation touches the cells at `idxs`:
/// the mapping takes ownership of each, or clears each if it is
/// one-shot.
pub open spec fn spec_apply_activate(
    rs: Seq<ReceiverState>,
    idxs: Seq<usize>,
    id: usize,
    one_shot: bool,
) -> Seq<ReceiverState> {
    Seq::new(
        rs.len(),
        |j: int| if idxs.contains(j as usize) {
            ReceiverState {
                id: rs[j].id,
                trigger_mapping: if one_shot {
                    INACTIVE_MAPPING
                } else {
                    id
                },
            }
        } else {
            rs[j]
        },
    )
}

/// Receiver states after a deactivation: among the cells at `idxs`,
/// exactly those still owned by the mapping are cleared.
pub open spec fn spec_apply_deactivate(
    rs: Seq<ReceiverState>,
    idxs: Seq<usize>,
    id: usize,
) -> Seq<ReceiverState> {
    Seq::new(
        rs.len(),
        |j: int| if idxs.contains(j as usize) && rs[j].trigger_mapping == id {
            ReceiverState { id: rs[j].id, trigger_mapping: INACTIVE_MAPPING }
        } else {
            rs[j]
        },
    )
}

/// Whether every cell at `idxs` still attributes its state to the
/// mapping.
pub open spec fn spec_all_owned(rs: Seq<ReceiverState>, idxs: Seq<usize>, id: usize) -> bool {
    forall|k: int| 0 <= k < idxs.len() ==>
        (#[trigger] idxs[k]) < rs.len() && rs[idxs[k] as int].trigger_mapping == id
}

/// The ids of the receivers at `idxs` still owned by the mapping, in
/// `idxs` order.
pub open spec fn spec_dyn_recipients(
    rs: Seq<ReceiverState>,
    idxs: Seq<usize>,
    id: usize,
) -> Seq<u8> {
    idxs.filter(|j: usize| j < rs.len() && rs[j as int].trigger_mapping == id).map_values(
        |j: usize| rs[j as int].id,
    )
}

/// Who an off packet for the mapping goes to: everyone it targets
/// (one packet covers them all) while every touched receiver is still
/// owned; otherwise exactly the receivers still owned, or nobody when
/// another mapping has taken them all.
pub open spec fn spec_off_recipients(
    rs: Seq<ReceiverState>,
    idxs: Seq<usize>,
    id: usize,
    targets: Seq<u8>,
) -> Option<Seq<u8>> {
    if spec_all_owned(rs, idxs, id) {
        Some(targets)
    } else {
        let d = spec_dyn_recipients(rs, idxs, id);
        if d.len() == 0 {
            None
        } else {
            Some(d)
        }
    }
}

/// The packet that turns everything off, addressed to all receivers.
pub open spec fn spec_global_off() -> PacketView {
    PacketView {
        recipients: Seq::empty(),
        payload: PacketPayload::Show(ShowPacket::spec_off_packet()),
    }
}

impl ShowState {
    /// The state and packet of activating effect mapping `id`.
    pub open spec fn spec_activate_effect_tr(
        &self,
        v: StateView,
        id: usize,
        e: Effect,
        ov: Option<EffectOverrides>,
        now: u64,
    ) -> (StateView, PacketView) {
        let meta = self.mappings@[id - 1];
        let pkt = PacketView {
            recipients: meta.targets@,
            payload: PacketPayload::Show(spec_effect_packet(meta, e, ov)),
        };
        (
            StateView {
                receivers: spec_apply_activate(v.receivers, meta.receivers@, id, meta.one_shot),
                last_effect: now,
                ..v
            },
            pkt,
        )
    }

    /// The state and packets of deactivating effect mapping `id`:
    /// receivers still owned are cleared, and one off packet goes out
    /// unless another mapping has taken every receiver.
    pub open spec fn spec_deactivate_effect_tr(&self, v: StateView, id: usize) -> (
        StateView,
        Seq<PacketView>,
    ) {
        let meta = self.mappings@[id - 1];
        match spec_off_recipients(v.receivers, meta.receivers@, id, meta.targets@) {
            None => (v, Seq::empty()),
            Some(recips) => (
                StateView {
                    receivers: spec_apply_deactivate(v.receivers, meta.receivers@, id),
                    ..v
                },
                seq![
                    PacketView {
                        recipients: recips,
                        payload: PacketPayload::Show(ShowPacket::spec_off_packet()),
                    },
                ],
            ),
        }
    }

    /// Whether `id` names a non-one-shot effect mapping.
    pub open spec fn spec_is_effect_id(&self, id: usize) -> bool {
        1 <= id <= self.mappings@.len() && !self.mappings@[id - 1].one_shot
            && self.mappings@[id - 1].light is Effect
    }

    /// Deactivate each id of the list in turn, skipping any that does
    /// not name a non-one-shot effect mapping. This is the off cascade
    /// of a stopped clip in a show whose clips drive only effects.
    pub open spec fn spec_deact_effect_list_tr(&self, v: StateView, ids: Seq<usize>) -> (
        StateView,
        Seq<PacketView>,
    )
        decreases ids.len(),
    {
        if ids.len() == 0 {
            (v, Seq::empty())
        } else {
            let id = ids[0];
            let (v1, p1) = if self.spec_is_effect_id(id) {
                self.spec_deactivate_effect_tr(v, id)
            } else {
                (v, Seq::empty())
            };
            let (v2, p2) = self.spec_deact_effect_list_tr(v1, ids.drop_first());
            (v2, p1 + p2)
        }
    }

    /// The state and packets of stopping clip `c`: the clip is reset
    /// and loses its owned set, and every owned mapping is deactivated
    /// in order.
    pub open spec fn spec_stop_clip_tr(&self, v: StateView, c: int) -> (
        StateView,
        Seq<PacketView>,
    ) {
        let ids = v.clips[c].active;
        let v1 = StateView { clips: v.clips.update(c, spec_stopped_clip(v.clips[c])), ..v };
        self.spec_deact_effect_list_tr(v1, ids)
    }

    /// The state and packets of activating mapping `id`: an effect
    /// mapping sends its packet and takes its receivers, a clip
    /// mapping (re)starts its clip with the mapping's color override
    /// and tempo.
    pub open spec fn spec_activate_tr(
        &self,
        v: StateView,
        id: usize,
        ov: Option<EffectOverrides>,
        now: u64,
    ) -> (StateView, Seq<PacketView>) {
        let meta = self.mappings@[id - 1];
        match meta.light {
            ResolvedLight::Effect(e) => {
                let (v2, p) = self.spec_activate_effect_tr(v, id, e, ov, now);
                (v2, seq![p])
            },
            ResolvedLight::Clip(c) => {
                let oc = if meta.override_clip_color {
                    Some(meta.color)
                } else {
                    None
                };
                (
                    StateView {
                        clips: v.clips.update(c as int, spec_started_clip(oc, meta.tempo, now)),
                        ..v
                    },
                    Seq::empty(),
                )
            },
        }
    }

    /// The state and packets of deactivating mapping `id`: nothing for
    /// a one-shot mapping, the off path for an effect mapping, the
    /// stop cascade for a clip mapping.
    pub open spec fn spec_deactivate_tr(&self, v: StateView, id: usize) -> (
        StateView,
        Seq<PacketView>,
    ) {
        let meta = self.mappings@[id - 1];
        if meta.one_shot {
            (v, Seq::empty())
        } else {
            match meta.light {
                ResolvedLight::Effect(_) => self.spec_deactivate_effect_tr(v, id),
                ResolvedLight::Clip(c) => self.spec_stop_clip_tr(v, c as int),
            }
        }
    }
}

impl ShowState {
    /// Send an effect packet for mapping `mapping_id` and record the
    /// receivers it takes (or, for a one-shot mapping, releases).
    #[verifier::loop_isolation(false)]
    fn activate_effect(
        &self,
        mapping_id: usize,
        effect: Effect,
        overrides: Option<EffectOverrides>,
        state: &mut MutableShowState,
        now: u64,
        out: &mut Vec<Packet>,
    )
        requires
            self.wf(),
            self.spec_state_wf(old(state)@),
            1 <= mapping_id <= self.mappings@.len(),
            self.mappings@[mapping_id - 1].light == ResolvedLight::Effect(effect),
        ensures
            self.spec_state_wf(final(state)@),
            final(state)@ == self.spec_activate_effect_tr(
                old(state)@,
                mapping_id,
                effect,
                overrides,
                now,
            ).0,
            spec_pkts(final(out)@) == spec_pkts(old(out)@).push(
                self.spec_activate_effect_tr(old(state)@, mapping_id, effect, overrides, now).1,
            ),
            spec_pkts_prefix(old(out)@, final(out)@),
    {
        let meta = &self.mappings[mapping_id - 1];
        let color = match overrides {
            Some(o) => match o.color {
                Some(c) => c,
                None => meta.color,
            },
            None => meta.color,
        };
        let attack_ms = match overrides {
            Some(o) => match o.attack {
                Some(a) => a,
                None => meta.attack,
            },
            None => meta.attack,
        };
        let sustain_ms = match overrides {
            Some(o) => match o.sustain {
                Some(x) => x,
                None => meta.sustain,
            },
            None => meta.sustain,
        };
        let release_ms = match overrides {
            Some(o) => match o.release {
                Some(x) => x,
                None => meta.release,
            },
            None => meta.release,
        };
        let tempo_mbpm = match overrides {
            Some(o) => match o.tempo {
                Some(t) => t,
                None => meta.tempo,
            },
            None => meta.tempo,
        };
        let mut pkt = ShowPacket {
            effect: effect.to_effect_id(),
            color: color,
            attack: convert_millis_adr(attack_ms),
            sustain: convert_millis_sustain(sustain_ms),
            release: convert_millis_adr(release_ms),
            param1: 0,
            param2: 0,
            tempo: tempo_byte(tempo_mbpm),
        };
        effect.populate_effect_params(&mut pkt);
        assert(pkt == spec_effect_packet(self.mappings@[mapping_id - 1], effect, overrides));
        out.push(Packet { recipients: copy_bytes(&meta.targets), payload: PacketPayload::Show(pkt) });
        proof {
            assert(spec_pkts(out@) =~= spec_pkts(old(out)@).push(
                self.spec_activate_effect_tr(old(state)@, mapping_id, effect, overrides, now).1,
            ));
            assert(spec_pkts(out@) =~= spec_pkts(old(out)@) + seq![
                self.spec_activate_effect_tr(old(state)@, mapping_id, effect, overrides, now).1,
            ]);
            lemma_pkts_prefix_of_extension(
                old(out)@,
                out@,
                seq![self.spec_activate_effect_tr(old(state)@, mapping_id, effect, overrides, now).1],
            );
        }
        let ghost rs0 = state.receiver_state@;
        let one_shot = meta.one_shot;
        let mut k: usize = 0;
        while k < meta.receivers.len()
            invariant
                k <= meta.receivers@.len(),
                state.receiver_state@ == spec_apply_activate(
                    rs0,
                    meta.receivers@.subrange(0, k as int),
                    mapping_id,
                    one_shot,
                ),
                state.clip_engine@ == old(state)@.clips,
                state.sustain == old(state)@.sustain,
                state.pending_off@ == old(state)@.pending_off,
                state.last_effect == old(state)@.last_effect,
                state.last_lights_out == old(state)@.last_lights_out,
            decreases meta.receivers@.len() - k,
        {
            let ghost pre = meta.receivers@.subrange(0, k as int);
            let j = meta.receivers[k];
            assert(j < state.receiver_state.len());
            let mut cell = state.receiver_state[j];
            cell.activate(mapping_id, one_shot);
            state.receiver_state.set(j, cell);
            proof {
                let pre1 = meta.receivers@.subrange(0, k as int + 1);
                assert(pre1 =~= pre.push(j));
                assert forall|x: int| 0 <= x < rs0.len() implies state.receiver_state@[x]
                    == spec_apply_activate(rs0, pre1, mapping_id, one_shot)[x] by {
                    crate::util::lemma_contains_push(pre, j, x as usize);
                }
                assert(state.receiver_state@ =~= spec_apply_activate(
                    rs0,
                    pre1,
                    mapping_id,
                    one_shot,
                ));
            }
            k = k + 1;
        }
        state.last_effect = now;
        proof {
            assert(meta.receivers@.subrange(0, meta.receivers@.len() as int) =~= meta.receivers@);
            let vfin = self.spec_activate_effect_tr(old(state)@, mapping_id, effect, overrides, now).0;
            assert(state@.receivers =~= vfin.receivers);
            assert(state@ == vfin);
            assert forall|j2: int| 0 <= j2 < state@.receivers.len() implies
                ((#[trigger] state@.receivers[j2]).trigger_mapping == INACTIVE_MAPPING
                    || (1 <= state@.receivers[j2].trigger_mapping <= self.mappings@.len()
                        && self.mappings@[state@.receivers[j2].trigger_mapping - 1].receivers@
                        .contains(j2 as usize)
                        && !self.mappings@[state@.receivers[j2].trigger_mapping - 1].one_shot)) by {
                if meta.receivers@.contains(j2 as usize) {
                } else {
                    assert(state@.receivers[j2] == old(state)@.receivers[j2]);
                }
            }
        }
    }

    /// Send the off packet for effect mapping `mapping_id` to the
    /// receivers it still owns (all its targets where it owns every
    /// one, nobody where it owns none) and release them.
    #[verifier::loop_isolation(false)]
    fn deactivate_effect(
        &self,
        mapping_id: usize,
        state: &mut MutableShowState,
        out: &mut Vec<Packet>,
    )
        requires
            self.wf(),
            self.spec_state_wf(old(state)@),
            1 <= mapping_id <= self.mappings@.len(),
        ensures
            self.spec_state_wf(final(state)@),
            final(state)@ == self.spec_deactivate_effect_tr(old(state)@, mapping_id).0,
            spec_pkts(final(out)@) == spec_pkts(old(out)@) + self.spec_deactivate_effect_tr(
                old(state)@,
                mapping_id,
            ).1,
            spec_pkts_prefix(old(out)@, final(out)@),
            spec_only_clears(old(state)@, final(state)@),
            final(state)@.clips == old(state)@.clips,
    {
        let meta = &self.mappings[mapping_id - 1];
        let ghost rs0 = state.receiver_state@;
        // can we take the simple path: does this mapping still own
        // every receiver it touches?
        let mut all = true;
        let mut k: usize = 0;
        while k < meta.receivers.len()
            invariant
                k <= meta.receivers@.len(),
                all ==> forall|k2: int| 0 <= k2 < k ==>
                    (#[trigger] meta.receivers@[k2]) < rs0.len()
                        && rs0[meta.receivers@[k2] as int].trigger_mapping == mapping_id,
                !all ==> !spec_all_owned(rs0, meta.receivers@, mapping_id),
            decreases meta.receivers@.len() - k,
        {
            let j = meta.receivers[k];
            if !state.receiver_state[j].activated_by(mapping_id) {
                all = false;
                assert(!spec_all_owned(rs0, meta.receivers@, mapping_id));
            }
            k = k + 1;
        }
        assert(all == spec_all_owned(rs0, meta.receivers@, mapping_id));
        let ghost tr = self.spec_deactivate_effect_tr(old(state)@, mapping_id);
        if !all {
            // collect exactly the receivers this mapping still owns
            let mut dynv: Vec<u8> = Vec::new();
            let mut k2: usize = 0;
            while k2 < meta.receivers.len()
                invariant
                    k2 <= meta.receivers@.len(),
                    dynv@ == spec_dyn_recipients(
                        rs0,
                        meta.receivers@.subrange(0, k2 as int),
                        mapping_id,
                    ),
                decreases meta.receivers@.len() - k2,
            {
                let ghost pre = meta.receivers@.subrange(0, k2 as int);
                let ghost pred = |j: usize| j < rs0.len() && rs0[j as int].trigger_mapping
                    == mapping_id;
                let j = meta.receivers[k2];
                proof {
                    assert(meta.receivers@.subrange(0, k2 as int + 1) =~= pre.push(j));
                    crate::util::lemma_filter_push(pre, j, pred);
                }
                if state.receiver_state[j].activated_by(mapping_id) {
                    dynv.push(state.receiver_state[j].id);
                    proof {
                        assert(dynv@ =~= spec_dyn_recipients(
                            rs0,
                            pre.push(j),
                            mapping_id,
                        ));
                    }
                } else {
                    proof {
                        assert(dynv@ =~= spec_dyn_recipients(rs0, pre.push(j), mapping_id));
                    }
                }
                k2 = k2 + 1;
            }
            proof {
                assert(meta.receivers@.subrange(0, meta.receivers@.len() as int)
                    =~= meta.receivers@);
            }
            if dynv.len() == 0 {
                // every receiver was captured by another mapping:
                // nothing to send and nothing to release
                proof {
                    assert(state@ == tr.0);
                    assert(spec_pkts(out@) =~= spec_pkts(old(out)@) + tr.1);
                    lemma_pkts_prefix_of_extension(old(out)@, out@, tr.1);
                }
                return;
            }
            out.push(Packet { recipients: dynv, payload: PacketPayload::Show(ShowPacket::off_packet()) });
        } else {
            let recips = copy_bytes(&meta.targets);
            out.push(Packet { recipients: recips, payload: PacketPayload::Show(ShowPacket::off_packet()) });
        }
        proof {
            assert(spec_pkts(out@) =~= spec_pkts(old(out)@) + tr.1);
            lemma_pkts_prefix_of_extension(old(out)@, out@, tr.1);
        }
        // release every receiver this mapping still owns
        let mut k3: usize = 0;
        while k3 < meta.receivers.len()
            invariant
                k3 <= meta.receivers@.len(),
                state.receiver_state@ == spec_apply_deactivate(
                    rs0,
                    meta.receivers@.subrange(0, k3 as int),
                    mapping_id,
                ),
                state.clip_engine@ == old(state)@.clips,
                state.sustain == old(state)@.sustain,
                state.pending_off@ == old(state)@.pending_off,
                state.last_effect == old(state)@.last_effect,
                state.last_lights_out == old(state)@.last_lights_out,
            decreases meta.receivers@.len() - k3,
        {
            let ghost pre = meta.receivers@.subrange(0, k3 as int);
            let j = meta.receivers[k3];
            assert(j < state.receiver_state.len());
            let mut cell = state.receiver_state[j];
            cell.deactivate(mapping_id);
            state.receiver_state.set(j, cell);
            proof {
                let pre1 = meta.receivers@.subrange(0, k3 as int + 1);
                assert(pre1 =~= pre.push(j));
                assert forall|x: int| 0 <= x < rs0.len() implies state.receiver_state@[x]
                    == spec_apply_deactivate(rs0, pre1, mapping_id)[x] by {
                    crate::util::lemma_contains_push(pre, j, x as usize);
                }
                assert(state.receiver_state@ =~= spec_apply_deactivate(rs0, pre1, mapping_id));
            }
            k3 = k3 + 1;
        }
        proof {
            assert(meta.receivers@.subrange(0, meta.receivers@.len() as int) =~= meta.receivers@);
            assert(state@.receivers =~= tr.0.receivers);
            assert(state@ == tr.0);
            assert forall|j2: int| 0 <= j2 < state@.receivers.len() implies
                ((#[trigger] state@.receivers[j2]).trigger_mapping == INACTIVE_MAPPING
                    || (1 <= state@.receivers[j2].trigger_mapping <= self.mappings@.len()
                        && self.mappings@[state@.receivers[j2].trigger_mapping - 1].receivers@
                        .contains(j2 as usize)
                        && !self.mappings@[state@.receivers[j2].trigger_mapping - 1].one_shot)) by {
                if !(meta.receivers@.contains(j2 as usize)
                    && rs0[j2].trigger_mapping == mapping_id) {
                    assert(state@.receivers[j2] == old(state)@.receivers[j2]);
                }
            }
        }
    }
}

/// The total number of owned mappings across all clips.
pub open spec fn spec_sum_active(clips: Seq<ClipView>) -> nat
    decreases clips.len(),
{
    if clips.len() == 0 {
        0
    } else {
        spec_sum_active(clips.drop_last()) + clips.last().active.len()
    }
}

/// Replacing one clip changes the owned total by the difference of its
/// owned counts.
pub proof fn lemma_sum_active_update(clips: Seq<ClipView>, c: int, cv: ClipView)
    requires
        0 <= c < clips.len(),
    ensures
        spec_sum_active(clips.update(c, cv)) + clips[c].active.len() == spec_sum_active(clips)
            + cv.active.len(),
    decreases clips.len(),
{
    let upd = clips.update(c, cv);
    if c == clips.len() - 1 {
        assert(upd.drop_last() =~= clips.drop_last());
    } else {
        assert(upd.drop_last() =~= clips.drop_last().update(c, cv));
        lemma_sum_active_update(clips.drop_last(), c, cv);
    }
}

/// Nothing changed but clearings: receivers kept their ids and were at
/// most released, clips were at most stopped, everything else is
/// untouched.
pub open spec fn spec_only_clears(v0: StateView, v1: StateView) -> bool {
    &&& v1.receivers.len() == v0.receivers.len()
    &&& forall|j: int| 0 <= j < v0.receivers.len() ==>
        (#[trigger] v1.receivers[j]).id == v0.receivers[j].id
            && (v1.receivers[j].trigger_mapping == v0.receivers[j].trigger_mapping
            || v1.receivers[j].trigger_mapping == INACTIVE_MAPPING)
    &&& v1.clips.len() == v0.clips.len()
    &&& forall|c: int| 0 <= c < v0.clips.len() ==>
        (#[trigger] v1.clips[c]) == v0.clips[c] || v1.clips[c] == spec_stopped_clip(v0.clips[c])
    &&& v1.last_effect == v0.last_effect
    &&& v1.last_lights_out == v0.last_lights_out
    &&& v1.sustain == v0.sustain
    &&& v1.pending_off == v0.pending_off
}

impl ShowState {
    /// Stop clip `clip_idx`: reset it, take its owned set, and
    /// deactivate every mapping in it, in order. A clip mapping found
    /// in an owned set stops its clip the same way, its own owned set
    /// joining the end of the work list.
    #[verifier::loop_isolation(false)]
    #[verifier::rlimit(100)]
    pub fn stop_clip(&self, clip_idx: usize, state: &mut MutableShowState, out: &mut Vec<Packet>)
        requires
            self.wf(),
            self.spec_state_wf(old(state)@),
            clip_idx < self.clips@.len(),
        ensures
            self.spec_state_wf(final(state)@),
            spec_only_clears(old(state)@, final(state)@),
            final(state)@.clips[clip_idx as int] == spec_stopped_clip(
                old(state)@.clips[clip_idx as int],
            ),
            self.spec_clips_flat() ==> final(state)@ == self.spec_stop_clip_tr(
                old(state)@,
                clip_idx as int,
            ).0 && spec_pkts(final(out)@) == spec_pkts(old(out)@) + self.spec_stop_clip_tr(
                old(state)@,
                clip_idx as int,
            ).1,
            spec_pkts_prefix(old(out)@, final(out)@),
    {
        let ghost v0 = old(state)@;
        let ghost total = self.spec_stop_clip_tr(v0, clip_idx as int);
        let mut work: Vec<usize> = state.clip_engine.take_active_and_stop(clip_idx);
        let ghost work0 = work@;
        proof {
            assert(spec_only_clears(v0, state@));
            assert forall|x: int| 0 <= x < work@.len() implies
                1 <= (#[trigger] work@[x]) <= self.mappings@.len()
                    && !self.mappings@[work@[x] - 1].one_shot by {
                assert(self.spec_owned_id_wf(clip_idx as int, v0.clips[clip_idx as int].active[x]));
            }
            if self.spec_clips_flat() {
                assert forall|x: int| 0 <= x < work@.len() implies self.spec_is_effect_id(
                    #[trigger] work@[x],
                ) by {
                    let id = work@[x];
                    assert(self.spec_owned_id_wf(clip_idx as int, id));
                    assert(self.spec_clip_on_ids(clip_idx as int).contains(id));
                    let s = choose|s: int|
                        0 <= s < self.clips@[clip_idx as int].steps@.len()
                            && crate::showstate::spec_step_turns_on(
                            #[trigger] self.clips@[clip_idx as int].steps@[s],
                            id,
                        );
                    assert(self.clips@[clip_idx as int].steps@[s] is MappingOn);
                }
            }
        }
        proof {
            assert(work@.skip(0) =~= work@);
            assert(state@ == (StateView {
                clips: v0.clips.update(
                    clip_idx as int,
                    spec_stopped_clip(v0.clips[clip_idx as int]),
                ),
                ..v0
            }));
        }
        proof {
            lemma_pkts_prefix_refl(old(out)@);
        }
        let mut w: usize = 0;
        while w < work.len()
            invariant
                w <= work@.len(),
                self.spec_state_wf(state@),
                spec_only_clears(v0, state@),
                spec_pkts_prefix(old(out)@, out@),
                state@.clips[clip_idx as int] == spec_stopped_clip(v0.clips[clip_idx as int]),
                forall|x: int| 0 <= x < work@.len() ==>
                    1 <= (#[trigger] work@[x]) <= self.mappings@.len()
                        && !self.mappings@[work@[x] - 1].one_shot,
                self.spec_clips_flat() ==> ({
                    &&& work@ == work0
                    &&& (forall|x: int| 0 <= x < work@.len() ==>
                        self.spec_is_effect_id(#[trigger] work@[x]))
                    &&& self.spec_deact_effect_list_tr(state@, work@.skip(w as int)).0 == total.0
                    &&& spec_pkts(old(out)@) + total.1 == spec_pkts(out@)
                        + self.spec_deact_effect_list_tr(state@, work@.skip(w as int)).1
                }),
            decreases work@.len() - w + spec_sum_active(state@.clips),
        {
            let ghost v_pre = state@;
            let ghost rest = work@.skip(w as int);
            proof {
                assert(rest[0] == work@[w as int]);
                assert(rest.drop_first() =~= work@.skip(w as int + 1));
            }
            let id = work[w];
            let meta = &self.mappings[id - 1];
            match meta.light {
                ResolvedLight::Effect(_) => {
                    let ghost out_pre = out@;
                    self.deactivate_effect(id, state, out);
                    proof {
                        lemma_pkts_prefix_trans(old(out)@, out_pre, out@);
                        if self.spec_clips_flat() {
                            assert(self.spec_deact_effect_list_tr(v_pre, rest)
                                == ({
                                let (v1, p1) = self.spec_deactivate_effect_tr(v_pre, id);
                                let (v2, p2) = self.spec_deact_effect_list_tr(
                                    v1,
                                    rest.drop_first(),
                                );
                                (v2, p1 + p2)
                            }));
                            assert(spec_pkts(old(out)@) + total.1 =~= spec_pkts(out@)
                                + self.spec_deact_effect_list_tr(
                                state@,
                                work@.skip(w as int + 1),
                            ).1);
                        }
                        // transitivity of only-clears through one off path
                        assert(spec_only_clears(v0, state@));
                    }
                },
                ResolvedLight::Clip(c2) => {
                    proof {
                        if self.spec_clips_flat() {
                            assert(self.spec_is_effect_id(id));
                            assert(false);
                        }
                    }
                    let ghost clips_pre = state@.clips;
                    let more = state.clip_engine.take_active_and_stop(c2);
                    proof {
                        lemma_sum_active_update(
                            clips_pre,
                            c2 as int,
                            spec_stopped_clip(clips_pre[c2 as int]),
                        );
                        assert forall|x: int| 0 <= x < more@.len() implies
                            1 <= (#[trigger] more@[x]) <= self.mappings@.len()
                                && !self.mappings@[more@[x] - 1].one_shot by {
                            assert(self.spec_owned_id_wf(c2 as int, clips_pre[c2 as int].active[x]));
                        }
                        assert(spec_only_clears(v0, state@)) by {
                            assert forall|c3: int| 0 <= c3 < v0.clips.len() implies
                                (#[trigger] state@.clips[c3]) == v0.clips[c3]
                                    || state@.clips[c3] == spec_stopped_clip(v0.clips[c3]) by {
                                if c3 == c2 as int {
                                    assert(clips_pre[c3] == v0.clips[c3] || clips_pre[c3]
                                        == spec_stopped_clip(v0.clips[c3]));
                                }
                            }
                        }
                    }
                    let mut mi: usize = 0;
                    let ghost work_pre = work@;
                    while mi < more.len()
                        invariant
                            mi <= more@.len(),
                            work@ == work_pre + more@.subrange(0, mi as int),
                        decreases more@.len() - mi,
                    {
                        work.push(more[mi]);
                        proof {
                            assert(work@ =~= work_pre + more@.subrange(0, mi as int + 1));
                        }
                        mi = mi + 1;
                    }
                    proof {
                        assert(more@.subrange(0, more@.len() as int) =~= more@);
                    }
                },
            }
            w = w + 1;
        }
        proof {
            if self.spec_clips_flat() {
                assert(work@.skip(work@.len() as int).len() == 0);
                assert(self.spec_deact_effect_list_tr(state@, work@.skip(w as int)).0 == state@);
                assert(spec_pkts(out@) =~= spec_pkts(old(out)@) + total.1);
            }
        }
    }

    /// Activate mapping `mapping_id`: send its effect packet and take
    /// its receivers, or (re)start its clip with the mapping's color
    /// override and tempo.
    pub fn activate(
        &self,
        mapping_id: usize,
        overrides: Option<EffectOverrides>,
        state: &mut MutableShowState,
        now: u64,
        out: &mut Vec<Packet>,
    )
        requires
            self.wf(),
            self.spec_state_wf(old(state)@),
            1 <= mapping_id <= self.mappings@.len(),
        ensures
            self.spec_state_wf(final(state)@),
            final(state)@ == self.spec_activate_tr(old(state)@, mapping_id, overrides, now).0,
            spec_pkts(final(out)@) == spec_pkts(old(out)@) + self.spec_activate_tr(
                old(state)@,
                mapping_id,
                overrides,
                now,
            ).1,
            spec_pkts_prefix(old(out)@, final(out)@),
    {
        let meta = &self.mappings[mapping_id - 1];
        match meta.light {
            ResolvedLight::Effect(e) => {
                self.activate_effect(mapping_id, e, overrides, state, now, out);
                proof {
                    assert(spec_pkts(out@) =~= spec_pkts(old(out)@) + self.spec_activate_tr(
                        old(state)@,
                        mapping_id,
                        overrides,
                        now,
                    ).1);
                }
            },
            ResolvedLight::Clip(c) => {
                let oc = if meta.override_clip_color {
                    Some(meta.color)
                } else {
                    None
                };
                state.clip_engine.start_clip(c, oc, meta.tempo, now);
                proof {
                    assert(spec_pkts(out@) =~= spec_pkts(old(out)@) + self.spec_activate_tr(
                        old(state)@,
                        mapping_id,
                        overrides,
                        now,
                    ).1);
                    lemma_pkts_prefix_refl(old(out)@);
                }
            },
        }
    }

    /// Deactivate mapping `mapping_id`: nothing for a one-shot
    /// mapping, the ownership-guided off path for an effect mapping,
    /// the stop cascade for a clip mapping.
    pub fn deactivate(&self, mapping_id: usize, state: &mut MutableShowState, out: &mut Vec<Packet>)
        requires
            self.wf(),
            self.spec_state_wf(old(state)@),
            1 <= mapping_id <= self.mappings@.len(),
        ensures
            self.spec_state_wf(final(state)@),
            spec_only_clears(old(state)@, final(state)@),
            self.spec_clips_flat() ==> final(state)@ == self.spec_deactivate_tr(
                old(state)@,
                mapping_id,
            ).0 && spec_pkts(final(out)@) == spec_pkts(old(out)@) + self.spec_deactivate_tr(
                old(state)@,
                mapping_id,
            ).1,
            !self.mappings@[mapping_id - 1].one_shot && self.mappings@[mapping_id - 1].light
                is Effect ==> final(state)@ == self.spec_deactivate_effect_tr(
                old(state)@,
                mapping_id,
            ).0 && spec_pkts(final(out)@) == spec_pkts(old(out)@)
                + self.spec_deactivate_effect_tr(old(state)@, mapping_id).1,
            self.mappings@[mapping_id - 1].one_shot ==> final(state)@ == old(state)@
                && final(out)@ == old(out)@,
            spec_pkts_prefix(old(out)@, final(out)@),
    {
        let meta = &self.mappings[mapping_id - 1];
        if meta.one_shot {
            proof {
                lemma_pkts_prefix_refl(old(out)@);
            }
            return;
        }
        match meta.light {
            ResolvedLight::Effect(_) => {
                self.deactivate_effect(mapping_id, state, out);
            },
            ResolvedLight::Clip(c) => {
                self.stop_clip(c, state, out);
            },
        }
    }

    /// Deactivate mapping `mapping_id` on behalf of live MIDI: while
    /// sustain is held, only remember it for the release.
    pub fn deactivate_from_midi(
        &self,
        mapping_id: usize,
        state: &mut MutableShowState,
        out: &mut Vec<Packet>,
    )
        requires
            self.wf(),
            self.spec_state_wf(old(state)@),
            1 <= mapping_id <= self.mappings@.len(),
        ensures
            self.spec_state_wf(final(state)@),
            old(state)@.sustain ==> final(state)@ == (StateView {
                pending_off: old(state)@.pending_off.push(mapping_id),
                ..old(state)@
            }) && final(out)@ == old(out)@,
            !old(state)@.sustain ==> spec_only_clears(old(state)@, final(state)@)
                && (self.spec_clips_flat() ==> final(state)@ == self.spec_deactivate_tr(
                old(state)@,
                mapping_id,
            ).0 && spec_pkts(final(out)@) == spec_pkts(old(out)@) + self.spec_deactivate_tr(
                old(state)@,
                mapping_id,
            ).1),
    {
        if state.sustain {
            state.pending_off.push(mapping_id);
            assert(state@ =~= (StateView {
                pending_off: old(state)@.pending_off.push(mapping_id),
                ..old(state)@
            }));
        } else {
            self.deactivate(mapping_id, state, out);
        }
    }
}

/// The sustain pedal's controller number on the control channel.
pub const SUSTAIN_CONTROLLER: u8 = 64;

/// The test trigger's controller number on the control channel.
pub const TEST_CONTROLLER: u8 = 102;

/// The battery-test packet, addressed to all receivers.
pub open spec fn spec_global_test() -> PacketView {
    PacketView {
        recipients: Seq::empty(),
        payload: PacketPayload::Show(ShowPacket::spec_test_packet()),
    }
}

/// The reset command, addressed to all receivers.
pub open spec fn spec_global_reset() -> PacketView {
    PacketView { recipients: Seq::empty(), payload: PacketPayload::Control(Command::Reset) }
}

/// The mapping ids bound to a channel and note or controller number,
/// in binding order.
pub open spec fn spec_trigger_ids(trigs: Seq<MidiTrigger>, ch: u8, num: u8) -> Seq<usize>
    decreases trigs.len(),
{
    if trigs.len() == 0 {
        Seq::empty()
    } else {
        let p = spec_trigger_ids(trigs.drop_last(), ch, num);
        if trigs.last().channel == ch && trigs.last().number == num {
            p.push(trigs.last().mapping_id)
        } else {
            p
        }
    }
}

/// Collect the mapping ids bound to a channel and number.
fn trigger_ids(trigs: &Vec<MidiTrigger>, ch: u8, num: u8) -> (r: Vec<usize>)
    ensures
        r@ == spec_trigger_ids(trigs@, ch, num),
        forall|x: int| 0 <= x < r@.len() ==> exists|k: int|
            0 <= k < trigs@.len() && #[trigger] r@[x] == (#[trigger] trigs@[k]).mapping_id,
{
    let mut r: Vec<usize> = Vec::new();
    let mut i: usize = 0;
    while i < trigs.len()
        invariant
            i <= trigs@.len(),
            r@ == spec_trigger_ids(trigs@.subrange(0, i as int), ch, num),
            forall|x: int| 0 <= x < r@.len() ==> exists|k: int|
                0 <= k < trigs@.len() && #[trigger] r@[x] == (#[trigger] trigs@[k]).mapping_id,
        decreases trigs@.len() - i,
    {
        let ghost pre = trigs@.subrange(0, i as int);
        let t = trigs[i];
        proof {
            assert(trigs@.subrange(0, i as int + 1).drop_last() =~= pre);
            assert(trigs@.subrange(0, i as int + 1).last() == t);
        }
        if t.channel == ch && t.number == num {
            r.push(t.mapping_id);
        }
        i = i + 1;
    }
    proof {
        assert(trigs@.subrange(0, trigs@.len() as int) =~= trigs@);
    }
    r
}

impl ShowState {
    /// Activate each id of the list in turn, skipping any outside the
    /// mapping table.
    pub open spec fn spec_activate_list_tr(&self, v: StateView, ids: Seq<usize>, now: u64) -> (
        StateView,
        Seq<PacketView>,
    )
        decreases ids.len(),
    {
        if ids.len() == 0 {
            (v, Seq::empty())
        } else {
            let (v1, p1) = if 1 <= ids[0] <= self.mappings@.len() {
                self.spec_activate_tr(v, ids[0], None, now)
            } else {
                (v, Seq::empty())
            };
            let (v2, p2) = self.spec_activate_list_tr(v1, ids.drop_first(), now);
            (v2, p1 + p2)
        }
    }

    /// Deactivate each id of the list in turn, skipping any outside
    /// the mapping table.
    pub open spec fn spec_deact_list_tr(&self, v: StateView, ids: Seq<usize>) -> (
        StateView,
        Seq<PacketView>,
    )
        decreases ids.len(),
    {
        if ids.len() == 0 {
            (v, Seq::empty())
        } else {
            let (v1, p1) = if 1 <= ids[0] <= self.mappings@.len() {
                self.spec_deactivate_tr(v, ids[0])
            } else {
                (v, Seq::empty())
            };
            let (v2, p2) = self.spec_deact_list_tr(v1, ids.drop_first());
            (v2, p1 + p2)
        }
    }

    /// Deactivate mapping `id` as live MIDI would: buffer it while
    /// sustain is held.
    pub open spec fn spec_deact_from_midi_tr(&self, v: StateView, id: usize) -> (
        StateView,
        Seq<PacketView>,
    ) {
        if v.sustain {
            ((StateView { pending_off: v.pending_off.push(id), ..v }), Seq::empty())
        } else {
            self.spec_deactivate_tr(v, id)
        }
    }

    /// Deactivate each id of the list as live MIDI would.
    pub open spec fn spec_deact_midi_list_tr(&self, v: StateView, ids: Seq<usize>) -> (
        StateView,
        Seq<PacketView>,
    )
        decreases ids.len(),
    {
        if ids.len() == 0 {
            (v, Seq::empty())
        } else {
            let (v1, p1) = if 1 <= ids[0] <= self.mappings@.len() {
                self.spec_deact_from_midi_tr(v, ids[0])
            } else {
                (v, Seq::empty())
            };
            let (v2, p2) = self.spec_deact_midi_list_tr(v1, ids.drop_first());
            (v2, p1 + p2)
        }
    }

    /// Act on each id a controller binds: value 127 activates, value 0
    /// deactivates (buffered under sustain), anything else is ignored.
    pub open spec fn spec_ctrl_list_tr(
        &self,
        v: StateView,
        ids: Seq<usize>,
        value: u8,
        now: u64,
    ) -> (StateView, Seq<PacketView>) {
        if value == 127 {
            self.spec_activate_list_tr(v, ids, now)
        } else if value == 0 {
            self.spec_deact_midi_list_tr(v, ids)
        } else {
            (v, Seq::empty())
        }
    }

    /// Releasing sustain performs the buffered deactivations in
    /// arrival order, then empties the buffer.
    pub open spec fn spec_sustain_release_tr(&self, v: StateView) -> (StateView, Seq<PacketView>) {
        let v1 = StateView { sustain: false, ..v };
        let (v2, p) = self.spec_deact_list_tr(v1, v.pending_off);
        ((StateView { pending_off: Seq::empty(), ..v2 }), p)
    }

    /// What a controller event does: the two reserved controllers on
    /// the control channel (sustain and test) take priority and never
    /// reach cue mappings; every other controller drives its bindings.
    pub open spec fn spec_controller_tr(
        &self,
        v: StateView,
        ch: u8,
        cc: u8,
        value: u8,
        now: u64,
    ) -> (StateView, Seq<PacketView>) {
        if ch == self.config.midi_control_channel && cc == SUSTAIN_CONTROLLER {
            if value == 127 {
                ((StateView { sustain: true, ..v }), Seq::empty())
            } else if value == 0 {
                self.spec_sustain_release_tr(v)
            } else {
                (v, Seq::empty())
            }
        } else if ch == self.config.midi_control_channel && cc == TEST_CONTROLLER {
            if value == 127 {
                ((StateView { last_effect: now, ..v }), seq![spec_global_test()])
            } else {
                (v, seq![spec_global_off()])
            }
        } else {
            self.spec_ctrl_list_tr(
                v,
                spec_trigger_ids(self.controller_triggers@, ch, cc),
                value,
                now,
            )
        }
    }

    /// What one MIDI event does to the show.
    pub open spec fn spec_dispatch_tr(&self, v: StateView, ev: MidiEvent, now: u64) -> (
        StateView,
        Seq<PacketView>,
    ) {
        match ev {
            MidiEvent::NoteOn { channel, key, velocity: _ } => self.spec_activate_list_tr(
                v,
                spec_trigger_ids(self.note_triggers@, channel, key),
                now,
            ),
            MidiEvent::NoteOff { channel, key, velocity: _ } => self.spec_deact_midi_list_tr(
                v,
                spec_trigger_ids(self.note_triggers@, channel, key),
            ),
            MidiEvent::Controller { channel, controller, value } => self.spec_controller_tr(
                v,
                channel,
                controller,
                value,
                now,
            ),
            MidiEvent::Other => (v, Seq::empty()),
        }
    }
}

impl ShowState {
    /// Activate every id of the list in order, skipping any outside
    /// the mapping table.
    #[verifier::loop_isolation(false)]
    fn activate_list(
        &self,
        ids: &Vec<usize>,
        state: &mut MutableShowState,
        now: u64,
        out: &mut Vec<Packet>,
    )
        requires
            self.wf(),
            self.spec_state_wf(old(state)@),
        ensures
            self.spec_state_wf(final(state)@),
            final(state)@ == self.spec_activate_list_tr(old(state)@, ids@, now).0,
            spec_pkts(final(out)@) == spec_pkts(old(out)@) + self.spec_activate_list_tr(
                old(state)@,
                ids@,
                now,
            ).1,
    {
        let ghost total = self.spec_activate_list_tr(old(state)@, ids@, now);
        proof {
            assert(ids@.skip(0) =~= ids@);
        }
        let mut k: usize = 0;
        while k < ids.len()
            invariant
                k <= ids@.len(),
                self.spec_state_wf(state@),
                self.spec_activate_list_tr(state@, ids@.skip(k as int), now).0 == total.0,
                spec_pkts(old(out)@) + total.1 == spec_pkts(out@) + self.spec_activate_list_tr(
                    state@,
                    ids@.skip(k as int),
                    now,
                ).1,
            decreases ids@.len() - k,
        {
            let ghost rest = ids@.skip(k as int);
            proof {
                assert(rest[0] == ids@[k as int]);
                assert(rest.drop_first() =~= ids@.skip(k as int + 1));
            }
            let id = ids[k];
            if 1 <= id && id <= self.mappings.len() {
                self.activate(id, None, state, now, out);
            }
            proof {
                assert(spec_pkts(old(out)@) + total.1 =~= spec_pkts(out@)
                    + self.spec_activate_list_tr(state@, ids@.skip(k as int + 1), now).1);
            }
            k = k + 1;
        }
        proof {
            assert(ids@.skip(ids@.len() as int).len() == 0);
            assert(spec_pkts(out@) =~= spec_pkts(old(out)@) + total.1);
        }
    }

    /// Deactivate every id of the list in order, skipping any outside
    /// the mapping table.
    #[verifier::loop_isolation(false)]
    fn deact_list(&self, ids: &Vec<usize>, state: &mut MutableShowState, out: &mut Vec<Packet>)
        requires
            self.wf(),
            self.spec_state_wf(old(state)@),
        ensures
            self.spec_state_wf(final(state)@),
            self.spec_clips_flat() ==> final(state)@ == self.spec_deact_list_tr(
                old(state)@,
                ids@,
            ).0 && spec_pkts(final(out)@) == spec_pkts(old(out)@) + self.spec_deact_list_tr(
                old(state)@,
                ids@,
            ).1,
    {
        let ghost total = self.spec_deact_list_tr(old(state)@, ids@);
        proof {
            assert(ids@.skip(0) =~= ids@);
        }
        let mut k: usize = 0;
        while k < ids.len()
            invariant
                k <= ids@.len(),
                self.spec_state_wf(state@),
                self.spec_clips_flat() ==> ({
                    &&& self.spec_deact_list_tr(state@, ids@.skip(k as int)).0 == total.0
                    &&& spec_pkts(old(out)@) + total.1 == spec_pkts(out@)
                        + self.spec_deact_list_tr(state@, ids@.skip(k as int)).1
                }),
            decreases ids@.len() - k,
        {
            let ghost rest = ids@.skip(k as int);
            proof {
                assert(rest[0] == ids@[k as int]);
                assert(rest.drop_first() =~= ids@.skip(k as int + 1));
            }
            let id = ids[k];
            if 1 <= id && id <= self.mappings.len() {
                self.deactivate(id, state, out);
            }
            proof {
                if self.spec_clips_flat() {
                    assert(spec_pkts(old(out)@) + total.1 =~= spec_pkts(out@)
                        + self.spec_deact_list_tr(state@, ids@.skip(k as int + 1)).1);
                }
            }
            k = k + 1;
        }
        proof {
            assert(ids@.skip(ids@.len() as int).len() == 0);
            if self.spec_clips_flat() {
                assert(spec_pkts(out@) =~= spec_pkts(old(out)@) + total.1);
            }
        }
    }

    /// Deactivate every id of the list as live MIDI would: while
    /// sustain is held they are only buffered.
    #[verifier::loop_isolation(false)]
    fn deact_midi_list(&self, ids: &Vec<usize>, state: &mut MutableShowState, out: &mut Vec<Packet>)
        requires
            self.wf(),
            self.spec_state_wf(old(state)@),
        ensures
            self.spec_state_wf(final(state)@),
            self.spec_clips_flat() || old(state)@.sustain ==> final(state)@
                == self.spec_deact_midi_list_tr(old(state)@, ids@).0 && spec_pkts(final(out)@)
                == spec_pkts(old(out)@) + self.spec_deact_midi_list_tr(old(state)@, ids@).1,
    {
        let ghost total = self.spec_deact_midi_list_tr(old(state)@, ids@);
        proof {
            assert(ids@.skip(0) =~= ids@);
        }
        let mut k: usize = 0;
        while k < ids.len()
            invariant
                k <= ids@.len(),
                self.spec_state_wf(state@),
                old(state)@.sustain ==> state@.sustain,
                self.spec_clips_flat() || old(state)@.sustain ==> ({
                    &&& self.spec_deact_midi_list_tr(state@, ids@.skip(k as int)).0 == total.0
                    &&& spec_pkts(old(out)@) + total.1 == spec_pkts(out@)
                        + self.spec_deact_midi_list_tr(state@, ids@.skip(k as int)).1
                }),
            decreases ids@.len() - k,
        {
            let ghost rest = ids@.skip(k as int);
            proof {
                assert(rest[0] == ids@[k as int]);
                assert(rest.drop_first() =~= ids@.skip(k as int + 1));
            }
            let id = ids[k];
            if 1 <= id && id <= self.mappings.len() {
                self.deactivate_from_midi(id, state, out);
            }
            proof {
                if self.spec_clips_flat() || old(state)@.sustain {
                    assert(spec_pkts(old(out)@) + total.1 =~= spec_pkts(out@)
                        + self.spec_deact_midi_list_tr(state@, ids@.skip(k as int + 1)).1);
                }
            }
            k = k + 1;
        }
        proof {
            assert(ids@.skip(ids@.len() as int).len() == 0);
            if self.spec_clips_flat() || old(state)@.sustain {
                assert(spec_pkts(out@) =~= spec_pkts(old(out)@) + total.1);
            }
        }
    }

    /// Activate every mapping the note is bound to.
    pub fn process_note_on(
        &self,
        channel: u8,
        key: u8,
        state: &mut MutableShowState,
        now: u64,
        out: &mut Vec<Packet>,
    )
        requires
            self.wf(),
            self.spec_state_wf(old(state)@),
        ensures
            self.spec_state_wf(final(state)@),
            final(state)@ == self.spec_activate_list_tr(
                old(state)@,
                spec_trigger_ids(self.note_triggers@, channel, key),
                now,
            ).0,
            spec_pkts(final(out)@) == spec_pkts(old(out)@) + self.spec_activate_list_tr(
                old(state)@,
                spec_trigger_ids(self.note_triggers@, channel, key),
                now,
            ).1,
    {
        let ids = trigger_ids(&self.note_triggers, channel, key);
        self.activate_list(&ids, state, now, out);
    }

    /// Deactivate every mapping the note is bound to, buffering under
    /// sustain.
    pub fn process_note_off(
        &self,
        channel: u8,
        key: u8,
        state: &mut MutableShowState,
        out: &mut Vec<Packet>,
    )
        requires
            self.wf(),
            self.spec_state_wf(old(state)@),
        ensures
            self.spec_state_wf(final(state)@),
            self.spec_clips_flat() || old(state)@.sustain ==> final(state)@
                == self.spec_deact_midi_list_tr(
                old(state)@,
                spec_trigger_ids(self.note_triggers@, channel, key),
            ).0 && spec_pkts(final(out)@) == spec_pkts(old(out)@) + self.spec_deact_midi_list_tr(
                old(state)@,
                spec_trigger_ids(self.note_triggers@, channel, key),
            ).1,
    {
        let ids = trigger_ids(&self.note_triggers, channel, key);
        self.deact_midi_list(&ids, state, out);
    }

    /// Handle the reserved controllers on the control channel: sustain
    /// (64) gates the deactivation buffer, test (102) fires the test
    /// packet on 127 and a global off on any other value. Reports
    /// whether the event was reserved; a reserved event never reaches
    /// cue mappings.
    fn process_special_controllers(
        &self,
        channel: u8,
        controller: u8,
        value: u8,
        state: &mut MutableShowState,
        now: u64,
        out: &mut Vec<Packet>,
    ) -> (handled: bool)
        requires
            self.wf(),
            self.spec_state_wf(old(state)@),
        ensures
            self.spec_state_wf(final(state)@),
            handled == (channel == self.config.midi_control_channel && (controller
                == SUSTAIN_CONTROLLER || controller == TEST_CONTROLLER)),
            !handled ==> final(state)@ == old(state)@ && final(out)@ == old(out)@,
            handled && self.spec_clips_flat() ==> final(state)@ == self.spec_controller_tr(
                old(state)@,
                channel,
                controller,
                value,
                now,
            ).0 && spec_pkts(final(out)@) == spec_pkts(old(out)@) + self.spec_controller_tr(
                old(state)@,
                channel,
                controller,
                value,
                now,
            ).1,
    {
        if channel != self.config.midi_control_channel {
            return false;
        }
        if controller == SUSTAIN_CONTROLLER {
            if value == 127 {
                state.sustain = true;
                proof {
                    assert(state@ =~= (StateView { sustain: true, ..old(state)@ }));
                    assert(spec_pkts(out@) =~= spec_pkts(old(out)@) + self.spec_controller_tr(
                        old(state)@,
                        channel,
                        controller,
                        value,
                        now,
                    ).1);
                }
            } else if value == 0 {
                state.sustain = false;
                let pending = crate::util::copy_ids(&state.pending_off);
                let ghost v1 = state@;
                proof {
                    assert(v1 =~= (StateView { sustain: false, ..old(state)@ }));
                }
                self.deact_list(&pending, state, out);
                state.pending_off = Vec::new();
                proof {
                    if self.spec_clips_flat() {
                        assert(state@ =~= self.spec_controller_tr(
                            old(state)@,
                            channel,
                            controller,
                            value,
                            now,
                        ).0);
                        assert(spec_pkts(out@) =~= spec_pkts(old(out)@) + self.spec_controller_tr(
                            old(state)@,
                            channel,
                            controller,
                            value,
                            now,
                        ).1);
                    }
                }
            } else {
                proof {
                    assert(spec_pkts(out@) =~= spec_pkts(old(out)@) + self.spec_controller_tr(
                        old(state)@,
                        channel,
                        controller,
                        value,
                        now,
                    ).1);
                }
            }
            true
        } else if controller == TEST_CONTROLLER {
            if value == 127 {
                out.push(Packet {
                    recipients: Vec::new(),
                    payload: PacketPayload::Show(ShowPacket::test_packet()),
                });
                state.last_effect = now;
                proof {
                    assert(state@ =~= (StateView { last_effect: now, ..old(state)@ }));
                    assert(spec_pkts(out@) =~= spec_pkts(old(out)@).push(spec_global_test()));
                }
            } else {
                out.push(Packet {
                    recipients: Vec::new(),
                    payload: PacketPayload::Show(ShowPacket::off_packet()),
                });
                proof {
                    assert(spec_pkts(out@) =~= spec_pkts(old(out)@).push(spec_global_off()));
                }
            }
            true
        } else {
            false
        }
    }

    /// Dispatch a controller event: the reserved controllers first,
    /// else value 127 activates and value 0 deactivates every bound
    /// mapping; other values are ignored.
    pub fn process_controller(
        &self,
        channel: u8,
        controller: u8,
        value: u8,
        state: &mut MutableShowState,
        now: u64,
        out: &mut Vec<Packet>,
    )
        requires
            self.wf(),
            self.spec_state_wf(old(state)@),
        ensures
            self.spec_state_wf(final(state)@),
            self.spec_clips_flat() ==> final(state)@ == self.spec_controller_tr(
                old(state)@,
                channel,
                controller,
                value,
                now,
            ).0 && spec_pkts(final(out)@) == spec_pkts(old(out)@) + self.spec_controller_tr(
                old(state)@,
                channel,
                controller,
                value,
                now,
            ).1,
    {
        if self.process_special_controllers(channel, controller, value, state, now, out) {
            return;
        }
        let ids = trigger_ids(&self.controller_triggers, channel, controller);
        if value == 127 {
            self.activate_list(&ids, state, now, out);
        } else if value == 0 {
            self.deact_midi_list(&ids, state, out);
        } else {
            proof {
                assert(spec_pkts(out@) =~= spec_pkts(old(out)@) + self.spec_controller_tr(
                    old(state)@,
                    channel,
                    controller,
                    value,
                    now,
                ).1);
            }
        }
    }

    /// Dispatch one parsed MIDI event.
    pub fn process_midi_event(
        &self,
        event: &MidiEvent,
        state: &mut MutableShowState,
        now: u64,
        out: &mut Vec<Packet>,
    )
        requires
            self.wf(),
            self.spec_state_wf(old(state)@),
        ensures
            self.spec_state_wf(final(state)@),
            self.spec_clips_flat() ==> final(state)@ == self.spec_dispatch_tr(
                old(state)@,
                *event,
                now,
            ).0 && spec_pkts(final(out)@) == spec_pkts(old(out)@) + self.spec_dispatch_tr(
                old(state)@,
                *event,
                now,
            ).1,
    {
        match event {
            MidiEvent::NoteOn { channel, key, velocity: _ } => {
                self.process_note_on(*channel, *key, state, now, out);
            },
            MidiEvent::NoteOff { channel, key, velocity: _ } => {
                self.process_note_off(*channel, *key, state, out);
            },
            MidiEvent::Controller { channel, controller, value } => {
                self.process_controller(*channel, *controller, *value, state, now, out);
            },
            MidiEvent::Other => {
                proof {
                    assert(spec_pkts(out@) =~= spec_pkts(old(out)@) + self.spec_dispatch_tr(
                        old(state)@,
                        *event,
                        now,
                    ).1);
                }
            },
        }
    }

    /// Parse a raw MIDI buffer and dispatch it. A malformed buffer is
    /// ignored.
    pub fn process_midi(
        &self,
        buf: &[u8],
        state: &mut MutableShowState,
        now: u64,
        out: &mut Vec<Packet>,
    )
        requires
            self.wf(),
            self.spec_state_wf(old(state)@),
        ensures
            self.spec_state_wf(final(state)@),
            crate::midi::live_event_of(buf@) is None ==> final(state)@ == old(state)@
                && final(out)@ == old(out)@,
            self.spec_clips_flat() ==> (match crate::midi::live_event_of(buf@) {
                Some(ev) => final(state)@ == self.spec_dispatch_tr(old(state)@, ev, now).0
                    && spec_pkts(final(out)@) == spec_pkts(old(out)@) + self.spec_dispatch_tr(
                    old(state)@,
                    ev,
                    now,
                ).1,
                None => final(state)@ == old(state)@ && final(out)@ == old(out)@,
            }),
    {
        match crate::midi::parse_live_event(buf) {
            Some(ev) => {
                self.process_midi_event(&ev, state, now, out);
            },
            None => {},
        }
    }
}

// --- Receiver configuration and the lights-out keepalive --------------

/// The configuration packets for one receiver: its group id, if it has
/// a group, then its LED count.
pub open spec fn spec_receiver_conf_pkts(r: ReceiverEntry) -> Seq<PacketView> {
    (match r.group_id {
        Some(g) => seq![
            PacketView {
                recipients: seq![r.id],
                payload: PacketPayload::Control(Command::SetGroup { group_id: g }),
            },
        ],
        None => Seq::<PacketView>::empty(),
    }) + seq![
        PacketView {
            recipients: seq![r.id],
            payload: PacketPayload::Control(Command::SetLedCount { led_count: r.led_count }),
        },
    ]
}

/// The configuration packets for the first `n` receivers, in order.
pub open spec fn spec_conf_pkts_upto(entries: Seq<ReceiverEntry>, n: int) -> Seq<PacketView>
    decreases n,
{
    if n <= 0 {
        Seq::empty()
    } else {
        spec_conf_pkts_upto(entries, n - 1) + spec_receiver_conf_pkts(entries[n - 1])
    }
}

impl ShowState {
    /// The whole configuration sequence: a reset, then each receiver's
    /// group id and LED count, then the final broadcast reset that the
    /// receivers latch their identity before.
    pub open spec fn spec_configure_pkts(&self) -> Seq<PacketView> {
        seq![spec_global_reset()] + spec_conf_pkts_upto(
            self.receivers@,
            self.receivers@.len() as int,
        ) + seq![spec_global_reset()]
    }

    /// Emit the configuration packets for every receiver, between two
    /// broadcast resets.
    #[verifier::loop_isolation(false)]
    pub fn configure_receivers(&self, out: &mut Vec<Packet>)
        requires
            self.wf(),
        ensures
            spec_pkts(final(out)@) == spec_pkts(old(out)@) + self.spec_configure_pkts(),
    {
        out.push(Packet { recipients: Vec::new(), payload: PacketPayload::Control(Command::Reset) });
        proof {
            assert(spec_pkts(out@) =~= spec_pkts(old(out)@) + seq![spec_global_reset()]);
        }
        let mut i: usize = 0;
        while i < self.receivers.len()
            invariant
                i <= self.receivers@.len(),
                spec_pkts(out@) == spec_pkts(old(out)@) + seq![spec_global_reset()]
                    + spec_conf_pkts_upto(self.receivers@, i as int),
            decreases self.receivers@.len() - i,
        {
            let ghost out_pre = out@;
            let r = self.receivers[i];
            match r.group_id {
                Some(g) => {
                    let mut to: Vec<u8> = Vec::new();
                    to.push(r.id);
                    assert(to@ =~= seq![r.id]);
                    out.push(Packet {
                        recipients: to,
                        payload: PacketPayload::Control(Command::SetGroup { group_id: g }),
                    });
                },
                None => {},
            }
            let mut to2: Vec<u8> = Vec::new();
            to2.push(r.id);
            assert(to2@ =~= seq![r.id]);
            out.push(Packet {
                recipients: to2,
                payload: PacketPayload::Control(Command::SetLedCount { led_count: r.led_count }),
            });
            i = i + 1;
            proof {
                assert(spec_conf_pkts_upto(self.receivers@, i as int)
                    == spec_conf_pkts_upto(self.receivers@, i as int - 1)
                    + spec_receiver_conf_pkts(self.receivers@[i as int - 1]));
                assert(spec_pkts(out@) =~~= spec_pkts(out_pre)
                    + spec_receiver_conf_pkts(self.receivers@[i as int - 1]));
                assert(spec_pkts(out@) =~~= spec_pkts(old(out)@) + seq![spec_global_reset()]
                    + spec_conf_pkts_upto(self.receivers@, i as int));
            }
        }
        out.push(Packet { recipients: Vec::new(), payload: PacketPayload::Control(Command::Reset) });
        proof {
            assert(spec_pkts(out@) =~~= (spec_pkts(old(out)@) + seq![spec_global_reset()]
                + spec_conf_pkts_upto(self.receivers@, self.receivers@.len() as int)) + seq![
                spec_global_reset(),
            ]);
            assert(spec_pkts(out@) =~~= spec_pkts(old(out)@) + self.spec_configure_pkts());
        }
    }

    /// Whether the lights-out keepalive is due: no receiver is owned,
    /// no clip is playing, the show has been idle for at least the
    /// window's opening but less than its closing, and a full period
    /// has passed since the last keepalive.
    pub open spec fn spec_lights_out_due(&self, v: StateView, now: u64) -> bool {
        &&& forall|j: int| 0 <= j < v.receivers.len() ==>
            (#[trigger] v.receivers[j]).trigger_mapping == INACTIVE_MAPPING
        &&& !crate::clip::spec_any_playing(v.clips)
        &&& self.config.lights_out_window_open_millis <= crate::util::spec_elapsed(
            now,
            v.last_effect,
        ) < self.config.lights_out_window_close_millis
        &&& crate::util::spec_elapsed(now, v.last_lights_out)
            >= self.config.lights_out_period_millis
    }

    /// Send the lights-out keepalive exactly when it is due: one
    /// global off broadcast, and the keepalive clock moves to `now`.
    /// No off broadcast fires while any receiver is owned or any clip
    /// plays, before the idle window opens or after it closes, or more
    /// often than the period.
    #[verifier::loop_isolation(false)]
    pub fn maybe_lights_out(&self, state: &mut MutableShowState, now: u64, out: &mut Vec<Packet>)
        requires
            self.wf(),
            self.spec_state_wf(old(state)@),
        ensures
            self.spec_state_wf(final(state)@),
            self.spec_lights_out_due(old(state)@, now) ==> final(state)@ == (StateView {
                last_lights_out: now,
                ..old(state)@
            }) && spec_pkts(final(out)@) == spec_pkts(old(out)@).push(spec_global_off()),
            !self.spec_lights_out_due(old(state)@, now) ==> final(state)@ == old(state)@
                && final(out)@ == old(out)@,
    {
        let mut any_active = false;
        let mut j: usize = 0;
        while j < state.receiver_state.len()
            invariant
                j <= state.receiver_state@.len(),
                state@ == old(state)@,
                any_active ==> exists|x: int|
                    0 <= x < state.receiver_state@.len()
                        && (#[trigger] state.receiver_state@[x]).trigger_mapping
                        != INACTIVE_MAPPING,
                !any_active ==> forall|x: int| 0 <= x < j ==>
                    (#[trigger] state.receiver_state@[x]).trigger_mapping == INACTIVE_MAPPING,
            decreases state.receiver_state@.len() - j,
        {
            if state.receiver_state[j].is_active() {
                any_active = true;
            }
            j = j + 1;
        }
        let playing = state.clip_engine.is_playing();
        let idle_for = crate::util::elapsed(now, state.last_effect);
        let since_keepalive = crate::util::elapsed(now, state.last_lights_out);
        let (open, close) = self.config.lights_out_window();
        let due = !any_active && !playing && open <= idle_for && idle_for < close
            && since_keepalive >= self.config.lights_out_delay();
        proof {
            assert(due == self.spec_lights_out_due(old(state)@, now));
        }
        if due {
            out.push(Packet {
                recipients: Vec::new(),
                payload: PacketPayload::Show(ShowPacket::off_packet()),
            });
            state.last_lights_out = now;
            proof {
                assert(state@ =~= (StateView { last_lights_out: now, ..old(state)@ }));
                assert(spec_pkts(out@) =~= spec_pkts(old(out)@).push(spec_global_off()));
            }
        }
    }
}

// --- Clip stepping and the tick ---------------------------------------

/// The most clip steps one tick will run for one clip. A clip that is
/// still due after this many steps is reported as due again
/// immediately, so the next tick resumes it.
pub const MAX_CLIP_STEPS_PER_TICK: u32 = 4096;

impl ShowState {
    /// Whether clip `c` has nothing to run right now: it is stopped,
    /// past its last step, or not yet due.
    pub open spec fn spec_clip_blocked(&self, v: StateView, c: int, now: u64) -> bool {
        !(v.clips[c].playing && v.clips[c].step < self.clips@[c].steps@.len()
            && v.clips[c].advance_at <= now)
    }

    /// The state and packets of running the current step of clip `c`.
    pub open spec fn spec_step_tr(&self, v: StateView, c: int, now: u64) -> (
        StateView,
        Seq<PacketView>,
    ) {
        let cl = v.clips[c];
        let next_step = (cl.step + 1) as usize;
        match self.clips@[c].steps@[cl.step as int] {
            ResolvedStep::MappingOn(id) => {
                let ov = Some(EffectOverrides {
                    color: cl.override_color,
                    tempo: Some(cl.tempo),
                    attack: None,
                    sustain: None,
                    release: None,
                });
                let (v1, p) = if 1 <= id <= self.mappings@.len() {
                    self.spec_activate_tr(v, id, ov, now)
                } else {
                    (v, Seq::empty())
                };
                let cl1 = v1.clips[c];
                let owned = if 1 <= id <= self.mappings@.len() && !self.mappings@[id - 1].one_shot
                    && !cl1.active.contains(id) {
                    cl1.active.push(id)
                } else {
                    cl1.active
                };
                (
                    StateView {
                        clips: v1.clips.update(c, (ClipView { step: next_step, active: owned, ..cl1 })),
                        ..v1
                    },
                    p,
                )
            },
            ResolvedStep::MappingOff(idx) => {
                if idx < self.clips@[c].steps@.len() && (self.clips@[c].steps@[idx as int]
                    matches ResolvedStep::MappingOn(id2)) {
                    let id2 = self.clips@[c].steps@[idx as int]->MappingOn_0;
                    let (v1, p) = if 1 <= id2 <= self.mappings@.len() {
                        self.spec_deactivate_tr(v, id2)
                    } else {
                        (v, Seq::empty())
                    };
                    let cl1 = v1.clips[c];
                    (
                        StateView {
                            clips: v1.clips.update(
                                c,
                                (ClipView {
                                    step: next_step,
                                    active: crate::clip::spec_without_id(cl1.active, id2),
                                    ..cl1
                                }),
                            ),
                            ..v1
                        },
                        p,
                    )
                } else {
                    (
                        StateView {
                            clips: v.clips.update(c, (ClipView { step: next_step, ..cl })),
                            ..v
                        },
                        Seq::empty(),
                    )
                }
            },
            ResolvedStep::WaitBeats(b) => (
                StateView {
                    clips: v.clips.update(
                        c,
                        (ClipView {
                            step: next_step,
                            advance_at: crate::util::spec_add_sat(
                                now,
                                crate::clip::spec_beats_to_millis(b, cl.tempo),
                            ),
                            ..cl
                        }),
                    ),
                    ..v
                },
                Seq::empty(),
            ),
            ResolvedStep::WaitMillis(ms) => (
                StateView {
                    clips: v.clips.update(
                        c,
                        (ClipView {
                            step: next_step,
                            advance_at: crate::util::spec_add_sat(now, ms as u64),
                            ..cl
                        }),
                    ),
                    ..v
                },
                Seq::empty(),
            ),
            ResolvedStep::Loop(idx) => (
                StateView { clips: v.clips.update(c, (ClipView { step: idx, ..cl })), ..v },
                Seq::empty(),
            ),
            ResolvedStep::SetColor(col) => (
                StateView {
                    clips: v.clips.update(
                        c,
                        (ClipView { step: next_step, override_color: Some(col), ..cl }),
                    ),
                    ..v
                },
                Seq::empty(),
            ),
            ResolvedStep::SetTempo(t) => (
                StateView {
                    clips: v.clips.update(c, (ClipView { step: next_step, tempo: t, ..cl })),
                    ..v
                },
                Seq::empty(),
            ),
            ResolvedStep::Stop => self.spec_stop_clip_tr(v, c),
            ResolvedStep::StopOther(oc2) => {
                match oc2 {
                    Some(c2) => {
                        let (v1, p) = if c2 < self.clips@.len() {
                            self.spec_stop_clip_tr(v, c2 as int)
                        } else {
                            (v, Seq::empty())
                        };
                        let cl1 = v1.clips[c];
                        (
                            StateView {
                                clips: v1.clips.update(c, (ClipView { step: next_step, ..cl1 })),
                                ..v1
                            },
                            p,
                        )
                    },
                    None => (
                        StateView {
                            clips: v.clips.update(c, (ClipView { step: next_step, ..cl })),
                            ..v
                        },
                        Seq::empty(),
                    ),
                }
            },
            ResolvedStep::End => (
                StateView {
                    clips: v.clips.update(c, (ClipView { playing: false, ..cl })),
                    ..v
                },
                Seq::empty(),
            ),
        }
    }

    /// Run up to `k` due steps of clip `c`, stopping early once the
    /// clip blocks.
    pub open spec fn spec_run_clip(&self, v: StateView, c: int, now: u64, k: nat) -> (
        StateView,
        Seq<PacketView>,
    )
        decreases k,
    {
        if k == 0 || self.spec_clip_blocked(v, c, now) {
            (v, Seq::empty())
        } else {
            let (v1, p1) = self.spec_step_tr(v, c, now);
            let (v2, p2) = self.spec_run_clip(v1, c, now, (k - 1) as nat);
            (v2, p1 + p2)
        }
    }

    /// When clip `c` next wants a step, if it is playing and not past
    /// its end.
    pub open spec fn spec_clip_next(&self, clips: Seq<ClipView>, c: int) -> Option<u64> {
        if clips[c].playing && clips[c].step < self.clips@[c].steps@.len() {
            Some(clips[c].advance_at)
        } else {
            None
        }
    }

    /// The earliest time any of the first `n` clips wants a step.
    pub open spec fn spec_next_due_upto(&self, clips: Seq<ClipView>, n: int) -> Option<u64>
        decreases n,
    {
        if n <= 0 {
            None
        } else {
            let p = self.spec_next_due_upto(clips, n - 1);
            match self.spec_clip_next(clips, n - 1) {
                None => p,
                Some(d) => match p {
                    None => Some(d),
                    Some(e) => Some(if d < e { d } else { e }),
                },
            }
        }
    }

    /// The earliest time any clip wants a step.
    pub open spec fn spec_next_due(&self, clips: Seq<ClipView>) -> Option<u64> {
        self.spec_next_due_upto(clips, clips.len() as int)
    }

    /// The time to wait before the next tick: the lights-out period,
    /// or sooner if a clip is due before that.
    pub open spec fn spec_tick_wake(&self, clips: Seq<ClipView>, now: u64) -> u64 {
        match self.spec_next_due(clips) {
            None => self.config.lights_out_period_millis,
            Some(d) => {
                let e = crate::util::spec_elapsed(d, now);
                if e < self.config.lights_out_period_millis {
                    e
                } else {
                    self.config.lights_out_period_millis
                }
            },
        }
    }

    /// Run the due steps of each of the first `n` clips in turn, clip
    /// `i` for `ks[i]` steps.
    pub open spec fn spec_run_clips_upto(
        &self,
        v: StateView,
        now: u64,
        n: int,
        ks: Seq<nat>,
    ) -> (StateView, Seq<PacketView>)
        decreases n,
    {
        if n <= 0 {
            (v, Seq::empty())
        } else {
            let (v1, p1) = self.spec_run_clips_upto(v, now, n - 1, ks);
            let (v2, p2) = self.spec_run_clip(v1, n - 1, now, ks[n - 1]);
            (v2, p1 + p2)
        }
    }

    /// The fold reads only the first `n` step counts.
    pub proof fn lemma_run_clips_upto_prefix(
        &self,
        v: StateView,
        now: u64,
        n: int,
        ks1: Seq<nat>,
        ks2: Seq<nat>,
    )
        requires
            forall|i: int| 0 <= i < n ==> ks1[i] == ks2[i],
        ensures
            self.spec_run_clips_upto(v, now, n, ks1) == self.spec_run_clips_upto(v, now, n, ks2),
        decreases n,
    {
        if n > 0 {
            self.lemma_run_clips_upto_prefix(v, now, n - 1, ks1, ks2);
        }
    }

    /// Run the due steps of clip `c` (bounded by
    /// [`MAX_CLIP_STEPS_PER_TICK`]) and report when it next wants one.
    pub fn play_clip(
        &self,
        c: usize,
        state: &mut MutableShowState,
        now: u64,
        out: &mut Vec<Packet>,
    ) -> (next: Option<u64>)
        requires
            self.wf(),
            self.spec_state_wf(old(state)@),
            c < self.clips@.len(),
        ensures
            self.spec_state_wf(final(state)@),
            final(state)@.sustain == old(state)@.sustain,
            final(state)@.pending_off == old(state)@.pending_off,
            final(state)@.last_lights_out == old(state)@.last_lights_out,
            final(state)@.clips.len() == old(state)@.clips.len(),
            self.spec_clip_blocked(old(state)@, c as int, now) ==> final(state)@ == old(state)@
                && final(out)@ == old(out)@,
            spec_pkts_prefix(old(out)@, final(out)@),
            self.spec_clips_flat() ==> exists|k: nat|
                k <= MAX_CLIP_STEPS_PER_TICK && final(state)@ == self.spec_run_clip(
                    old(state)@,
                    c as int,
                    now,
                    k,
                ).0 && spec_pkts(final(out)@) == spec_pkts(old(out)@) + self.spec_run_clip(
                    old(state)@,
                    c as int,
                    now,
                    k,
                ).1 && (self.spec_clip_blocked(final(state)@, c as int, now) || k
                    == MAX_CLIP_STEPS_PER_TICK),
            next == self.spec_clip_next(final(state)@.clips, c as int),
    {
        self.step_clip_rec(c, MAX_CLIP_STEPS_PER_TICK, state, now, out);
        let (playing, stepidx, advance_at, _tempo, _oc) = state.clip_engine.snapshot(c);
        let steps_len = {
            let cd = &self.clips[c];
            cd.steps.len()
        };
        if playing && stepidx < steps_len {
            Some(advance_at)
        } else {
            None
        }
    }

    /// Run the due steps of every playing clip, in show order, and
    /// report the earliest time any clip wants its next step.
    #[verifier::loop_isolation(false)]
    #[verifier::rlimit(100)]
    #[verifier::spinoff_prover]
    pub fn play_clips(
        &self,
        state: &mut MutableShowState,
        now: u64,
        out: &mut Vec<Packet>,
    ) -> (next: Option<u64>)
        requires
            self.wf(),
            self.spec_state_wf(old(state)@),
        ensures
            self.spec_state_wf(final(state)@),
            final(state)@.sustain == old(state)@.sustain,
            final(state)@.pending_off == old(state)@.pending_off,
            final(state)@.last_lights_out == old(state)@.last_lights_out,
            final(state)@.clips.len() == old(state)@.clips.len(),
            (forall|c: int| 0 <= c < old(state)@.clips.len() ==>
                !(#[trigger] old(state)@.clips[c]).playing) ==> final(state)@ == old(state)@
                && final(out)@ == old(out)@,
            spec_pkts_prefix(old(out)@, final(out)@),
            self.spec_clips_flat() ==> exists|ks: Seq<nat>|
                #![trigger ks.len()]
                ks.len() == self.clips@.len() && (forall|i: int|
                    0 <= i < ks.len() ==> #[trigger] ks[i] <= MAX_CLIP_STEPS_PER_TICK)
                    && final(state)@ == self.spec_run_clips_upto(
                    old(state)@,
                    now,
                    self.clips@.len() as int,
                    ks,
                ).0 && spec_pkts(final(out)@) == spec_pkts(old(out)@) + self.spec_run_clips_upto(
                    old(state)@,
                    now,
                    self.clips@.len() as int,
                    ks,
                ).1 && (forall|i: int|
                    0 <= i < ks.len() ==> #[trigger] ks[i] == MAX_CLIP_STEPS_PER_TICK
                        || self.spec_clip_blocked(
                        self.spec_run_clips_upto(old(state)@, now, i + 1, ks).0,
                        i,
                        now,
                    )),
            next == self.spec_next_due(final(state)@.clips),
    {
        proof {
            lemma_pkts_prefix_refl(old(out)@);
            if self.spec_clips_flat() {
                let ks0 = Seq::<nat>::empty();
                assert(ks0.len() == 0);
                assert(self.spec_run_clips_upto(old(state)@, now, 0, ks0).0 == old(state)@);
                assert(spec_pkts(out@) =~= spec_pkts(old(out)@) + self.spec_run_clips_upto(
                    old(state)@,
                    now,
                    0,
                    ks0,
                ).1);
            }
        }
        let mut c: usize = 0;
        while c < self.clips.len()
            invariant
                c <= self.clips@.len(),
                self.spec_state_wf(state@),
                spec_pkts_prefix(old(out)@, out@),
                state@.sustain == old(state)@.sustain,
                state@.pending_off == old(state)@.pending_off,
                state@.last_lights_out == old(state)@.last_lights_out,
                state@.clips.len() == old(state)@.clips.len(),
                (forall|c2: int| 0 <= c2 < old(state)@.clips.len() ==>
                    !(#[trigger] old(state)@.clips[c2]).playing) ==> state@ == old(state)@
                    && out@ == old(out)@,
                c == 0 ==> state@ == old(state)@ && out@ == old(out)@,
                self.spec_clips_flat() ==> exists|ks: Seq<nat>|
                    #![trigger ks.len()]
                    ks.len() == c && (forall|i: int|
                        0 <= i < ks.len() ==> #[trigger] ks[i] <= MAX_CLIP_STEPS_PER_TICK)
                        && state@ == self.spec_run_clips_upto(old(state)@, now, c as int, ks).0
                        && spec_pkts(out@) == spec_pkts(old(out)@) + self.spec_run_clips_upto(
                        old(state)@,
                        now,
                        c as int,
                        ks,
                    ).1 && (forall|i: int|
                        0 <= i < ks.len() ==> #[trigger] ks[i] == MAX_CLIP_STEPS_PER_TICK
                            || self.spec_clip_blocked(
                            self.spec_run_clips_upto(old(state)@, now, i + 1, ks).0,
                            i,
                            now,
                        )),
            decreases self.clips@.len() - c,
        {
            let ghost v_entry = state@;
            let ghost out_entry = out@;
            self.step_clip_rec(c, MAX_CLIP_STEPS_PER_TICK, state, now, out);
            proof {
                lemma_pkts_prefix_trans(old(out)@, out_entry, out@);
                if forall|c2: int|
                    0 <= c2 < old(state)@.clips.len() ==> !(#[trigger] old(
                        state,
                    )@.clips[c2]).playing {
                    assert(v_entry == old(state)@);
                    assert(!old(state)@.clips[c as int].playing);
                    assert(self.spec_clip_blocked(v_entry, c as int, now));
                }
                if self.spec_clips_flat() {
                    let ks = choose|ks: Seq<nat>|
                        ks.len() == c && (forall|i: int|
                            0 <= i < ks.len() ==> #[trigger] ks[i] <= MAX_CLIP_STEPS_PER_TICK)
                            && v_entry == self.spec_run_clips_upto(old(state)@, now, c as int, ks).0
                            && spec_pkts(out_entry) == spec_pkts(old(out)@)
                            + self.spec_run_clips_upto(old(state)@, now, c as int, ks).1 && (forall|
                            i: int,
                        |
                            0 <= i < ks.len() ==> #[trigger] ks[i] == MAX_CLIP_STEPS_PER_TICK
                                || self.spec_clip_blocked(
                                self.spec_run_clips_upto(old(state)@, now, i + 1, ks).0,
                                i,
                                now,
                            ));
                    let k = choose|k: nat|
                        k <= MAX_CLIP_STEPS_PER_TICK && state@ == self.spec_run_clip(
                            v_entry,
                            c as int,
                            now,
                            k,
                        ).0 && spec_pkts(out@) == spec_pkts(out_entry) + self.spec_run_clip(
                            v_entry,
                            c as int,
                            now,
                            k,
                        ).1 && (self.spec_clip_blocked(state@, c as int, now) || k
                            == MAX_CLIP_STEPS_PER_TICK);
                    let ks1 = ks.push(k);
                    self.lemma_run_clips_upto_prefix(old(state)@, now, c as int, ks1, ks);
                    assert forall|i: int| 0 <= i <= c implies self.spec_run_clips_upto(
                        old(state)@,
                        now,
                        i,
                        ks1,
                    ) == self.spec_run_clips_upto(old(state)@, now, i, ks) by {
                        self.lemma_run_clips_upto_prefix(old(state)@, now, i, ks1, ks);
                    }
                    assert(self.spec_run_clips_upto(old(state)@, now, c as int + 1, ks1).0
                        == state@);
                    assert(spec_pkts(out@) =~= spec_pkts(old(out)@) + self.spec_run_clips_upto(
                        old(state)@,
                        now,
                        c as int + 1,
                        ks1,
                    ).1);
                    assert forall|i: int| 0 <= i < ks1.len() implies #[trigger] ks1[i]
                        == MAX_CLIP_STEPS_PER_TICK || self.spec_clip_blocked(
                        self.spec_run_clips_upto(old(state)@, now, i + 1, ks1).0,
                        i,
                        now,
                    ) by {
                        if i < c {
                            assert(ks1[i] == ks[i]);
                        }
                    }
                    assert(exists|ks2: Seq<nat>|
                        #![trigger ks2.len()]
                        ks2.len() == c + 1 && (forall|i: int|
                            0 <= i < ks2.len() ==> #[trigger] ks2[i] <= MAX_CLIP_STEPS_PER_TICK)
                            && state@ == self.spec_run_clips_upto(
                            old(state)@,
                            now,
                            c as int + 1,
                            ks2,
                        ).0 && spec_pkts(out@) == spec_pkts(old(out)@) + self.spec_run_clips_upto(
                            old(state)@,
                            now,
                            c as int + 1,
                            ks2,
                        ).1 && (forall|i: int|
                            0 <= i < ks2.len() ==> #[trigger] ks2[i] == MAX_CLIP_STEPS_PER_TICK
                                || self.spec_clip_blocked(
                                self.spec_run_clips_upto(old(state)@, now, i + 1, ks2).0,
                                i,
                                now,
                            ))) by {
                        assert(ks1.len() == c + 1);
                    }
                }
            }
            c = c + 1;
        }
        let mut next: Option<u64> = None;
        let mut c2: usize = 0;
        while c2 < self.clips.len()
            invariant
                c2 <= self.clips@.len(),
                state@.clips.len() == self.clips@.len(),
                next == self.spec_next_due_upto(state@.clips, c2 as int),
            decreases self.clips@.len() - c2,
        {
            let (playing, stepidx, advance_at, _t, _o) = state.clip_engine.snapshot(c2);
            let steps_len = {
                let cd = &self.clips[c2];
                cd.steps.len()
            };
            if playing && stepidx < steps_len {
                next = match next {
                    None => Some(advance_at),
                    Some(e) => Some(if advance_at < e { advance_at } else { e }),
                };
            }
            c2 = c2 + 1;
        }
        next
    }

    /// Advance every playing clip, send the lights-out keepalive if it
    /// is due, and report how long the director may sleep before the
    /// next tick. Whatever the clips did, the keepalive stage obeys
    /// its law: the keepalive clock moves to `now`, with one global
    /// off broadcast as the last packet, exactly when the keepalive
    /// was due in the post-stepping state — which is the final state
    /// with the keepalive clock rolled back.
    pub fn tick(&self, state: &mut MutableShowState, now: u64, out: &mut Vec<Packet>) -> (wake: u64)
        requires
            self.wf(),
            self.spec_state_wf(old(state)@),
        ensures
            self.spec_state_wf(final(state)@),
            wake == self.spec_tick_wake(final(state)@.clips, now),
            final(state)@.sustain == old(state)@.sustain,
            final(state)@.pending_off == old(state)@.pending_off,
            ({
                let stepped = (StateView {
                    last_lights_out: old(state)@.last_lights_out,
                    ..final(state)@
                });
                if self.spec_lights_out_due(stepped, now) {
                    final(state)@.last_lights_out == now && spec_pkts(final(out)@).len()
                        > spec_pkts(old(out)@).len() && spec_pkts(final(out)@).last()
                        == spec_global_off()
                } else {
                    final(state)@.last_lights_out == old(state)@.last_lights_out
                }
            }),
            (forall|c: int| 0 <= c < old(state)@.clips.len() ==>
                !(#[trigger] old(state)@.clips[c]).playing) ==> ({
                if self.spec_lights_out_due(old(state)@, now) {
                    final(state)@ == (StateView { last_lights_out: now, ..old(state)@ })
                        && spec_pkts(final(out)@) == spec_pkts(old(out)@).push(spec_global_off())
                } else {
                    final(state)@ == old(state)@ && final(out)@ == old(out)@
                }
            }),
    {
        let next = self.play_clips(state, now, out);
        let ghost v_stepped = state@;
        let ghost out_stepped = out@;
        self.maybe_lights_out(state, now, out);
        proof {
            assert((StateView { last_lights_out: old(state)@.last_lights_out, ..state@ })
                =~~= v_stepped);
            if self.spec_lights_out_due(v_stepped, now) {
                assert(spec_pkts(out@) == spec_pkts(out_stepped).push(spec_global_off()));
                assert(spec_pkts(out@).len() == spec_pkts(out_stepped).len() + 1);
                assert(spec_pkts(out_stepped).len() >= spec_pkts(old(out)@).len());
                assert(spec_pkts(out@).last() == spec_global_off());
            }
        }
        let delay = self.config.lights_out_delay();
        match next {
            None => delay,
            Some(d) => {
                let e = crate::util::elapsed(d, now);
                if e < delay {
                    e
                } else {
                    delay
                }
            },
        }
    }
}

impl ShowState {
    /// Read the resolved step at position `s` of clip `c`.
    fn clip_step_at(&self, c: usize, s: usize) -> (r: ResolvedStep)
        requires
            c < self.clips@.len(),
            s < self.clips@[c as int].steps@.len(),
        ensures
            r == self.clips@[c as int].steps@[s as int],
    {
        let cd = &self.clips[c];
        cd.steps[s]
    }

    /// Run the due steps of clip `c`, at most `budget` of them.
    #[verifier::loop_isolation(false)]
    #[verifier::rlimit(100)]
    #[verifier::spinoff_prover]
    fn step_clip_rec(
        &self,
        c: usize,
        budget: u32,
        state: &mut MutableShowState,
        now: u64,
        out: &mut Vec<Packet>,
    )
        requires
            self.wf(),
            self.spec_state_wf(old(state)@),
            c < self.clips@.len(),
        ensures
            self.spec_state_wf(final(state)@),
            final(state)@.sustain == old(state)@.sustain,
            final(state)@.pending_off == old(state)@.pending_off,
            final(state)@.last_lights_out == old(state)@.last_lights_out,
            final(state)@.clips.len() == old(state)@.clips.len(),
            self.spec_clip_blocked(old(state)@, c as int, now) ==> final(state)@ == old(state)@
                && final(out)@ == old(out)@,
            spec_pkts_prefix(old(out)@, final(out)@),
            self.spec_clips_flat() ==> exists|k: nat|
                k <= budget && final(state)@ == self.spec_run_clip(
                    old(state)@,
                    c as int,
                    now,
                    k,
                ).0 && spec_pkts(final(out)@) == spec_pkts(old(out)@) + self.spec_run_clip(
                    old(state)@,
                    c as int,
                    now,
                    k,
                ).1 && (self.spec_clip_blocked(final(state)@, c as int, now) || k == budget),
        decreases budget,
    {
        let ghost v0 = old(state)@;
        let (playing, stepidx, advance_at, tempo, ocolor) = state.clip_engine.snapshot(c);
        let steps_len = {
            let cd = &self.clips[c];
            cd.steps.len()
        };
        if budget == 0 || !playing || stepidx >= steps_len || advance_at > now {
            proof {
                lemma_pkts_prefix_refl(old(out)@);
                if self.spec_clips_flat() {
                    if budget == 0 {
                        assert(out@ =~= old(out)@);
                        assert(self.spec_run_clip(v0, c as int, now, 0).0 == v0);
                        assert(spec_pkts(out@) =~= spec_pkts(old(out)@) + self.spec_run_clip(
                            v0,
                            c as int,
                            now,
                            0,
                        ).1);
                        assert(exists|k: nat|
                            k <= budget && state@ == self.spec_run_clip(v0, c as int, now, k).0
                                && spec_pkts(out@) == spec_pkts(old(out)@) + self.spec_run_clip(
                                v0,
                                c as int,
                                now,
                                k,
                            ).1 && (self.spec_clip_blocked(state@, c as int, now) || k == budget));
                    } else {
                        assert(self.spec_clip_blocked(v0, c as int, now));
                        assert(self.spec_run_clip(v0, c as int, now, 0).0 == v0);
                        assert(spec_pkts(out@) =~= spec_pkts(old(out)@) + self.spec_run_clip(
                            v0,
                            c as int,
                            now,
                            0,
                        ).1);
                        assert(exists|k: nat|
                            k <= budget && state@ == self.spec_run_clip(v0, c as int, now, k).0
                                && spec_pkts(out@) == spec_pkts(old(out)@) + self.spec_run_clip(
                                v0,
                                c as int,
                                now,
                                k,
                            ).1 && (self.spec_clip_blocked(state@, c as int, now) || k == budget));
                    }
                }
            }
            return;
        }
        let ghost step_total = self.spec_step_tr(v0, c as int, now);
        let step_val = self.clip_step_at(c, stepidx);
        match step_val {
            ResolvedStep::MappingOn(id) => {
                let ov = Some(EffectOverrides {
                    color: ocolor,
                    tempo: Some(tempo),
                    attack: None,
                    sustain: None,
                    release: None,
                });
                if 1 <= id && id <= self.mappings.len() {
                    self.activate(id, ov, state, now, out);
                }
                if 1 <= id && id <= self.mappings.len() && !self.mappings[id - 1].one_shot {
                    state.clip_engine.add_active(c, id);
                    proof {
                        assert forall|c2: int, k2: int|
                            0 <= c2 < state@.clips.len() && 0 <= k2
                                < (#[trigger] state@.clips[c2]).active.len() implies
                            self.spec_owned_id_wf(c2, #[trigger] state@.clips[c2].active[k2]) by {
                            if c2 == c as int {
                                assert(crate::showstate::spec_step_turns_on(
                                    self.clips@[c as int].steps@[stepidx as int],
                                    id,
                                ));
                                assert(self.spec_clip_on_ids(c as int).contains(id));
                            }
                        }
                        assert forall|c2: int| 0 <= c2 < state@.clips.len() implies
                            (#[trigger] state@.clips[c2]).active.no_duplicates() by {
                        }
                    }
                }
                state.clip_engine.set_step(c, stepidx + 1);
                proof {
                    assert(state@.clips =~= step_total.0.clips);
                    assert(state@ == step_total.0);
                    assert(spec_pkts(out@) =~= spec_pkts(old(out)@) + step_total.1);
                }
            },
            ResolvedStep::MappingOff(idx) => {
                if idx < steps_len {
                    let target = self.clip_step_at(c, idx);
                    match target {
                        ResolvedStep::MappingOn(id2) => {
                            if 1 <= id2 && id2 <= self.mappings.len() {
                                self.deactivate(id2, state, out);
                            }
                            let ghost active_pre = state@.clips[c as int].active;
                            state.clip_engine.remove_active(c, id2);
                            proof {
                                crate::clip::lemma_without_id_props(active_pre, id2);
                                assert forall|c2: int, k2: int|
                                    0 <= c2 < state@.clips.len() && 0 <= k2
                                        < (#[trigger] state@.clips[c2]).active.len() implies
                                    self.spec_owned_id_wf(
                                        c2,
                                        #[trigger] state@.clips[c2].active[k2],
                                    ) by {
                                    if c2 == c as int {
                                        let x = state@.clips[c2].active[k2];
                                        assert(crate::clip::spec_without_id(active_pre, id2)
                                            .contains(x));
                                        assert(active_pre.contains(x));
                                    }
                                }
                            }
                        },
                        _ => {},
                    }
                }
                state.clip_engine.set_step(c, stepidx + 1);
                proof {
                    if self.spec_clips_flat() {
                        assert(state@.clips =~= step_total.0.clips);
                        assert(state@ == step_total.0);
                        assert(spec_pkts(out@) =~= spec_pkts(old(out)@) + step_total.1);
                    }
                }
            },
            ResolvedStep::WaitBeats(b) => {
                let wait = beats_to_millis(b, tempo);
                state.clip_engine.set_step_and_due(c, stepidx + 1, crate::util::add_sat(now, wait));
                proof {
                    assert(state@.clips =~= step_total.0.clips);
                    assert(state@ == step_total.0);
                    assert(spec_pkts(out@) =~= spec_pkts(old(out)@) + step_total.1);
                }
            },
            ResolvedStep::WaitMillis(ms) => {
                state.clip_engine.set_step_and_due(
                    c,
                    stepidx + 1,
                    crate::util::add_sat(now, ms as u64),
                );
                proof {
                    assert(state@.clips =~= step_total.0.clips);
                    assert(state@ == step_total.0);
                    assert(spec_pkts(out@) =~= spec_pkts(old(out)@) + step_total.1);
                }
            },
            ResolvedStep::Loop(idx) => {
                state.clip_engine.set_step(c, idx);
                proof {
                    assert(state@.clips =~= step_total.0.clips);
                    assert(state@ == step_total.0);
                    assert(spec_pkts(out@) =~= spec_pkts(old(out)@) + step_total.1);
                }
            },
            ResolvedStep::SetColor(col) => {
                state.clip_engine.set_override_color(c, Some(col));
                state.clip_engine.set_step(c, stepidx + 1);
                proof {
                    assert(state@.clips =~= step_total.0.clips);
                    assert(state@ == step_total.0);
                    assert(spec_pkts(out@) =~= spec_pkts(old(out)@) + step_total.1);
                }
            },
            ResolvedStep::SetTempo(t) => {
                state.clip_engine.set_tempo(c, t);
                state.clip_engine.set_step(c, stepidx + 1);
                proof {
                    assert(state@.clips =~= step_total.0.clips);
                    assert(state@ == step_total.0);
                    assert(spec_pkts(out@) =~= spec_pkts(old(out)@) + step_total.1);
                }
            },
            ResolvedStep::Stop => {
                self.stop_clip(c, state, out);
                proof {
                    if self.spec_clips_flat() {
                        assert(state@ == step_total.0);
                        assert(spec_pkts(out@) =~= spec_pkts(old(out)@) + step_total.1);
                    }
                }
            },
            ResolvedStep::StopOther(oc2) => {
                match oc2 {
                    Some(c2) => {
                        if c2 < self.clips.len() {
                            self.stop_clip(c2, state, out);
                        }
                    },
                    None => {},
                }
                state.clip_engine.set_step(c, stepidx + 1);
                proof {
                    if self.spec_clips_flat() {
                        assert(state@.clips =~= step_total.0.clips);
                        assert(state@ == step_total.0);
                        assert(spec_pkts(out@) =~= spec_pkts(old(out)@) + step_total.1);
                    }
                }
            },
            ResolvedStep::End => {
                state.clip_engine.set_not_playing(c);
                proof {
                    assert(state@.clips =~= step_total.0.clips);
                    assert(state@ == step_total.0);
                    assert(spec_pkts(out@) =~= spec_pkts(old(out)@) + step_total.1);
                }
            },
        }
        proof {
            lemma_pkts_prefix_refl(old(out)@);
            assert(spec_pkts_prefix(old(out)@, out@));
        }
        let ghost v_mid = state@;
        let ghost out_mid = out@;
        self.step_clip_rec(c, budget - 1, state, now, out);
        proof {
            lemma_pkts_prefix_trans(old(out)@, out_mid, out@);
            if self.spec_clips_flat() {
                assert(v_mid == step_total.0);
                let k1 = choose|k1: nat|
                    k1 <= budget - 1 && state@ == self.spec_run_clip(v_mid, c as int, now, k1).0
                        && spec_pkts(out@) == spec_pkts(out_mid) + self.spec_run_clip(
                        v_mid,
                        c as int,
                        now,
                        k1,
                    ).1 && (self.spec_clip_blocked(state@, c as int, now) || k1 == budget - 1);
                let k = k1 + 1;
                assert(self.spec_run_clip(v0, c as int, now, k).0 == self.spec_run_clip(
                    v_mid,
                    c as int,
                    now,
                    k1,
                ).0);
                assert(self.spec_run_clip(v0, c as int, now, k).1 == step_total.1
                    + self.spec_run_clip(v_mid, c as int, now, k1).1);
                assert(spec_pkts(out@) =~= spec_pkts(old(out)@) + self.spec_run_clip(
                    v0,
                    c as int,
                    now,
                    k,
                ).1);
                assert(k <= budget && state@ == self.spec_run_clip(v0, c as int, now, k).0
                    && spec_pkts(out@) == spec_pkts(old(out)@) + self.spec_run_clip(
                    v0,
                    c as int,
                    now,
                    k,
                ).1 && (self.spec_clip_blocked(state@, c as int, now) || k == budget));
            }
        }
    }
}

} // verus!
