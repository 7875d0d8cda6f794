//! Cross-operation laws of the show runtime, proved over the
//! transition functions that the runtime's contracts are stated with.
//!
//! The per-operation invariants live in the operations' own contracts:
//! every runtime operation ensures `ShowState::spec_state_wf`, whose
//! ownership clause says each receiver is idle or owned by a
//! non-one-shot mapping that targets it; and the lights-out gating is
//! the contract of `ShowState::maybe_lights_out`.

use vstd::prelude::*;

use crate::packet::{PacketPayload, PacketView, ShowPacket};
use crate::showstate::{EffectOverrides, ResolvedLight, ShowState, StateView, INACTIVE_MAPPING};

verus! {

/// Activating an effect mapping and deactivating it with no
/// intervening activation takes the simple off path: exactly one off
/// packet, addressed to the mapping's resolved targets, and every
/// receiver in the mapping's expansion idle again; receivers the
/// mapping does not touch keep their state.
pub proof fn lemma_activate_then_deactivate(
    show: ShowState,
    v: StateView,
    id: usize,
    e: crate::show::Effect,
    ov: Option<EffectOverrides>,
    now: u64,
)
    requires
        show.wf(),
        show.spec_state_wf(v),
        1 <= id <= show.mappings@.len(),
        !show.mappings@[id - 1].one_shot,
    ensures
        ({
            let meta = show.mappings@[id - 1];
            let v1 = show.spec_activate_effect_tr(v, id, e, ov, now).0;
            let (v2, offs) = show.spec_deactivate_effect_tr(v1, id);
            &&& offs == seq![
                PacketView {
                    recipients: meta.targets@,
                    payload: PacketPayload::Show(ShowPacket::spec_off_packet()),
                },
            ]
            &&& forall|k: int| 0 <= k < meta.receivers@.len() ==>
                v2.receivers[#[trigger] meta.receivers@[k] as int].trigger_mapping
                    == INACTIVE_MAPPING
            &&& forall|j: int|
                0 <= j < v.receivers.len() && !meta.receivers@.contains(j as usize) ==>
                    #[trigger] v2.receivers[j] == v.receivers[j]
        }),
{
    let meta = show.mappings@[id - 1];
    let v1 = show.spec_activate_effect_tr(v, id, e, ov, now).0;
    assert forall|k: int| 0 <= k < meta.receivers@.len() implies
        (#[trigger] meta.receivers@[k]) < v1.receivers.len()
            && v1.receivers[meta.receivers@[k] as int].trigger_mapping == id by {
        assert(meta.receivers@.contains(meta.receivers@[k]));
    }
    assert(crate::runtime::spec_all_owned(v1.receivers, meta.receivers@, id));
}

/// Overlapping ownership: after `m1` and then `m2` activate over
/// shared receivers, deactivating `m1` leaves every receiver of `m2`
/// owned by `m2`, clears exactly the receivers of `m1` that `m2` did
/// not capture, and — where some receivers were captured and some were
/// not — sends the off packet to exactly the uncaptured ones.
pub proof fn lemma_overlapping_ownership(
    show: ShowState,
    v: StateView,
    id1: usize,
    e1: crate::show::Effect,
    id2: usize,
    e2: crate::show::Effect,
    now1: u64,
    now2: u64,
)
    requires
        show.wf(),
        show.spec_state_wf(v),
        1 <= id1 <= show.mappings@.len(),
        1 <= id2 <= show.mappings@.len(),
        id1 != id2,
        !show.mappings@[id1 - 1].one_shot,
        !show.mappings@[id2 - 1].one_shot,
    ensures
        ({
            let m1 = show.mappings@[id1 - 1];
            let m2 = show.mappings@[id2 - 1];
            let v1 = show.spec_activate_effect_tr(v, id1, e1, None, now1).0;
            let v2 = show.spec_activate_effect_tr(v1, id2, e2, None, now2).0;
            let (v3, offs) = show.spec_deactivate_effect_tr(v2, id1);
            &&& forall|k: int| 0 <= k < m2.receivers@.len() ==>
                v3.receivers[#[trigger] m2.receivers@[k] as int].trigger_mapping == id2
            &&& forall|k: int|
                0 <= k < m1.receivers@.len() && !m2.receivers@.contains(m1.receivers@[k]) ==>
                    v3.receivers[#[trigger] m1.receivers@[k] as int].trigger_mapping
                        == INACTIVE_MAPPING
            &&& (exists|k: int|
                0 <= k < m1.receivers@.len() && m2.receivers@.contains(#[trigger] m1.receivers@[k]))
                && (exists|k: int|
                0 <= k < m1.receivers@.len() && !m2.receivers@.contains(
                    #[trigger] m1.receivers@[k],
                )) ==> offs == seq![
                PacketView {
                    recipients: crate::runtime::spec_dyn_recipients(
                        v2.receivers,
                        m1.receivers@,
                        id1,
                    ),
                    payload: PacketPayload::Show(ShowPacket::spec_off_packet()),
                },
            ]
        }),
{
    let m1 = show.mappings@[id1 - 1];
    let m2 = show.mappings@[id2 - 1];
    let v1 = show.spec_activate_effect_tr(v, id1, e1, None, now1).0;
    let v2 = show.spec_activate_effect_tr(v1, id2, e2, None, now2).0;
    assert forall|k: int| 0 <= k < m2.receivers@.len() implies
        v2.receivers[#[trigger] m2.receivers@[k] as int].trigger_mapping == id2 by {
        assert(m2.receivers@.contains(m2.receivers@[k]));
    }
    assert forall|k: int|
        0 <= k < m1.receivers@.len() && !m2.receivers@.contains(m1.receivers@[k]) implies
        v2.receivers[#[trigger] m1.receivers@[k] as int].trigger_mapping == id1 by {
        assert(m1.receivers@.contains(m1.receivers@[k]));
    }
    if exists|k: int|
        0 <= k < m1.receivers@.len() && m2.receivers@.contains(#[trigger] m1.receivers@[k]) {
        let k = choose|k: int|
            0 <= k < m1.receivers@.len() && m2.receivers@.contains(#[trigger] m1.receivers@[k]);
        assert(v2.receivers[m1.receivers@[k] as int].trigger_mapping == id2);
        assert(!crate::runtime::spec_all_owned(v2.receivers, m1.receivers@, id1));
        if exists|k2: int|
            0 <= k2 < m1.receivers@.len() && !m2.receivers@.contains(#[trigger] m1.receivers@[k2]) {
            let k2 = choose|k2: int|
                0 <= k2 < m1.receivers@.len() && !m2.receivers@.contains(
                    #[trigger] m1.receivers@[k2],
                );
            let pred = |j: usize| j < v2.receivers.len() && v2.receivers[j as int].trigger_mapping
                == id1;
            assert(pred(m1.receivers@[k2]));
            m1.receivers@.lemma_filter_contains(pred, k2);
            assert(crate::runtime::spec_dyn_recipients(v2.receivers, m1.receivers@, id1).len()
                > 0) by {
                let f = m1.receivers@.filter(pred);
                assert(f.contains(m1.receivers@[k2]));
            }
        }
    }
}

/// A one-shot mapping never takes ownership, and deactivating it does
/// nothing and emits nothing.
pub proof fn lemma_one_shot(
    show: ShowState,
    v: StateView,
    id: usize,
    e: crate::show::Effect,
    ov: Option<EffectOverrides>,
    now: u64,
)
    requires
        show.wf(),
        show.spec_state_wf(v),
        1 <= id <= show.mappings@.len(),
        show.mappings@[id - 1].one_shot,
    ensures
        ({
            let v1 = show.spec_activate_effect_tr(v, id, e, ov, now).0;
            forall|j: int| 0 <= j < v1.receivers.len() ==>
                (#[trigger] v1.receivers[j]).trigger_mapping != id
        }),
        forall|w: StateView| #[trigger] show.spec_deactivate_tr(w, id) == (w, Seq::<
            PacketView,
        >::empty()),
{
    let v1 = show.spec_activate_effect_tr(v, id, e, ov, now).0;
    assert forall|j: int| 0 <= j < v1.receivers.len() implies
        (#[trigger] v1.receivers[j]).trigger_mapping != id by {
        if !show.mappings@[id - 1].receivers@.contains(j as usize) {
            assert(v1.receivers[j] == v.receivers[j]);
        }
    }
}

/// Deactivating an effect mapping twice is the same as once: the
/// second call finds no receiver owned and does nothing. (A mapping
/// whose expansion is empty is excluded: its off packet covers nobody
/// and is re-sent on every deactivation.)
pub proof fn lemma_deactivate_idempotent(show: ShowState, v: StateView, id: usize)
    requires
        show.wf(),
        show.spec_state_wf(v),
        1 <= id <= show.mappings@.len(),
        show.mappings@[id - 1].light is Effect,
        !show.mappings@[id - 1].one_shot,
        show.mappings@[id - 1].receivers@.len() > 0,
    ensures
        ({
            let (v1, _p1) = show.spec_deactivate_effect_tr(v, id);
            let (v2, p2) = show.spec_deactivate_effect_tr(v1, id);
            v2 == v1 && p2 == Seq::<PacketView>::empty()
        }),
{
    let meta = show.mappings@[id - 1];
    let (v1, _p1) = show.spec_deactivate_effect_tr(v, id);
    let j0 = meta.receivers@[0];
    assert(meta.receivers@.contains(j0));
    assert(v1.receivers[j0 as int].trigger_mapping != id) by {
        match crate::runtime::spec_off_recipients(v.receivers, meta.receivers@, id, meta.targets@) {
            None => {
                // nobody was owned, and nothing changed
                if v.receivers[j0 as int].trigger_mapping == id {
                    let pred = |j: usize| j < v.receivers.len() && v.receivers[j as int]
                        .trigger_mapping == id;
                    assert(pred(j0));
                    meta.receivers@.lemma_filter_contains(pred, 0);
                    assert(meta.receivers@.filter(pred).contains(j0));
                }
            },
            Some(_) => {},
        }
    }
    assert(!crate::runtime::spec_all_owned(v1.receivers, meta.receivers@, id));
    assert forall|k: int| 0 <= k < meta.receivers@.len() implies
        v1.receivers[#[trigger] meta.receivers@[k] as int].trigger_mapping != id by {
        let j = meta.receivers@[k];
        assert(meta.receivers@.contains(j));
        match crate::runtime::spec_off_recipients(v.receivers, meta.receivers@, id, meta.targets@) {
            None => {
                if v.receivers[j as int].trigger_mapping == id {
                    let pred = |j2: usize| j2 < v.receivers.len() && v.receivers[j2 as int]
                        .trigger_mapping == id;
                    assert(pred(j));
                    meta.receivers@.lemma_filter_contains(pred, k);
                    assert(meta.receivers@.filter(pred).contains(j));
                }
            },
            Some(_) => {},
        }
    }
    let d = crate::runtime::spec_dyn_recipients(v1.receivers, meta.receivers@, id);
    assert(d.len() == 0) by {
        let pred = |j: usize| j < v1.receivers.len() && v1.receivers[j as int].trigger_mapping
            == id;
        if meta.receivers@.filter(pred).len() > 0 {
            meta.receivers@.lemma_filter_pred(pred, 0);
            crate::util::lemma_filter_subset(
                meta.receivers@,
                pred,
                meta.receivers@.filter(pred)[0],
            );
            let x = meta.receivers@.filter(pred)[0];
            let k = choose|k: int| 0 <= k < meta.receivers@.len() && meta.receivers@[k] == x;
            assert(v1.receivers[meta.receivers@[k] as int].trigger_mapping != id);
        }
    }
    assert(show.spec_deactivate_effect_tr(v1, id).0 == v1);
    assert(show.spec_deactivate_effect_tr(v1, id).1 =~= Seq::<PacketView>::empty());
}

} // verus!
