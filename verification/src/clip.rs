//! Clip timelines and their play state.
//!
//! A clip is an ordered list of steps. After resolution a step refers to
//! mappings by their stable id and to other clips by index, so stepping
//! never needs to look names up. The stepping logic itself lives with
//! the show runtime, which owns the receiver state that steps touch.

use vstd::prelude::*;

use crate::show::Color;

verus! {

/// A clip step after resolution: mappings by id, clips by index.
/// `WaitBeats` counts millibeats, `SetTempo` is in milli-BPM.
/// `StopOther` holds `None` where the named clip does not exist; such a
/// step is silently ignored.
#[derive(Debug, Clone, Copy)]
pub enum ResolvedStep {
    MappingOn(usize),
    MappingOff(usize),
    WaitBeats(u32),
    WaitMillis(u32),
    Loop(usize),
    SetColor(Color),
    SetTempo(u32),
    Stop,
    StopOther(Option<usize>),
    End,
}

/// A named, resolved clip timeline.
#[derive(Debug, Clone)]
pub struct ClipDef {
    pub name: String,
    pub steps: Vec<ResolvedStep>,
}

/// The default clip tempo: 120 BPM, in milli-BPM.
pub const DEFAULT_TEMPO_MILLI_BPM: u32 = 120000;

/// Milliseconds a number of millibeats takes at a tempo in milli-BPM,
/// rounded to the nearest millisecond. A tempo of zero waits forever.
pub open spec fn spec_beats_to_millis(millibeats: u32, tempo_milli_bpm: u32) -> u64 {
    if tempo_milli_bpm == 0 {
        u64::MAX
    } else {
        (((millibeats * 60000) + (tempo_milli_bpm / 2)) / (tempo_milli_bpm as int)) as u64
    }
}

/// Convert a wait in millibeats to milliseconds at the given tempo.
pub fn beats_to_millis(millibeats: u32, tempo_milli_bpm: u32) -> (r: u64)
    ensures
        r == spec_beats_to_millis(millibeats, tempo_milli_bpm),
{
    if tempo_milli_bpm == 0 {
        u64::MAX
    } else {
        ((millibeats as u64) * 60000 + (tempo_milli_bpm as u64) / 2) / (tempo_milli_bpm as u64)
    }
}

/// The play state of one clip: whether it runs, where it stands, when
/// its next step is due, its tempo and color override, and the ids of
/// the mappings it activated and still owns.
#[derive(Debug, Clone)]
pub struct ClipState {
    pub playing: bool,
    pub step: usize,
    pub advance_at: u64,
    pub tempo: u32,
    pub override_color: Option<Color>,
    pub active_mappings: Vec<usize>,
}

/// The mathematical image of a [`ClipState`].
#[verifier::ext_equal]
pub struct ClipView {
    pub playing: bool,
    pub step: usize,
    pub advance_at: u64,
    pub tempo: u32,
    pub override_color: Option<Color>,
    pub active: Seq<usize>,
}

impl View for ClipState {
    type V = ClipView;

    open spec fn view(&self) -> ClipView {
        ClipView {
            playing: self.playing,
            step: self.step,
            advance_at: self.advance_at,
            tempo: self.tempo,
            override_color: self.override_color,
            active: self.active_mappings@,
        }
    }
}

/// The state of a clip that has never been started.
pub open spec fn spec_initial_clip() -> ClipView {
    ClipView {
        playing: false,
        step: 0,
        advance_at: 0,
        tempo: DEFAULT_TEMPO_MILLI_BPM,
        override_color: None,
        active: Seq::empty(),
    }
}

/// The state of a clip right after it is started: at its first step,
/// due immediately, with the given color override and tempo, owning
/// nothing.
pub open spec fn spec_started_clip(override_color: Option<Color>, tempo: u32, now: u64) -> ClipView {
    ClipView {
        playing: true,
        step: 0,
        advance_at: now,
        tempo: tempo,
        override_color: override_color,
        active: Seq::empty(),
    }
}

/// A clip view with the same timeline position but stopped: not
/// playing, back at step zero, owning nothing.
pub open spec fn spec_stopped_clip(c: ClipView) -> ClipView {
    ClipView { playing: false, step: 0, active: Seq::empty(), ..c }
}

/// The sequence with every occurrence of `id` removed, order kept.
pub open spec fn spec_without_id(s: Seq<usize>, id: usize) -> Seq<usize>
    decreases s.len(),
{
    if s.len() == 0 {
        Seq::empty()
    } else {
        let p = spec_without_id(s.drop_last(), id);
        if s.last() == id {
            p
        } else {
            p.push(s.last())
        }
    }
}

/// Removing an id keeps the remaining elements and their uniqueness.
pub proof fn lemma_without_id_props(s: Seq<usize>, id: usize)
    ensures
        s.no_duplicates() ==> spec_without_id(s, id).no_duplicates(),
        forall|x: usize| #[trigger] spec_without_id(s, id).contains(x) ==> s.contains(x),
    decreases s.len(),
{
    if s.len() > 0 {
        lemma_without_id_props(s.drop_last(), id);
        let p = spec_without_id(s.drop_last(), id);
        assert forall|x: usize| spec_without_id(s, id).contains(x) implies s.contains(x) by {
            let w = spec_without_id(s, id);
            let i = choose|i: int| 0 <= i < w.len() && w[i] == x;
            if s.last() != id {
                if i == w.len() - 1 {
                    assert(w[i] == s.last());
                    assert(s[s.len() - 1] == x);
                } else {
                    assert(w[i] == p[i]);
                    assert(p.contains(x));
                }
            } else {
                assert(w == p);
                assert(p.contains(x));
            }
            if p.contains(x) {
                assert(s.drop_last().contains(x));
                let j = choose|j: int| 0 <= j < s.drop_last().len() && s.drop_last()[j] == x;
                assert(s[j] == x);
                assert(s.contains(x));
            }
        }
        if s.no_duplicates() {
            assert(s.drop_last().no_duplicates());
            if s.last() != id {
                let g = p.push(s.last());
                if p.contains(s.last()) {
                    let j = choose|j: int|
                        0 <= j < s.drop_last().len() && s.drop_last()[j] == s.last();
                    assert(s[j] == s[s.len() - 1]);
                }
                assert forall|i: int, j: int| 0 <= i < j < g.len() implies g[i] != g[j] by {
                    if j == g.len() - 1 {
                        if g[i] == s.last() {
                            assert(p[i] == s.last());
                            assert(p.contains(s.last()));
                        }
                    } else {
                        assert(g[i] == p[i] && g[j] == p[j]);
                    }
                }
            }
        }
    }
}

impl ClipState {
    /// A clip that has never been started.
    pub fn new() -> (r: ClipState)
        ensures
            r@ == spec_initial_clip(),
    {
        let r = ClipState {
            playing: false,
            step: 0,
            advance_at: 0,
            tempo: DEFAULT_TEMPO_MILLI_BPM,
            override_color: None,
            active_mappings: Vec::new(),
        };
        assert(r@ =~= spec_initial_clip());
        r
    }

    /// Begin playing from the first step, due immediately, with the
    /// given color override and tempo. The owned set starts empty.
    pub fn start(&mut self, override_color: Option<Color>, tempo: u32, now: u64)
        ensures
            final(self)@ == spec_started_clip(override_color, tempo, now),
    {
        self.playing = true;
        self.step = 0;
        self.advance_at = now;
        self.tempo = tempo;
        self.override_color = override_color;
        self.active_mappings = Vec::new();
        assert(self@ =~= spec_started_clip(override_color, tempo, now));
    }

    /// Whether the clip is playing.
    pub fn is_playing(&self) -> (r: bool)
        ensures
            r == self.playing,
    {
        self.playing
    }
}

/// The play state of every clip of the show, in show order.
#[derive(Debug)]
pub struct ClipEngine {
    pub clips: Vec<ClipState>,
}

impl View for ClipEngine {
    type V = Seq<ClipView>;

    open spec fn view(&self) -> Seq<ClipView> {
        Seq::new(self.clips@.len(), |c: int| self.clips@[c]@)
    }
}

/// Whether any clip of the sequence is playing.
pub open spec fn spec_any_playing(clips: Seq<ClipView>) -> bool {
    exists|c: int| 0 <= c < clips.len() && clips[c].playing
}

impl ClipEngine {
    /// An engine with `count` clips, none of them started.
    pub fn new(count: usize) -> (r: ClipEngine)
        ensures
            r@.len() == count,
            forall|c: int| 0 <= c < count ==> r@[c] == spec_initial_clip(),
    {
        let mut clips: Vec<ClipState> = Vec::new();
        let mut i: usize = 0;
        while i < count
            invariant
                i <= count,
                clips@.len() == i,
                forall|c: int| 0 <= c < i ==> #[trigger] clips@[c]@ == spec_initial_clip(),
            decreases count - i,
        {
            clips.push(ClipState::new());
            i = i + 1;
        }
        ClipEngine { clips }
    }

    /// Whether any clip is playing.
    pub fn is_playing(&self) -> (r: bool)
        ensures
            r == spec_any_playing(self@),
    {
        let mut c: usize = 0;
        while c < self.clips.len()
            invariant
                c <= self@.len(),
                forall|k: int| 0 <= k < c ==> !(#[trigger] self@[k]).playing,
            decreases self@.len() - c,
        {
            if self.clips[c].is_playing() {
                assert(self@[c as int].playing);
                return true;
            }
            c = c + 1;
        }
        false
    }

    /// Start the clip at `idx`, resetting it to its first step with the
    /// given color override and tempo.
    pub fn start_clip(&mut self, idx: usize, override_color: Option<Color>, tempo: u32, now: u64)
        requires
            idx < old(self)@.len(),
        ensures
            final(self)@ == old(self)@.update(idx as int, spec_started_clip(override_color, tempo, now)),
    {
        let mut cs = self.clips.remove(idx);
        cs.start(override_color, tempo, now);
        self.clips.insert(idx, cs);
        assert(self@ =~= old(self)@.update(idx as int, spec_started_clip(override_color, tempo, now)));
    }

    /// Move the clip at `idx` to the given step.
    pub fn set_step(&mut self, idx: usize, step: usize)
        requires
            idx < old(self)@.len(),
        ensures
            final(self)@ == old(self)@.update(idx as int, (ClipView { step: step, ..old(self)@[idx as int] })),
    {
        let mut cs = self.clips.remove(idx);
        cs.step = step;
        self.clips.insert(idx, cs);
        assert(self@ =~= old(self)@.update(idx as int, (ClipView { step: step, ..old(self)@[idx as int] })));
    }

    /// Move the clip at `idx` to the given step and make it due at the
    /// given time.
    pub fn set_step_and_due(&mut self, idx: usize, step: usize, advance_at: u64)
        requires
            idx < old(self)@.len(),
        ensures
            final(self)@ == old(self)@.update(
                idx as int,
                (ClipView { step: step, advance_at: advance_at, ..old(self)@[idx as int] }),
            ),
    {
        let mut cs = self.clips.remove(idx);
        cs.step = step;
        cs.advance_at = advance_at;
        self.clips.insert(idx, cs);
        assert(self@ =~= old(self)@.update(
            idx as int,
            (ClipView { step: step, advance_at: advance_at, ..old(self)@[idx as int] }),
        ));
    }

    /// Set the clip-wide color override of the clip at `idx`.
    pub fn set_override_color(&mut self, idx: usize, color: Option<Color>)
        requires
            idx < old(self)@.len(),
        ensures
            final(self)@ == old(self)@.update(
                idx as int,
                (ClipView { override_color: color, ..old(self)@[idx as int] }),
            ),
    {
        let mut cs = self.clips.remove(idx);
        cs.override_color = color;
        self.clips.insert(idx, cs);
        assert(self@ =~= old(self)@.update(
            idx as int,
            (ClipView { override_color: color, ..old(self)@[idx as int] }),
        ));
    }

    /// Set the tempo of the clip at `idx`, in milli-BPM.
    pub fn set_tempo(&mut self, idx: usize, tempo: u32)
        requires
            idx < old(self)@.len(),
        ensures
            final(self)@ == old(self)@.update(
                idx as int,
                (ClipView { tempo: tempo, ..old(self)@[idx as int] }),
            ),
    {
        let mut cs = self.clips.remove(idx);
        cs.tempo = tempo;
        self.clips.insert(idx, cs);
        assert(self@ =~= old(self)@.update(
            idx as int,
            (ClipView { tempo: tempo, ..old(self)@[idx as int] }),
        ));
    }

    /// End the clip at `idx` where its timeline says `End`: it stops
    /// playing but keeps its position and owned set.
    pub fn set_not_playing(&mut self, idx: usize)
        requires
            idx < old(self)@.len(),
        ensures
            final(self)@ == old(self)@.update(
                idx as int,
                (ClipView { playing: false, ..old(self)@[idx as int] }),
            ),
    {
        let mut cs = self.clips.remove(idx);
        cs.playing = false;
        self.clips.insert(idx, cs);
        assert(self@ =~= old(self)@.update(
            idx as int,
            (ClipView { playing: false, ..old(self)@[idx as int] }),
        ));
    }

    /// Record that the clip at `idx` owns the mapping, unless it is
    /// already recorded.
    pub fn add_active(&mut self, idx: usize, mapping_id: usize)
        requires
            idx < old(self)@.len(),
        ensures
            final(self)@ == old(self)@.update(
                idx as int,
                (ClipView {
                    active: if old(self)@[idx as int].active.contains(mapping_id) {
                        old(self)@[idx as int].active
                    } else {
                        old(self)@[idx as int].active.push(mapping_id)
                    },
                    ..old(self)@[idx as int]
                }),
            ),
    {
        let mut cs = self.clips.remove(idx);
        let found = crate::util::contains_id(&cs.active_mappings, mapping_id);
        if !found {
            cs.active_mappings.push(mapping_id);
        }
        self.clips.insert(idx, cs);
        assert(self@ =~= old(self)@.update(
            idx as int,
            (ClipView {
                active: if old(self)@[idx as int].active.contains(mapping_id) {
                    old(self)@[idx as int].active
                } else {
                    old(self)@[idx as int].active.push(mapping_id)
                },
                ..old(self)@[idx as int]
            }),
        ));
    }

    /// Forget that the clip at `idx` owns the mapping.
    pub fn remove_active(&mut self, idx: usize, mapping_id: usize)
        requires
            idx < old(self)@.len(),
        ensures
            final(self)@ == old(self)@.update(
                idx as int,
                (ClipView {
                    active: spec_without_id(old(self)@[idx as int].active, mapping_id),
                    ..old(self)@[idx as int]
                }),
            ),
    {
        let mut cs = self.clips.remove(idx);
        let mut kept: Vec<usize> = Vec::new();
        let mut k: usize = 0;
        while k < cs.active_mappings.len()
            invariant
                k <= cs.active_mappings@.len(),
                kept@ == spec_without_id(cs.active_mappings@.subrange(0, k as int), mapping_id),
            decreases cs.active_mappings@.len() - k,
        {
            let x = cs.active_mappings[k];
            proof {
                let pre = cs.active_mappings@.subrange(0, k as int);
                assert(cs.active_mappings@.subrange(0, k as int + 1).drop_last() =~= pre);
                assert(cs.active_mappings@.subrange(0, k as int + 1).last() == x);
            }
            if x != mapping_id {
                kept.push(x);
            }
            k = k + 1;
        }
        assert(cs.active_mappings@.subrange(0, cs.active_mappings@.len() as int) =~= cs.active_mappings@);
        let rebuilt = ClipState {
            playing: cs.playing,
            step: cs.step,
            advance_at: cs.advance_at,
            tempo: cs.tempo,
            override_color: cs.override_color,
            active_mappings: kept,
        };
        self.clips.insert(idx, rebuilt);
        assert(self@ =~= old(self)@.update(
            idx as int,
            (ClipView {
                active: spec_without_id(old(self)@[idx as int].active, mapping_id),
                ..old(self)@[idx as int]
            }),
        ));
    }

    /// Read the scalar play state of the clip at `idx`: playing, step,
    /// due time, tempo and color override.
    pub fn snapshot(&self, idx: usize) -> (r: (bool, usize, u64, u32, Option<Color>))
        requires
            idx < self@.len(),
        ensures
            r.0 == self@[idx as int].playing,
            r.1 == self@[idx as int].step,
            r.2 == self@[idx as int].advance_at,
            r.3 == self@[idx as int].tempo,
            r.4 == self@[idx as int].override_color,
    {
        let cs = &self.clips[idx];
        (cs.playing, cs.step, cs.advance_at, cs.tempo, cs.override_color)
    }

    /// Stop the clip at `idx` — not playing, back at step zero, owning
    /// nothing — and hand back the mappings it owned.
    pub fn take_active_and_stop(&mut self, idx: usize) -> (owned: Vec<usize>)
        requires
            idx < old(self)@.len(),
        ensures
            owned@ == old(self)@[idx as int].active,
            final(self)@ == old(self)@.update(idx as int, spec_stopped_clip(old(self)@[idx as int])),
    {
        let cs = self.clips.remove(idx);
        let rebuilt = ClipState {
            playing: false,
            step: 0,
            advance_at: cs.advance_at,
            tempo: cs.tempo,
            override_color: cs.override_color,
            active_mappings: Vec::new(),
        };
        self.clips.insert(idx, rebuilt);
        assert(self@ =~= old(self)@.update(idx as int, spec_stopped_clip(old(self)@[idx as int])));
        cs.active_mappings
    }
}

} // verus!
