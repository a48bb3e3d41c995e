//! Transitions in flight and the per-frame dispatch between them.
//!
//! Each output appears in at most one transition. Admitting a transition
//! takes its outputs out of older ones; an older transition lives on for its
//! other outputs until each of them completes.
use crate::kernel::{frame_len, GrowCircleTransition, DEFAULT_FRAMES, MAX_SIDE};
use crate::monitors::SizeGroup;
use memmap2::Mmap;
use vstd::prelude::*;

verus! {

#[verifier::external_type_specification]
#[verifier::external_body]
pub struct ExMmap(Mmap);

/// The bytes that a read-only memory map shows.
pub uninterp spec fn mapped_bytes(m: Mmap) -> Seq<u8>;

/// Relies on `<Mmap as Deref>::deref`: the mapping seen as a byte slice.
#[verifier::external_body]
fn mapped(m: &Mmap) -> (r: &[u8])
    ensures
        r@ == mapped_bytes(*m),
{
    &m[..]
}

/// One admitted animation over outputs of a single size.
pub struct Transition {
    pub monitors: Vec<String>,
    pub frames: Vec<u32>,
    pub from_buffer: Mmap,
    pub to_buffer: Mmap,
    pub transition: GrowCircleTransition,
}

/// What a transition is, as the contracts see it.
pub struct TransitionView {
    pub monitors: Seq<Seq<char>>,
    pub frames: Seq<u32>,
    pub kernel: GrowCircleTransition,
    pub from: Seq<u8>,
    pub to: Seq<u8>,
}

impl View for Transition {
    type V = TransitionView;

    open spec fn view(&self) -> TransitionView {
        TransitionView {
            monitors: self.monitors@.map_values(|s: String| s@),
            frames: self.frames@,
            kernel: self.transition,
            from: mapped_bytes(self.from_buffer),
            to: mapped_bytes(self.to_buffer),
        }
    }
}

/// What one call of `render_transition` did.
#[derive(Debug, PartialEq, Eq, Structural)]
pub enum RenderOutcome {
    /// No transition holds the output: nothing was drawn.
    NoTransition,
    /// The kernel drew the output's next frame into the buffer.
    Rendered,
    /// The output's transition had ended: the output left it and nothing was drawn.
    Retired,
    /// The buffer does not have the transition's frame size: nothing was drawn
    /// and the output keeps its place.
    Skipped,
}

/// Why a group was not admitted.
#[derive(Debug, PartialEq, Eq, Structural)]
pub enum AdmitError {
    /// The group's size is negative or too large for the kernel.
    InvalidSize,
    /// The "from" buffer has this many bytes instead of `width * height * 4`.
    FromLength(usize),
    /// The "to" buffer has this many bytes instead of `width * height * 4`.
    ToLength(usize),
}

pub open spec fn transition_wf(tv: TransitionView) -> bool {
    &&& tv.monitors.len() > 0
    &&& tv.monitors.len() == tv.frames.len()
    &&& tv.monitors.no_duplicates()
    &&& tv.kernel.wf()
    &&& tv.kernel.n_frames < u32::MAX
    &&& tv.from.len() == tv.kernel.buffer_len()
    &&& tv.to.len() == tv.kernel.buffer_len()
}

/// No output appears in two transitions.
pub open spec fn exclusive(v: Seq<TransitionView>) -> bool {
    forall|t1: int, t2: int, i: int, j: int|
        0 <= t1 < v.len() && 0 <= t2 < v.len() && t1 != t2 && 0 <= i < v[t1].monitors.len() && 0
            <= j < v[t2].monitors.len() ==> #[trigger] v[t1].monitors[i] != #[trigger] v[t2].monitors[j]
}

pub open spec fn manager_wf(v: Seq<TransitionView>) -> bool {
    &&& forall|t: int| 0 <= t < v.len() ==> transition_wf(#[trigger] v[t])
    &&& exclusive(v)
}

/// Whether output `m` is at place `(t, i)`: transition `t`, position `i`.
pub open spec fn at_slot(v: Seq<TransitionView>, m: Seq<char>, t: int, i: int) -> bool {
    0 <= t < v.len() && 0 <= i < v[t].monitors.len() && v[t].monitors[i] == m
}

/// Whether some transition holds output `m`.
pub open spec fn active(v: Seq<TransitionView>, m: Seq<char>) -> bool {
    exists|t: int, i: int| at_slot(v, m, t, i)
}

/// The place of output `m`, when it is active.
pub open spec fn slot_of(v: Seq<TransitionView>, m: Seq<char>) -> (int, int) {
    choose|s: (int, int)| at_slot(v, m, s.0, s.1)
}

/// The frame that output `m` shows next, when it is active.
pub open spec fn frame_of(v: Seq<TransitionView>, m: Seq<char>) -> u32 {
    v[slot_of(v, m).0].frames[slot_of(v, m).1]
}

/// Takes the output at `(t, i)` out of its transition, and the transition out
/// of the manager once no output is left in it.
pub open spec fn remove_slot(v: Seq<TransitionView>, t: int, i: int) -> Seq<TransitionView> {
    let tv = v[t];
    let rest = TransitionView {
        monitors: tv.monitors.remove(i),
        frames: tv.frames.remove(i),
        ..tv
    };
    if rest.monitors.len() == 0 {
        v.remove(t)
    } else {
        v.update(t, rest)
    }
}

/// Moves the output at `(t, i)` on by one frame.
pub open spec fn advance_slot(v: Seq<TransitionView>, t: int, i: int) -> Seq<TransitionView> {
    v.update(t, TransitionView { frames: v[t].frames.update(i, (v[t].frames[i] + 1) as u32), ..v[t] })
}

/// The manager without output `m`.
pub open spec fn without(v: Seq<TransitionView>, m: Seq<char>) -> Seq<TransitionView> {
    if active(v, m) {
        remove_slot(v, slot_of(v, m).0, slot_of(v, m).1)
    } else {
        v
    }
}

/// The manager without any of the outputs `names`.
pub open spec fn without_all(v: Seq<TransitionView>, names: Seq<Seq<char>>) -> Seq<TransitionView>
    decreases names.len(),
{
    if names.len() == 0 {
        v
    } else {
        without(without_all(v, names.drop_last()), names.last())
    }
}

pub struct TransitionManager {
    pub transitions: Vec<Transition>,
}

impl View for TransitionManager {
    type V = Seq<TransitionView>;

    open spec fn view(&self) -> Seq<TransitionView> {
        self.transitions@.map_values(|t: Transition| t@)
    }
}

/// Under the invariant, an output has exactly one place.
proof fn lemma_slot_unique(v: Seq<TransitionView>, m: Seq<char>, t: int, i: int)
    requires
        manager_wf(v),
        at_slot(v, m, t, i),
    ensures
        active(v, m),
        slot_of(v, m) == (t, i),
{
    let w = (t, i);
    assert(at_slot(v, m, w.0, w.1));
    let s = slot_of(v, m);
    assert(at_slot(v, m, s.0, s.1));
    if s.0 != t {
        assert(v[s.0].monitors[s.1] != v[t].monitors[i]);
    }
    assert(transition_wf(v[t]));
}

/// Removing a place keeps the invariant, and leaves no new output behind.
proof fn lemma_remove_slot(v: Seq<TransitionView>, t: int, i: int)
    requires
        manager_wf(v),
        0 <= t < v.len(),
        0 <= i < v[t].monitors.len(),
    ensures
        manager_wf(remove_slot(v, t, i)),
        !active(remove_slot(v, t, i), v[t].monitors[i]),
        forall|n: Seq<char>| #[trigger] active(remove_slot(v, t, i), n) ==> active(v, n),
{
    let tv = v[t];
    let m = tv.monitors[i];
    let r = remove_slot(v, t, i);
    assert(transition_wf(tv));
    tv.monitors.remove_ensures(i);
    tv.frames.remove_ensures(i);
    let rest = TransitionView { monitors: tv.monitors.remove(i), frames: tv.frames.remove(i), ..tv };
    if rest.monitors.len() == 0 {
        assert(r == v.remove(t));
        v.remove_ensures(t);
        assert forall|n: Seq<char>| #[trigger] active(r, n) implies active(v, n) by {
            let (t2, i2) = choose|t2: int, i2: int| at_slot(r, n, t2, i2);
            if t2 < t {
                assert(at_slot(v, n, t2, i2));
            } else {
                assert(at_slot(v, n, t2 + 1, i2));
            }
        }
        assert forall|t2: int| 0 <= t2 < r.len() implies transition_wf(#[trigger] r[t2]) by {
            if t2 < t {
                assert(transition_wf(v[t2]));
            } else {
                assert(transition_wf(v[t2 + 1]));
            }
        }
        assert forall|t1: int, t2: int, i1: int, j1: int|
            0 <= t1 < r.len() && 0 <= t2 < r.len() && t1 != t2 && 0 <= i1 < r[t1].monitors.len()
                && 0 <= j1 < r[t2].monitors.len() implies #[trigger] r[t1].monitors[i1]
            != #[trigger] r[t2].monitors[j1] by {
            let a = if t1 < t {
                t1
            } else {
                t1 + 1
            };
            let b = if t2 < t {
                t2
            } else {
                t2 + 1
            };
            assert(v[a].monitors[i1] != v[b].monitors[j1]);
        }
    } else {
        assert(r == v.update(t, rest));
        assert(transition_wf(rest)) by {
            assert forall|a: int, b: int|
                0 <= a < rest.monitors.len() && 0 <= b < rest.monitors.len() && a != b implies
                rest.monitors[a] != rest.monitors[b] by {
                let a2 = if a < i {
                    a
                } else {
                    a + 1
                };
                let b2 = if b < i {
                    b
                } else {
                    b + 1
                };
                assert(tv.monitors[a2] != tv.monitors[b2]);
            }
        }
        assert forall|n: Seq<char>| #[trigger] active(r, n) implies active(v, n) by {
            let (t2, i2) = choose|t2: int, i2: int| at_slot(r, n, t2, i2);
            if t2 != t {
                assert(at_slot(v, n, t2, i2));
            } else if i2 < i {
                assert(at_slot(v, n, t, i2));
            } else {
                assert(at_slot(v, n, t, i2 + 1));
            }
        }
        assert forall|t2: int| 0 <= t2 < r.len() implies transition_wf(#[trigger] r[t2]) by {
            if t2 != t {
                assert(transition_wf(v[t2]));
            }
        }
        assert forall|t1: int, t2: int, i1: int, j1: int|
            0 <= t1 < r.len() && 0 <= t2 < r.len() && t1 != t2 && 0 <= i1 < r[t1].monitors.len()
                && 0 <= j1 < r[t2].monitors.len() implies #[trigger] r[t1].monitors[i1]
            != #[trigger] r[t2].monitors[j1] by {
            let a = if t1 == t && i1 >= i {
                i1 + 1
            } else {
                i1
            };
            let b = if t2 == t && j1 >= i {
                j1 + 1
            } else {
                j1
            };
            assert(v[t1].monitors[a] == r[t1].monitors[i1]);
            assert(v[t2].monitors[b] == r[t2].monitors[j1]);
            assert(v[t1].monitors[a] != v[t2].monitors[b]);
        }
    }
    assert(!active(r, m)) by {
        if active(r, m) {
            let (t2, i2) = choose|t2: int, i2: int| at_slot(r, m, t2, i2);
            if rest.monitors.len() == 0 {
                let a = if t2 < t {
                    t2
                } else {
                    t2 + 1
                };
                assert(v[a].monitors[i2] == m);
                assert(v[a].monitors[i2] != v[t].monitors[i]);
            } else if t2 != t {
                assert(v[t2].monitors[i2] != v[t].monitors[i]);
            } else {
                let a = if i2 < i {
                    i2
                } else {
                    i2 + 1
                };
                assert(tv.monitors[a] == m);
            }
        }
    }
}

/// Taking one output out keeps the invariant, removes that output and no
/// other output appears.
proof fn lemma_without(v: Seq<TransitionView>, m: Seq<char>)
    requires
        manager_wf(v),
    ensures
        manager_wf(without(v, m)),
        !active(without(v, m), m),
        forall|n: Seq<char>| #[trigger] active(without(v, m), n) ==> active(v, n),
{
    if active(v, m) {
        let (t, i) = choose|t: int, i: int| at_slot(v, m, t, i);
        lemma_slot_unique(v, m, t, i);
        lemma_remove_slot(v, t, i);
    }
}

proof fn lemma_without_all(v: Seq<TransitionView>, names: Seq<Seq<char>>)
    requires
        manager_wf(v),
    ensures
        manager_wf(without_all(v, names)),
        forall|k: int| 0 <= k < names.len() ==> !active(without_all(v, names), #[trigger] names[k]),
        forall|n: Seq<char>| #[trigger] active(without_all(v, names), n) ==> active(v, n),
    decreases names.len(),
{
    if names.len() > 0 {
        let rest = names.drop_last();
        lemma_without_all(v, rest);
        let u = without_all(v, rest);
        lemma_without(u, names.last());
        assert forall|k: int| 0 <= k < names.len() implies !active(
            without_all(v, names),
            #[trigger] names[k],
        ) by {
            if k < names.len() - 1 {
                assert(rest[k] == names[k]);
            }
        }
    }
}

/// Exclusion: under the manager's invariant, an output appears in at most one
/// transition, and at one position in it.
pub proof fn lemma_exclusion(v: Seq<TransitionView>, m: Seq<char>, t1: int, i1: int, t2: int, i2: int)
    requires
        manager_wf(v),
        at_slot(v, m, t1, i1),
        at_slot(v, m, t2, i2),
    ensures
        t1 == t2,
        i1 == i2,
{
    if t1 != t2 {
        assert(v[t1].monitors[i1] != v[t2].monitors[i2]);
    }
    assert(transition_wf(v[t1]));
}

/// Monotonicity: a rendered frame moves the output's frame index up by
/// exactly one, within the same transition, and keeps the invariant.
pub proof fn lemma_frame_advances(v: Seq<TransitionView>, m: Seq<char>)
    requires
        manager_wf(v),
        active(v, m),
        !v[slot_of(v, m).0].kernel.is_terminal(frame_of(v, m) as int),
    ensures
        manager_wf(advance_slot(v, slot_of(v, m).0, slot_of(v, m).1)),
        active(advance_slot(v, slot_of(v, m).0, slot_of(v, m).1), m),
        slot_of(advance_slot(v, slot_of(v, m).0, slot_of(v, m).1), m) == slot_of(v, m),
        frame_of(advance_slot(v, slot_of(v, m).0, slot_of(v, m).1), m) == frame_of(v, m) + 1,
        frame_of(advance_slot(v, slot_of(v, m).0, slot_of(v, m).1), m) > frame_of(v, m),
{
    let (t, i) = choose|t: int, i: int| at_slot(v, m, t, i);
    lemma_slot_unique(v, m, t, i);
    lemma_advance_slot(v, t, i);
    let a = advance_slot(v, t, i);
    assert(at_slot(a, m, t, i));
    lemma_slot_unique(a, m, t, i);
}

/// The manager after one render call for output `m` with a buffer of the
/// right size: the output moves on a frame, or leaves once its transition
/// has ended.
pub open spec fn next_state(v: Seq<TransitionView>, m: Seq<char>) -> Seq<TransitionView> {
    if !active(v, m) {
        v
    } else if v[slot_of(v, m).0].kernel.is_terminal(frame_of(v, m) as int) {
        remove_slot(v, slot_of(v, m).0, slot_of(v, m).1)
    } else {
        advance_slot(v, slot_of(v, m).0, slot_of(v, m).1)
    }
}

/// The manager after `k` render calls for output `m`.
pub open spec fn states_after(v: Seq<TransitionView>, m: Seq<char>, k: nat) -> Seq<TransitionView>
    decreases k,
{
    if k == 0 {
        v
    } else {
        states_after(next_state(v, m), m, (k - 1) as nat)
    }
}

/// Terminality: an output at frame index `f` of a transition of `n` frames
/// is drawn at frames `f, f + 1, ..., n` (`n + 1 - f` calls) and leaves its
/// transition at the next call; after that no transition holds it.
pub proof fn lemma_output_retires(v: Seq<TransitionView>, m: Seq<char>)
    requires
        manager_wf(v),
        active(v, m),
        frame_of(v, m) <= v[slot_of(v, m).0].kernel.n_frames + 1,
    ensures
        ({
            let d = (v[slot_of(v, m).0].kernel.n_frames + 1 - frame_of(v, m)) as nat;
            &&& forall|j: nat|
                j <= d ==> {
                    let w = #[trigger] states_after(v, m, j);
                    &&& manager_wf(w)
                    &&& active(w, m)
                    &&& w[slot_of(w, m).0].kernel == v[slot_of(v, m).0].kernel
                    &&& frame_of(w, m) == frame_of(v, m) + j
                }
            &&& !active(states_after(v, m, d + 1), m)
        }),
    decreases v[slot_of(v, m).0].kernel.n_frames + 1 - frame_of(v, m),
{
    let (t, i) = choose|t: int, i: int| at_slot(v, m, t, i);
    lemma_slot_unique(v, m, t, i);
    let k = v[t].kernel;
    let d = (k.n_frames + 1 - frame_of(v, m)) as nat;
    assert(states_after(v, m, 0) == v);
    if d == 0 {
        lemma_remove_slot(v, t, i);
        assert(states_after(v, m, 1) == states_after(next_state(v, m), m, 0));
        assert forall|j: nat| j <= d implies {
            let w = #[trigger] states_after(v, m, j);
            &&& manager_wf(w)
            &&& active(w, m)
            &&& w[slot_of(w, m).0].kernel == k
            &&& frame_of(w, m) == frame_of(v, m) + j
        } by {
            assert(j == 0);
        }
    } else {
        lemma_frame_advances(v, m);
        let a = advance_slot(v, t, i);
        assert(next_state(v, m) == a);
        assert(a[t].kernel == k);
        lemma_output_retires(a, m);
        assert forall|j: nat| j <= d implies {
            let w = #[trigger] states_after(v, m, j);
            &&& manager_wf(w)
            &&& active(w, m)
            &&& w[slot_of(w, m).0].kernel == k
            &&& frame_of(w, m) == frame_of(v, m) + j
        } by {
            if j > 0 {
                assert(states_after(v, m, j) == states_after(a, m, (j - 1) as nat));
                let w = states_after(a, m, (j - 1) as nat);
                assert((j - 1) as nat <= d - 1);
            }
        }
        assert(states_after(v, m, d + 1) == states_after(a, m, d));
    }
}

/// Between two frames of output `m`, a frame drawn for another output, or
/// another output leaving its transition, keeps `m` active at the same frame
/// index; so `m`'s frame index rises by exactly one per frame drawn for it.
pub proof fn lemma_other_outputs_keep_frame(v: Seq<TransitionView>, m: Seq<char>, n: Seq<char>)
    requires
        manager_wf(v),
        active(v, m),
        active(v, n),
        m != n,
    ensures
        !v[slot_of(v, n).0].kernel.is_terminal(frame_of(v, n) as int) ==> {
            let a = advance_slot(v, slot_of(v, n).0, slot_of(v, n).1);
            active(a, m) && frame_of(a, m) == frame_of(v, m)
        },
        ({
            let r = remove_slot(v, slot_of(v, n).0, slot_of(v, n).1);
            active(r, m) && frame_of(r, m) == frame_of(v, m)
        }),
{
    let (t, i) = choose|t: int, i: int| at_slot(v, m, t, i);
    lemma_slot_unique(v, m, t, i);
    let (tn, jn) = choose|t: int, i: int| at_slot(v, n, t, i);
    lemma_slot_unique(v, n, tn, jn);
    assert(transition_wf(v[t]));
    assert(transition_wf(v[tn]));
    if !v[tn].kernel.is_terminal(v[tn].frames[jn] as int) {
        lemma_advance_slot(v, tn, jn);
        let a = advance_slot(v, tn, jn);
        assert(at_slot(a, m, t, i));
        lemma_slot_unique(a, m, t, i);
        if t == tn {
            assert(i != jn);
        }
    }
    lemma_remove_slot(v, tn, jn);
    let r = remove_slot(v, tn, jn);
    let tv = v[tn];
    tv.monitors.remove_ensures(jn);
    tv.frames.remove_ensures(jn);
    let rest = TransitionView { monitors: tv.monitors.remove(jn), frames: tv.frames.remove(jn), ..tv };
    if rest.monitors.len() == 0 {
        assert(t != tn);
        v.remove_ensures(tn);
        let t2 = if t < tn {
            t
        } else {
            t - 1
        };
        assert(r[t2] == v[t]);
        assert(at_slot(r, m, t2, i));
        lemma_slot_unique(r, m, t2, i);
    } else if t != tn {
        assert(r[t] == v[t]);
        assert(at_slot(r, m, t, i));
        lemma_slot_unique(r, m, t, i);
    } else {
        assert(i != jn);
        let i2 = if i < jn {
            i
        } else {
            i - 1
        };
        assert(r[t] == rest);
        assert(rest.monitors[i2] == m);
        assert(rest.frames[i2] == tv.frames[i]);
        assert(at_slot(r, m, t, i2));
        lemma_slot_unique(r, m, t, i2);
    }
}

proof fn lemma_advance_slot(v: Seq<TransitionView>, t: int, i: int)
    requires
        manager_wf(v),
        0 <= t < v.len(),
        0 <= i < v[t].monitors.len(),
        !v[t].kernel.is_terminal(v[t].frames[i] as int),
    ensures
        manager_wf(advance_slot(v, t, i)),
        forall|n: Seq<char>| #[trigger] active(advance_slot(v, t, i), n) == active(v, n),
{
    let a = advance_slot(v, t, i);
    assert(transition_wf(v[t]));
    assert forall|t2: int| 0 <= t2 < a.len() implies transition_wf(#[trigger] a[t2]) by {
        assert(transition_wf(v[t2]));
    }
    assert forall|n: Seq<char>| #[trigger] active(a, n) == active(v, n) by {
        if active(a, n) {
            let (t2, i2) = choose|t2: int, i2: int| at_slot(a, n, t2, i2);
            assert(at_slot(v, n, t2, i2));
        }
        if active(v, n) {
            let (t2, i2) = choose|t2: int, i2: int| at_slot(v, n, t2, i2);
            assert(at_slot(a, n, t2, i2));
        }
    }
}

impl TransitionManager {
    pub open spec fn wf(&self) -> bool {
        manager_wf(self@)
    }

    pub fn new() -> (r: Self)
        ensures
            r.wf(),
            r@ == Seq::<TransitionView>::empty(),
    {
        let r = TransitionManager { transitions: Vec::new() };
        assert(r@ =~= Seq::<TransitionView>::empty());
        r
    }

    pub fn has_transitions(&self) -> (r: bool)
        ensures
            r == (self@.len() > 0),
    {
        self.transitions.len() > 0
    }

    /// Finds where output `key` stands, scanning from the newest transition back.
    fn locate(&self, key: &String) -> (r: Option<(usize, usize)>)
        ensures
            match r {
                Some(s) => at_slot(self@, key@, s.0 as int, s.1 as int),
                None => !active(self@, key@),
            },
    {
        let mut t = self.transitions.len();
        while t > 0
            invariant
                t <= self.transitions.len(),
                forall|t2: int, i2: int| t <= t2 ==> !at_slot(self@, key@, t2, i2),
            decreases t,
        {
            t = t - 1;
            let names = &self.transitions[t].monitors;
            let mut i: usize = 0;
            while i < names.len()
                invariant
                    t < self.transitions.len(),
                    names == self.transitions@[t as int].monitors,
                    i <= names.len(),
                    forall|i2: int| 0 <= i2 < i ==> !at_slot(self@, key@, t as int, i2),
                decreases names.len() - i,
            {
                if names[i] == *key {
                    return Some((t, i));
                }
                i = i + 1;
            }
        }
        None
    }

    /// Takes the output at `(t, i)` out of its transition, and the transition
    /// out of the manager once it holds no output.
    fn remove_place(&mut self, t: usize, i: usize)
        requires
            old(self).wf(),
            t < old(self)@.len(),
            i < old(self)@[t as int].monitors.len(),
        ensures
            final(self)@ == remove_slot(old(self)@, t as int, i as int),
            final(self).wf(),
    {
        let ghost v = self@;
        let mut tr = self.transitions.remove(t);
        tr.monitors.remove(i);
        tr.frames.remove(i);
        let ghost rest = tr@;
        assert(rest.monitors =~= v[t as int].monitors.remove(i as int));
        assert(rest.frames =~= v[t as int].frames.remove(i as int));
        if tr.monitors.len() > 0 {
            self.transitions.insert(t, tr);
            assert(self@ =~= remove_slot(v, t as int, i as int));
        } else {
            assert(self@ =~= remove_slot(v, t as int, i as int));
        }
        proof {
            lemma_remove_slot(v, t as int, i as int);
        }
    }

    /// The transition a group starts as when admitted.
    pub open spec fn starting_view(group: SizeGroup, from: Mmap, to: Mmap) -> TransitionView {
        TransitionView {
            monitors: group.names(),
            frames: Seq::new(group.monitors@.len(), |k: int| 0u32),
            kernel: GrowCircleTransition {
                n_frames: DEFAULT_FRAMES,
                width: group.width as u32,
                height: group.height as u32,
            },
            from: mapped_bytes(from),
            to: mapped_bytes(to),
        }
    }

    /// Admits a transition from `from_buffer` to `to_buffer` for the outputs of
    /// `group`, which take their places anew.
    ///
    /// A buffer whose length is not `width * height * 4` is refused, and the
    /// manager stays as it was. A group with no output changes nothing.
    pub fn add_transition(&mut self, group: SizeGroup, from_buffer: Mmap, to_buffer: Mmap) -> (r: Result<
        (),
        AdmitError,
    >)
        requires
            old(self).wf(),
            group.names().no_duplicates(),
        ensures
            final(self).wf(),
            ({
                let expected = frame_len(group.width as int, group.height as int);
                let from_len = mapped_bytes(from_buffer).len();
                let to_len = mapped_bytes(to_buffer).len();
                if group.width < 0 || group.height < 0 {
                    &&& r == Err::<(), AdmitError>(AdmitError::InvalidSize)
                    &&& final(self)@ == old(self)@
                } else if from_len != expected {
                    &&& r == Err::<(), AdmitError>(AdmitError::FromLength(from_len as usize))
                    &&& final(self)@ == old(self)@
                } else if to_len != expected {
                    &&& r == Err::<(), AdmitError>(AdmitError::ToLength(to_len as usize))
                    &&& final(self)@ == old(self)@
                } else if group.monitors@.len() == 0 {
                    &&& r is Ok
                    &&& final(self)@ == old(self)@
                } else {
                    &&& r is Ok
                    &&& final(self)@ == without_all(old(self)@, group.names()).push(
                        Self::starting_view(group, from_buffer, to_buffer),
                    )
                }
            }),
    {
        if group.width < 0 || group.height < 0 {
            return Err(AdmitError::InvalidSize);
        }
        let width = group.width as u32;
        let height = group.height as u32;
        let from_len = mapped(&from_buffer).len();
        let to_len = mapped(&to_buffer).len();
        assert(width as int * height as int * 4 < 0x1_0000_0000_0000_0000) by (nonlinear_arith)
            requires
                width <= MAX_SIDE,
                height <= MAX_SIDE,
        ;
        let expected = width as u64 * height as u64 * 4;
        if from_len as u64 != expected {
            return Err(AdmitError::FromLength(from_len));
        }
        if to_len as u64 != expected {
            return Err(AdmitError::ToLength(to_len));
        }
        if group.monitors.len() == 0 {
            return Ok(());
        }
        let ghost v = self@;
        let ghost names = group.names();
        let mut k: usize = 0;
        while k < group.monitors.len()
            invariant
                manager_wf(v),
                self.wf(),
                names == group.names(),
                k <= group.monitors.len(),
                self@ == without_all(v, names.take(k as int)),
            decreases group.monitors.len() - k,
        {
            let ghost before = self@;
            match self.locate(&group.monitors[k]) {
                Some((t, i)) => {
                    proof {
                        lemma_slot_unique(before, names[k as int], t as int, i as int);
                    }
                    self.remove_place(t, i);
                },
                None => {},
            }
            proof {
                assert(names.take(k + 1).drop_last() =~= names.take(k as int));
                assert(names.take(k + 1).last() == names[k as int]);
            }
            k = k + 1;
        }
        proof {
            assert(names.take(k as int) =~= names);
            lemma_without_all(v, names);
        }
        let n = group.monitors.len();
        let frames: Vec<u32> = vec![0u32; n];
        let tr = Transition {
            monitors: group.monitors,
            frames,
            from_buffer,
            to_buffer,
            transition: GrowCircleTransition::new(width, height),
        };
        let ghost pruned = self@;
        self.transitions.push(tr);
        proof {
            let nv = Self::starting_view(group, from_buffer, to_buffer);
            assert(tr@.frames =~= nv.frames);
            assert(tr@ == nv);
            assert(self@ =~= pruned.push(nv));
            let w = self@;
            assert forall|t: int| 0 <= t < w.len() implies transition_wf(#[trigger] w[t]) by {
                if t < pruned.len() {
                    assert(w[t] == pruned[t]);
                }
            }
            assert forall|t1: int, t2: int, i: int, j: int|
                0 <= t1 < w.len() && 0 <= t2 < w.len() && t1 != t2 && 0 <= i < w[t1].monitors.len()
                    && 0 <= j < w[t2].monitors.len() implies #[trigger] w[t1].monitors[i]
                != #[trigger] w[t2].monitors[j] by {
                if t1 == pruned.len() {
                    assert(at_slot(pruned, w[t2].monitors[j], t2, j));
                    assert(!active(pruned, names[i]));
                } else if t2 == pruned.len() {
                    assert(at_slot(pruned, w[t1].monitors[i], t1, i));
                    assert(!active(pruned, names[j]));
                } else {
                    assert(w[t1] == pruned[t1] && w[t2] == pruned[t2]);
                }
            }
        }
        Ok(())
    }

    /// Takes output `monitor` out of the transition that holds it, if any; the
    /// transition goes once it holds no output.
    pub fn remove_monitor(&mut self, monitor: &str)
        requires
            old(self).wf(),
        ensures
            final(self).wf(),
            final(self)@ == without(old(self)@, monitor@),
            !active(final(self)@, monitor@),
    {
        let ghost v = self@;
        let key = monitor.to_owned();
        proof {
            lemma_without(v, key@);
        }
        match self.locate(&key) {
            Some((t, i)) => {
                proof {
                    lemma_slot_unique(v, key@, t as int, i as int);
                }
                self.remove_place(t, i);
            },
            None => {},
        }
    }

    /// Draws the next frame of output `monitor` into `buffer`.
    ///
    /// The output's frame index goes up by one on `Rendered`; on `Retired` the
    /// output leaves its transition, which goes once it holds no output.
    pub fn render_transition(&mut self, monitor: &str, buffer: &mut [u8]) -> (r: RenderOutcome)
        requires
            old(self).wf(),
        ensures
            final(self).wf(),
            !(r is Skipped) ==> final(self)@ == next_state(old(self)@, monitor@),
            ({
                let v = old(self)@;
                let m = monitor@;
                let t = slot_of(v, m).0;
                let i = slot_of(v, m).1;
                if !active(v, m) {
                    &&& r is NoTransition
                    &&& final(self)@ == v
                    &&& final(buffer)@ == old(buffer)@
                } else if v[t].kernel.is_terminal(v[t].frames[i] as int) {
                    &&& r is Retired
                    &&& final(self)@ == remove_slot(v, t, i)
                    &&& final(buffer)@ == old(buffer)@
                } else if old(buffer)@.len() != v[t].kernel.buffer_len() {
                    &&& r is Skipped
                    &&& final(self)@ == v
                    &&& final(buffer)@ == old(buffer)@
                } else {
                    &&& r is Rendered
                    &&& final(self)@ == advance_slot(v, t, i)
                    &&& final(buffer)@ == v[t].kernel.frame_bytes(
                        v[t].frames[i] as int,
                        v[t].from,
                        v[t].to,
                    )
                }
            }),
    {
        let ghost v = self@;
        let key = monitor.to_owned();
        match self.locate(&key) {
            None => RenderOutcome::NoTransition,
            Some((t, i)) => {
                proof {
                    lemma_slot_unique(v, key@, t as int, i as int);
                    assert(transition_wf(v[t as int]));
                }
                let f = self.transitions[t].frames[i];
                if f > self.transitions[t].transition.n_frames {
                    self.remove_place(t, i);
                    return RenderOutcome::Retired;
                }
                let tr = &self.transitions[t];
                let from = mapped(&tr.from_buffer);
                let to = mapped(&tr.to_buffer);
                if buffer.len() != from.len() {
                    return RenderOutcome::Skipped;
                }
                let _done = tr.transition.render(f, from, to, buffer);
                let mut tr = self.transitions.remove(t);
                tr.frames.set(i, f + 1);
                self.transitions.insert(t, tr);
                assert(self@ =~= advance_slot(v, t as int, i as int));
                proof {
                    lemma_advance_slot(v, t as int, i as int);
                }
                RenderOutcome::Rendered
            },
        }
    }
}

} // verus!
