use vstd::prelude::*;

verus! {

/// The asset system's lifecycle marker for a resource.
#[derive(Clone, Copy, Debug, PartialEq, Eq, Structural)]
pub enum LoadState {
    NotLoaded,
    Loading,
    Loaded,
    Failed,
    Unloaded,
}

/// The handles of the cube-map textures that are still waiting to load, in
/// the order they were registered. Handles are only ever removed, by
/// `setup_cubemaps`, in the frame in which they are seen loaded.
pub struct Cubemaps<H> {
    handles: Vec<H>,
}

impl<H> View for Cubemaps<H> {
    type V = Seq<H>;

    closed spec fn view(&self) -> Seq<H> {
        self.handles@
    }
}

impl<H> Cubemaps<H> {
    /// An empty pending set.
    pub fn new() -> (r: Self)
        ensures
            r@ == Seq::<H>::empty(),
    {
        Cubemaps { handles: Vec::new() }
    }

    /// Registers a texture handle to be turned into a cube map once it loads.
    pub fn register(&mut self, handle: H)
        ensures
            final(self)@ == old(self)@.push(handle),
    {
        self.handles.push(handle);
    }

    /// The number of handles still pending.
    pub fn len(&self) -> (r: usize)
        ensures
            r == self@.len(),
    {
        self.handles.len()
    }

    /// Whether no handle is pending any more.
    pub fn is_empty(&self) -> (r: bool)
        ensures
            r == (self@.len() == 0),
    {
        self.handles.len() == 0
    }

    /// The pending handles, in order: the poller's caller looks up the load
    /// state of each, in this order, before a frame's poll.
    pub fn pending(&self) -> (r: &[H])
        ensures
            r@ == self@,
    {
        self.handles.as_slice()
    }
}

/// The handles of `hs` that stay pending when `ss[i]` is the state observed
/// for `hs[i]`: all but those seen loaded, in their order.
pub open spec fn still_pending<H>(hs: Seq<H>, ss: Seq<LoadState>) -> Seq<H>
    decreases hs.len(),
{
    if hs.len() == 0 {
        Seq::empty()
    } else {
        let i = hs.len() - 1;
        let rest = still_pending(hs.take(i), ss);
        if ss[i] == LoadState::Loaded {
            rest
        } else {
            rest.push(hs[i])
        }
    }
}

/// The handles of `hs` seen loaded when `ss[i]` is the state observed for
/// `hs[i]`, in their order: those that are patched and dropped this frame.
pub open spec fn now_ready<H>(hs: Seq<H>, ss: Seq<LoadState>) -> Seq<H>
    decreases hs.len(),
{
    if hs.len() == 0 {
        Seq::empty()
    } else {
        let i = hs.len() - 1;
        let rest = now_ready(hs.take(i), ss);
        if ss[i] == LoadState::Loaded {
            rest.push(hs[i])
        } else {
            rest
        }
    }
}

proof fn lemma_split_len<H>(hs: Seq<H>, ss: Seq<LoadState>)
    ensures
        still_pending(hs, ss).len() + now_ready(hs, ss).len() == hs.len(),
    decreases hs.len(),
{
    if hs.len() > 0 {
        lemma_split_len(hs.take(hs.len() - 1), ss);
    }
}

/// One frame of the poller. `states[i]` is the load state observed for the
/// `i`-th pending handle. Each handle seen loaded leaves the pending set and
/// is handed back, in order, for its texture to be patched; every other
/// handle, still loading or failed alike, is kept for the next frame.
pub fn setup_cubemaps<H>(cubemaps: &mut Cubemaps<H>, states: &[LoadState]) -> (ready: Vec<H>)
    requires
        states@.len() == old(cubemaps)@.len(),
    ensures
        final(cubemaps)@ == still_pending(old(cubemaps)@, states@),
        ready@ == now_ready(old(cubemaps)@, states@),
{
    let ghost hs = cubemaps@;
    let mut ready: Vec<H> = Vec::new();
    let mut i: usize = 0;
    let mut j: usize = 0;
    while j < states.len()
        invariant
            states@.len() == hs.len(),
            j <= hs.len(),
            i <= j,
            i == still_pending(hs.take(j as int), states@).len(),
            cubemaps@ == still_pending(hs.take(j as int), states@) + hs.skip(j as int),
            ready@ == now_ready(hs.take(j as int), states@),
        decreases hs.len() - j,
    {
        let ghost before = still_pending(hs.take(j as int), states@);
        proof {
            lemma_split_len(hs.take(j as int), states@);
        }
        assert(hs.take(j + 1).take(j as int) =~= hs.take(j as int));
        assert(hs.take(j + 1)[j as int] == hs[j as int]);
        if states[j] == LoadState::Loaded {
            let h = cubemaps.handles.remove(i);
            ready.push(h);
            assert(cubemaps@ =~= before + hs.skip(j + 1));
        } else {
            i = i + 1;
            assert(cubemaps@ =~= before.push(hs[j as int]) + hs.skip(j + 1));
        }
        j = j + 1;
    }
    assert(hs.take(hs.len() as int) =~= hs);
    assert(hs.skip(hs.len() as int) =~= Seq::<H>::empty());
    assert(cubemaps@ =~= still_pending(hs, states@));
    ready
}

/// The states observed for the handles `hs` in a frame in which the asset
/// system reports `obs(h)` for each handle `h`.
pub open spec fn observed<H>(hs: Seq<H>, obs: spec_fn(H) -> LoadState) -> Seq<LoadState> {
    hs.map_values(obs)
}

/// The pending handles after a run of frames, starting from `hs`, where the
/// asset system reports `frames[f](h)` for handle `h` in frame `f`.
pub open spec fn pending_after<H>(hs: Seq<H>, frames: Seq<spec_fn(H) -> LoadState>) -> Seq<H>
    decreases frames.len(),
{
    if frames.len() == 0 {
        hs
    } else {
        let p = pending_after(hs, frames.drop_last());
        still_pending(p, observed(p, frames.last()))
    }
}

/// The handles that are patched and dropped in frame `f` of such a run.
pub open spec fn ready_in_frame<H>(
    hs: Seq<H>,
    frames: Seq<spec_fn(H) -> LoadState>,
    f: int,
) -> Seq<H> {
    let p = pending_after(hs, frames.take(f));
    now_ready(p, observed(p, frames[f]))
}

proof fn lemma_poll_contains<H>(hs: Seq<H>, ss: Seq<LoadState>, obs: spec_fn(H) -> LoadState, x: H)
    requires
        ss.len() >= hs.len(),
        forall|k: int| 0 <= k < hs.len() ==> ss[k] == obs(#[trigger] hs[k]),
    ensures
        still_pending(hs, ss).contains(x) <==> (hs.contains(x) && obs(x) != LoadState::Loaded),
        now_ready(hs, ss).contains(x) <==> (hs.contains(x) && obs(x) == LoadState::Loaded),
    decreases hs.len(),
{
    if hs.len() > 0 {
        let i = hs.len() - 1;
        let t = hs.take(i);
        assert forall|k: int| 0 <= k < t.len() implies ss[k] == obs(#[trigger] t[k]) by {
            assert(t[k] == hs[k]);
        }
        lemma_poll_contains(t, ss, obs, x);
        assert(hs =~= t.push(hs[i]));
        if hs.contains(x) && !t.contains(x) {
            let k = choose|k: int| 0 <= k < hs.len() && hs[k] == x;
            if k < i {
                assert(t[k] == x);
            }
        }
        if t.contains(x) {
            let k = choose|k: int| 0 <= k < t.len() && t[k] == x;
            assert(hs[k] == x);
        }
        assert(still_pending(hs, ss).contains(x) <==> (hs.contains(x) && obs(x)
            != LoadState::Loaded)) by {
            if ss[i] != LoadState::Loaded {
                assert(still_pending(hs, ss) == still_pending(t, ss).push(hs[i]));
                if still_pending(hs, ss).contains(x) && !still_pending(t, ss).contains(x) {
                    let k = choose|k: int|
                        0 <= k < still_pending(hs, ss).len() && still_pending(hs, ss)[k] == x;
                    assert(k == still_pending(t, ss).len());
                }
                if still_pending(t, ss).contains(x) {
                    let k = choose|k: int|
                        0 <= k < still_pending(t, ss).len() && still_pending(t, ss)[k] == x;
                    assert(still_pending(hs, ss)[k] == x);
                }
                if hs.contains(x) && obs(x) != LoadState::Loaded && x == hs[i] {
                    assert(still_pending(hs, ss)[still_pending(t, ss).len() as int] == x);
                }
            }
        }
        assert(now_ready(hs, ss).contains(x) <==> (hs.contains(x) && obs(x)
            == LoadState::Loaded)) by {
            if ss[i] == LoadState::Loaded {
                assert(now_ready(hs, ss) == now_ready(t, ss).push(hs[i]));
                if now_ready(hs, ss).contains(x) && !now_ready(t, ss).contains(x) {
                    let k = choose|k: int|
                        0 <= k < now_ready(hs, ss).len() && now_ready(hs, ss)[k] == x;
                    assert(k == now_ready(t, ss).len());
                }
                if now_ready(t, ss).contains(x) {
                    let k = choose|k: int|
                        0 <= k < now_ready(t, ss).len() && now_ready(t, ss)[k] == x;
                    assert(now_ready(hs, ss)[k] == x);
                }
                if hs.contains(x) && obs(x) == LoadState::Loaded && x == hs[i] {
                    assert(now_ready(hs, ss)[now_ready(t, ss).len() as int] == x);
                }
            }
        }
    }
}

proof fn lemma_observed_poll_contains<H>(hs: Seq<H>, obs: spec_fn(H) -> LoadState, x: H)
    ensures
        still_pending(hs, observed(hs, obs)).contains(x) <==> (hs.contains(x) && obs(x)
            != LoadState::Loaded),
        now_ready(hs, observed(hs, obs)).contains(x) <==> (hs.contains(x) && obs(x)
            == LoadState::Loaded),
{
    lemma_poll_contains(hs, observed(hs, obs), obs, x);
}

/// A handle is still pending after a run of frames exactly when it was
/// pending at the start and no frame of the run reported it loaded.
pub proof fn lemma_pending_after_contains<H>(
    hs: Seq<H>,
    frames: Seq<spec_fn(H) -> LoadState>,
    x: H,
)
    ensures
        pending_after(hs, frames).contains(x) <==> (hs.contains(x) && forall|f: int|
            0 <= f < frames.len() ==> #[trigger] frames[f](x) != LoadState::Loaded),
    decreases frames.len(),
{
    if frames.len() > 0 {
        let d = frames.drop_last();
        lemma_pending_after_contains(hs, d, x);
        lemma_observed_poll_contains(pending_after(hs, d), frames.last(), x);
        assert forall|f: int| 0 <= f < d.len() implies d[f] == frames[f] by {}
        if !pending_after(hs, frames).contains(x) && hs.contains(x) && forall|f: int|
            0 <= f < frames.len() ==> #[trigger] frames[f](x) != LoadState::Loaded {
            assert forall|f: int| 0 <= f < d.len() implies #[trigger] d[f](x)
                != LoadState::Loaded by {
                assert(frames[f](x) != LoadState::Loaded);
            }
            assert(frames[frames.len() - 1](x) != LoadState::Loaded);
        }
        if pending_after(hs, frames).contains(x) {
            assert forall|f: int| 0 <= f < frames.len() implies #[trigger] frames[f](x)
                != LoadState::Loaded by {
                if f < d.len() {
                    assert(d[f](x) != LoadState::Loaded);
                }
            }
        }
    }
}

/// The pending set never grows: over a run of frames its size after frame
/// `f2` is at most its size after an earlier frame `f1`.
pub proof fn lemma_pending_never_grows<H>(
    hs: Seq<H>,
    frames: Seq<spec_fn(H) -> LoadState>,
    f1: int,
    f2: int,
)
    requires
        0 <= f1 <= f2 <= frames.len(),
    ensures
        pending_after(hs, frames.take(f2)).len() <= pending_after(hs, frames.take(f1)).len(),
    decreases f2 - f1,
{
    if f1 < f2 {
        lemma_pending_never_grows(hs, frames, f1, f2 - 1);
        assert(frames.take(f2).drop_last() =~= frames.take(f2 - 1));
        let p = pending_after(hs, frames.take(f2 - 1));
        lemma_split_len(p, observed(p, frames[f2 - 1]));
    }
}

/// The pending set drains: once every pending handle has been reported
/// loaded in at least one frame of a run, none is left.
pub proof fn lemma_pending_drains<H>(hs: Seq<H>, frames: Seq<spec_fn(H) -> LoadState>)
    requires
        forall|h: H|
            hs.contains(h) ==> exists|f: int|
                0 <= f < frames.len() && #[trigger] frames[f](h) == LoadState::Loaded,
    ensures
        pending_after(hs, frames).len() == 0,
{
    let p = pending_after(hs, frames);
    if p.len() > 0 {
        let x = p[0];
        assert(p.contains(x));
        lemma_pending_after_contains(hs, frames, x);
        let f = choose|f: int| 0 <= f < frames.len() && #[trigger] frames[f](x) == LoadState::Loaded;
        assert(frames[f](x) != LoadState::Loaded);
    }
}

/// A handle is patched at most once: once a frame has handed it back as
/// loaded, no later frame hands it back again.
pub proof fn lemma_ready_once<H>(
    hs: Seq<H>,
    frames: Seq<spec_fn(H) -> LoadState>,
    f1: int,
    f2: int,
    x: H,
)
    requires
        0 <= f1 < f2 < frames.len(),
        ready_in_frame(hs, frames, f1).contains(x),
    ensures
        !ready_in_frame(hs, frames, f2).contains(x),
{
    let p1 = pending_after(hs, frames.take(f1));
    let p2 = pending_after(hs, frames.take(f2));
    lemma_observed_poll_contains(p1, frames[f1], x);
    lemma_observed_poll_contains(p2, frames[f2], x);
    if p2.contains(x) {
        lemma_pending_after_contains(hs, frames.take(f2), x);
        assert(frames.take(f2)[f1] == frames[f1]);
        assert(frames.take(f2)[f1](x) != LoadState::Loaded);
    }
}

} // verus!
