//! The playlist sequencer: an ordered track list with a loop and shuffle
//! policy. When the controller reports a finished track, the sequencer
//! decides which track to load next; it also carries out the explicit
//! reorder and remove requests of the user.

use vstd::prelude::*;
use crate::track::{TrackId, id_views, lemma_id_views_push};

verus! {

/// How the sequencer behaves at the end of a track.
#[derive(Clone, Copy, PartialEq, Eq, Structural, Debug)]
pub enum LoopMode {
    /// Play the list once; at its end, playback simply ends.
    Off,
    /// Repeat the current track; the list order is never consulted.
    One,
    /// At the end of the list, wrap around to its first entry.
    All,
}

/// What the sequencer decided for the next track.
#[derive(Clone, Copy, PartialEq, Eq, Structural, Debug)]
pub enum AdvanceDecision {
    /// Nothing to load; playback ends.
    Stay,
    /// Load the current track again, from position zero.
    Replay,
    /// Load the playlist entry at this index.
    Load(usize),
}

/// The identifier of the current track as the sequencer sees it.
pub open spec fn cur_view(current: Option<&TrackId>) -> Option<Seq<u8>> {
    match current {
        Option::Some(t) => Option::Some(t@),
        Option::None => Option::None,
    }
}

/// The first index of `c` in `views`, or `views.len()` if absent.
pub open spec fn find_track(views: Seq<Seq<u8>>, c: Seq<u8>) -> int
    decreases views.len(),
{
    if views.len() == 0 {
        0
    } else if views[0] == c {
        0
    } else {
        1 + find_track(views.drop_first(), c)
    }
}

/// What `find_track` returns: the first matching index, or the length.
pub proof fn lemma_find_track(views: Seq<Seq<u8>>, c: Seq<u8>)
    ensures
        0 <= find_track(views, c) <= views.len(),
        find_track(views, c) < views.len() ==> views[find_track(views, c)] == c,
        forall|j: int| 0 <= j < find_track(views, c) ==> views[j] != c,
    decreases views.len(),
{
    if views.len() > 0 && views[0] != c {
        lemma_find_track(views.drop_first(), c);
        assert forall|j: int| 0 <= j < find_track(views, c) implies views[j] != c by {
            if j > 0 {
                assert(views.drop_first()[j - 1] == views[j]);
            }
        }
    }
}

/// Whether the entry at `i` may be chosen by a shuffle advance: any entry
/// other than the current track, or any entry at all when no current track
/// is known or the list has exactly one entry.
pub open spec fn eligible(views: Seq<Seq<u8>>, cur: Option<Seq<u8>>, i: int) -> bool {
    match cur {
        Option::Some(c) => views[i] != c || views.len() == 1,
        Option::None => true,
    }
}

/// The eligible indices among the first `n`, in ascending order.
pub open spec fn pool_upto(views: Seq<Seq<u8>>, cur: Option<Seq<u8>>, n: int) -> Seq<usize>
    decreases n,
{
    if n <= 0 {
        Seq::empty()
    } else if eligible(views, cur, n - 1) {
        pool_upto(views, cur, n - 1).push((n - 1) as usize)
    } else {
        pool_upto(views, cur, n - 1)
    }
}

/// The indices a shuffle advance chooses among.
pub open spec fn shuffle_pool(views: Seq<Seq<u8>>, cur: Option<Seq<u8>>) -> Seq<usize> {
    pool_upto(views, cur, views.len() as int)
}

/// Every index in the pool is in range and eligible, and the pool is empty
/// only when no index is eligible at all.
pub proof fn lemma_pool_upto(views: Seq<Seq<u8>>, cur: Option<Seq<u8>>, n: int)
    requires
        n <= views.len(),
        views.len() <= usize::MAX,
    ensures
        forall|k: int|
            0 <= k < pool_upto(views, cur, n).len() ==> {
                &&& 0 <= #[trigger] pool_upto(views, cur, n)[k] < n
                &&& eligible(views, cur, pool_upto(views, cur, n)[k] as int)
            },
        pool_upto(views, cur, n).len() == 0 ==> forall|i: int|
            0 <= i < n ==> !eligible(views, cur, i),
    decreases n,
{
    if n > 0 {
        lemma_pool_upto(views, cur, n - 1);
        let p0 = pool_upto(views, cur, n - 1);
        let p = pool_upto(views, cur, n);
        assert forall|k: int| 0 <= k < p.len() implies {
            &&& 0 <= p[k] < n
            &&& eligible(views, cur, p[k] as int)
        } by {
            if k < p0.len() {
                assert(p0[k] == p[k]);
            } else {
                assert(eligible(views, cur, n - 1));
                assert(p[k] == (n - 1) as usize);
            }
        }
    }
}

/// The next track, as a function of the playlist, the policy, the current
/// track, and the number drawn for a shuffle choice. This is the whole of
/// the advance rule:
/// - an empty playlist never advances;
/// - loop-one replays the current track without consulting the list;
/// - shuffle draws among the eligible entries, and stays put when none is
///   eligible (every entry equals the current track);
/// - otherwise the entry after the current track's first occurrence plays,
///   wrapping to the front under loop-all, and at the very end of the list
///   playback simply ends; a current track that is no longer in the list
///   stops the advance.
pub open spec fn advance_rule(
    views: Seq<Seq<u8>>,
    mode: LoopMode,
    shuffle: bool,
    cur: Option<Seq<u8>>,
    pick: int,
) -> AdvanceDecision
    recommends
        pick >= 0,
{
    if views.len() == 0 {
        AdvanceDecision::Stay
    } else if mode is One {
        if cur is Some {
            AdvanceDecision::Replay
        } else {
            AdvanceDecision::Stay
        }
    } else if shuffle {
        let pool = shuffle_pool(views, cur);
        if pool.len() == 0 {
            AdvanceDecision::Stay
        } else {
            AdvanceDecision::Load(pool[pick % pool.len() as int])
        }
    } else {
        match cur {
            Option::None => AdvanceDecision::Stay,
            Option::Some(c) => {
                let i = find_track(views, c);
                if i == views.len() {
                    AdvanceDecision::Stay
                } else if i + 1 < views.len() {
                    AdvanceDecision::Load((i + 1) as usize)
                } else if mode is All {
                    AdvanceDecision::Load(0)
                } else {
                    AdvanceDecision::Stay
                }
            },
        }
    }
}

/// Owns the ordered track list and the loop and shuffle policy.
pub struct PlaylistSequencer {
    tracks: Vec<TrackId>,
    loop_mode: LoopMode,
    shuffle: bool,
}

impl PlaylistSequencer {
    /// The playlist, as the sequence of its track identifiers.
    pub closed spec fn views(self) -> Seq<Seq<u8>> {
        id_views(self.tracks@)
    }

    pub closed spec fn spec_loop_mode(self) -> LoopMode {
        self.loop_mode
    }

    pub closed spec fn spec_shuffle(self) -> bool {
        self.shuffle
    }

    /// An empty playlist, loop off, shuffle off.
    pub fn new() -> (s: PlaylistSequencer)
        ensures
            s.views() == Seq::<Seq<u8>>::empty(),
            s.spec_loop_mode() is Off,
            !s.spec_shuffle(),
    {
        let s = PlaylistSequencer { tracks: Vec::new(), loop_mode: LoopMode::Off, shuffle: false };
        proof {
            assert(s.views() =~= Seq::<Seq<u8>>::empty());
        }
        s
    }

    /// A sequencer over a given track list, loop off, shuffle off.
    pub fn from_tracks(tracks: Vec<TrackId>) -> (s: PlaylistSequencer)
        ensures
            s.views() == id_views(tracks@),
            s.spec_loop_mode() is Off,
            !s.spec_shuffle(),
    {
        PlaylistSequencer { tracks, loop_mode: LoopMode::Off, shuffle: false }
    }

    pub fn set_loop_mode(&mut self, mode: LoopMode)
        ensures
            final(self).spec_loop_mode() == mode,
            final(self).views() == old(self).views(),
            final(self).spec_shuffle() == old(self).spec_shuffle(),
    {
        self.loop_mode = mode;
    }

    pub fn set_shuffle(&mut self, shuffle: bool)
        ensures
            final(self).spec_shuffle() == shuffle,
            final(self).views() == old(self).views(),
            final(self).spec_loop_mode() == old(self).spec_loop_mode(),
    {
        self.shuffle = shuffle;
    }

    pub fn loop_mode(&self) -> (r: LoopMode)
        ensures
            r == self.spec_loop_mode(),
    {
        self.loop_mode
    }

    pub fn shuffle(&self) -> (r: bool)
        ensures
            r == self.spec_shuffle(),
    {
        self.shuffle
    }

    pub fn len(&self) -> (r: usize)
        ensures
            r == self.views().len(),
    {
        self.tracks.len()
    }

    /// The entry at `index`.
    pub fn get(&self, index: usize) -> (r: &TrackId)
        requires
            index < self.views().len(),
        ensures
            r@ == self.views()[index as int],
    {
        &self.tracks[index]
    }

    /// The whole track list, for iteration by the caller.
    pub fn tracks(&self) -> (r: &Vec<TrackId>)
        ensures
            id_views(r@) == self.views(),
    {
        &self.tracks
    }

    /// Appends a track at the end of the playlist.
    pub fn add(&mut self, track: TrackId)
        ensures
            final(self).views() == old(self).views().push(track@),
            final(self).spec_loop_mode() == old(self).spec_loop_mode(),
            final(self).spec_shuffle() == old(self).spec_shuffle(),
    {
        let ghost old_tracks = self.tracks@;
        let ghost tv = track@;
        self.tracks.push(track);
        proof {
            assert(id_views(self.tracks@) =~= id_views(old_tracks).push(tv));
        }
    }

    /// Moves the entry at `from` so that it lands at index `to`: a pure
    /// list splice (remove, then reinsert) that keeps every other relative
    /// order.
    pub fn move_track(&mut self, from: usize, to: usize)
        requires
            from < old(self).views().len(),
            to < old(self).views().len(),
        ensures
            final(self).views() == old(self).views().remove(from as int).insert(
                to as int,
                old(self).views()[from as int],
            ),
            final(self).spec_loop_mode() == old(self).spec_loop_mode(),
            final(self).spec_shuffle() == old(self).spec_shuffle(),
    {
        let ghost s0 = self.tracks@;
        let item = self.tracks.remove(from);
        let ghost s1 = self.tracks@;
        self.tracks.insert(to, item);
        proof {
            lemma_id_views_remove(s0, from as int);
            lemma_id_views_insert(s1, to as int, item);
        }
    }

    /// Deletes the entry at `index` and returns it.
    pub fn remove(&mut self, index: usize) -> (t: TrackId)
        requires
            index < old(self).views().len(),
        ensures
            t@ == old(self).views()[index as int],
            final(self).views() == old(self).views().remove(index as int),
            final(self).spec_loop_mode() == old(self).spec_loop_mode(),
            final(self).spec_shuffle() == old(self).spec_shuffle(),
    {
        let ghost s0 = self.tracks@;
        let t = self.tracks.remove(index);
        proof {
            lemma_id_views_remove(s0, index as int);
        }
        t
    }

    /// The advance rule applied with an explicitly injected draw: `pick` is
    /// reduced modulo the number of eligible entries for a shuffle choice,
    /// and is ignored on every other path.
    pub fn advance_with(&self, current: Option<&TrackId>, pick: usize) -> (d: AdvanceDecision)
        ensures
            d == advance_rule(
                self.views(),
                self.spec_loop_mode(),
                self.spec_shuffle(),
                cur_view(current),
                pick as int,
            ),
    {
        let n = self.tracks.len();
        if n == 0 {
            return AdvanceDecision::Stay;
        }
        if matches!(self.loop_mode, LoopMode::One) {
            return if current.is_some() {
                AdvanceDecision::Replay
            } else {
                AdvanceDecision::Stay
            };
        }
        if self.shuffle {
            let pool = self.collect_pool(current);
            if pool.len() == 0 {
                return AdvanceDecision::Stay;
            }
            let chosen = pool[pick % pool.len()];
            return AdvanceDecision::Load(chosen);
        }
        match current {
            Option::None => AdvanceDecision::Stay,
            Option::Some(c) => {
                let ghost vs = self.views();
                proof {
                    lemma_find_track(vs, c@);
                }
                let mut i: usize = 0;
                while i < n
                    invariant
                        n == vs.len(),
                        1 <= n,
                        i <= n,
                        self.views() == vs,
                        cur_view(current) == Option::Some(c@),
                        !(self.spec_loop_mode() is One),
                        !self.spec_shuffle(),
                        forall|j: int| 0 <= j < i ==> vs[j] != c@,
                    decreases n - i,
                {
                    if self.tracks[i].same_as(c) {
                        proof {
                            assert(vs[i as int] == c@);
                            assert(find_track(vs, c@) == i as int) by {
                                lemma_find_track(vs, c@);
                            };
                        }
                        return if i + 1 < n {
                            AdvanceDecision::Load(i + 1)
                        } else if matches!(self.loop_mode, LoopMode::All) {
                            AdvanceDecision::Load(0)
                        } else {
                            AdvanceDecision::Stay
                        };
                    }
                    i = i + 1;
                }
                proof {
                    assert(find_track(vs, c@) == vs.len()) by {
                        lemma_find_track(vs, c@);
                    };
                }
                AdvanceDecision::Stay
            },
        }
    }

    /// Collects the indices a shuffle advance may choose among.
    fn collect_pool(&self, current: Option<&TrackId>) -> (pool: Vec<usize>)
        ensures
            pool@ == shuffle_pool(self.views(), cur_view(current)),
    {
        let n = self.tracks.len();
        let ghost vs = self.views();
        let ghost cv = cur_view(current);
        let mut pool: Vec<usize> = Vec::new();
        let mut i: usize = 0;
        while i < n
            invariant
                n == vs.len(),
                i <= n,
                self.views() == vs,
                cur_view(current) == cv,
                pool@ == pool_upto(vs, cv, i as int),
            decreases n - i,
        {
            let keep = match current {
                Option::Some(c) => !self.tracks[i].same_as(c) || n == 1,
                Option::None => true,
            };
            proof {
                assert(keep == eligible(vs, cv, i as int));
            }
            if keep {
                pool.push(i);
            }
            i = i + 1;
        }
        pool
    }
}

/// Whether some entry of `list` has the identifier of `t`.
pub fn contains_id(list: &Vec<TrackId>, t: &TrackId) -> (r: bool)
    ensures
        r == id_views(list@).contains(t@),
{
    let mut i: usize = 0;
    while i < list.len()
        invariant
            i <= list.len(),
            forall|j: int| 0 <= j < i ==> list@[j]@ != t@,
        decreases list.len() - i,
    {
        if list[i].same_as(t) {
            proof {
                assert(id_views(list@)[i as int] == t@);
            }
            return true;
        }
        i = i + 1;
    }
    proof {
        if id_views(list@).contains(t@) {
            let k = choose|k: int|
                0 <= k < id_views(list@).len() && id_views(list@)[k] == t@;
            assert(list@[k]@ == t@);
        }
    }
    false
}

/// Filtering one more element keeps it exactly when the predicate holds.
proof fn lemma_filter_push<A>(s: Seq<A>, p: spec_fn(A) -> bool, x: A)
    ensures
        s.push(x).filter(p) == (if p(x) {
            s.filter(p).push(x)
        } else {
            s.filter(p)
        }),
{
    reveal(Seq::filter);
    assert(s.push(x).drop_last() =~= s);
    assert(s.push(x).last() == x);
}

/// A filtered sequence that lost no length lost no element.
proof fn lemma_filter_full<A>(s: Seq<A>, p: spec_fn(A) -> bool)
    requires
        s.filter(p).len() == s.len(),
    ensures
        s.filter(p) == s,
    decreases s.len(),
{
    reveal(Seq::filter);
    if s.len() > 0 {
        let sub = s.drop_last();
        sub.lemma_filter_len(p);
        if p(s.last()) {
            lemma_filter_full(sub, p);
            assert(s.filter(p) =~= s);
        }
    }
}

/// An element is in the filtered sequence exactly when it is in the
/// original and satisfies the predicate.
proof fn lemma_filter_membership<A>(s: Seq<A>, p: spec_fn(A) -> bool, x: A)
    ensures
        s.filter(p).contains(x) <==> (s.contains(x) && p(x)),
    decreases s.len(),
{
    reveal(Seq::filter);
    if s.len() > 0 {
        let sub = s.drop_last();
        lemma_filter_membership(sub, p, x);
        let f = s.filter(p);
        let fsub = sub.filter(p);
        if s.contains(x) && p(x) {
            let idx = choose|i: int| 0 <= i < s.len() && s[i] == x;
            if idx < s.len() - 1 {
                assert(sub[idx] == x);
                assert(fsub.contains(x));
                let j = choose|j: int| 0 <= j < fsub.len() && fsub[j] == x;
                assert(f[j] == x);
            } else {
                assert(s.last() == x);
                assert(f[f.len() - 1] == x);
            }
            assert(f.contains(x));
        }
        if f.contains(x) {
            let j = choose|j: int| 0 <= j < f.len() && f[j] == x;
            if p(s.last()) {
                if j < fsub.len() {
                    assert(fsub[j] == x);
                    assert(fsub.contains(x));
                    let k = choose|k: int| 0 <= k < sub.len() && sub[k] == x;
                    assert(s[k] == x);
                } else {
                    assert(x == s.last());
                    assert(s[s.len() - 1] == x);
                }
            } else {
                assert(fsub[j] == x);
                assert(fsub.contains(x));
                let k = choose|k: int| 0 <= k < sub.len() && sub[k] == x;
                assert(s[k] == x);
            }
            assert(s.contains(x) && p(x));
        }
    }
}

impl PlaylistSequencer {
    /// Reconciles the playlist with the identifiers actually present on
    /// disk, which must be pairwise distinct (they come from one directory
    /// listing): entries whose resource is gone are dropped, resources not
    /// yet listed are appended in the listing's order, and every other
    /// relative order is kept. The result says whether the playlist
    /// changed at all — dropped entries included — so that every change
    /// can be persisted.
    pub fn reconcile(&mut self, on_disk: &Vec<TrackId>) -> (changed: bool)
        requires
            forall|i: int, j: int|
                0 <= i < j < on_disk@.len() ==> on_disk@[i]@ != on_disk@[j]@,
        ensures
            final(self).views() == old(self).views().filter(
                |t: Seq<u8>| id_views(on_disk@).contains(t),
            ) + id_views(on_disk@).filter(|t: Seq<u8>| !old(self).views().contains(t)),
            changed == (final(self).views() != old(self).views()),
            final(self).spec_loop_mode() == old(self).spec_loop_mode(),
            final(self).spec_shuffle() == old(self).spec_shuffle(),
    {
        let ghost pvs = self.views();
        let ghost dvs = id_views(on_disk@);
        let ghost keep = |t: Seq<u8>| dvs.contains(t);
        let ghost fresh = |t: Seq<u8>| !pvs.contains(t);

        let mut kept: Vec<TrackId> = Vec::new();
        let mut i: usize = 0;
        proof {
            assert(id_views(kept@) =~= Seq::<Seq<u8>>::empty());
            assert(pvs.take(0) =~= Seq::<Seq<u8>>::empty());
            reveal(Seq::filter);
        }
        while i < self.tracks.len()
            invariant
                i <= self.tracks.len(),
                self.views() == pvs,
                pvs.len() == self.tracks@.len(),
                dvs == id_views(on_disk@),
                id_views(kept@) == pvs.take(i as int).filter(keep),
                keep == (|t: Seq<u8>| dvs.contains(t)),
            decreases self.tracks.len() - i,
        {
            let ghost before = kept@;
            let t = &self.tracks[i];
            let within = contains_id(on_disk, t);
            if within {
                kept.push(t.duplicate());
            }
            proof {
                lemma_filter_push(pvs.take(i as int), keep, pvs[i as int]);
                assert(pvs.take(i + 1) =~= pvs.take(i as int).push(pvs[i as int]));
                assert(pvs[i as int] == t@);
                if within {
                    lemma_id_views_push(before, kept@[kept@.len() - 1]);
                    assert(id_views(kept@) =~= id_views(before).push(t@));
                }
                assert(id_views(kept@) == pvs.take(i + 1).filter(keep));
            }
            i = i + 1;
        }
        proof {
            assert(pvs.take(pvs.len() as int) =~= pvs);
        }
        let dropped = kept.len() != self.tracks.len();
        self.tracks = kept;

        let mut appended = false;
        let mut k: usize = 0;
        proof {
            assert(dvs.take(0) =~= Seq::<Seq<u8>>::empty());
            reveal(Seq::filter);
        }
        while k < on_disk.len()
            invariant
                k <= on_disk.len(),
                dvs == id_views(on_disk@),
                dvs.len() == on_disk@.len(),
                keep == (|t: Seq<u8>| dvs.contains(t)),
                fresh == (|t: Seq<u8>| !pvs.contains(t)),
                forall|a: int, b: int| 0 <= a < b < on_disk@.len() ==> on_disk@[a]@ != on_disk@[b]@,
                id_views(self.tracks@) == pvs.filter(keep) + dvs.take(k as int).filter(fresh),
                appended == (dvs.take(k as int).filter(fresh).len() > 0),
                dropped == (pvs.filter(keep).len() != pvs.len()),
                self.spec_loop_mode() == old(self).spec_loop_mode(),
                self.spec_shuffle() == old(self).spec_shuffle(),
            decreases on_disk.len() - k,
        {
            let ghost cur = id_views(self.tracks@);
            let t = &on_disk[k];
            proof {
                assert(dvs[k as int] == t@);
                lemma_filter_push(dvs.take(k as int), fresh, t@);
                assert(dvs.take(k + 1) =~= dvs.take(k as int).push(t@));
            }
            let present = contains_id(&self.tracks, t);
            proof {
                lemma_filter_membership(pvs, keep, t@);
                lemma_filter_membership(dvs.take(k as int), fresh, t@);
                if present {
                    // The identifier is in the kept part or among those
                    // already appended; the latter is impossible because
                    // the listing is distinct, so it was in the playlist.
                    let j = choose|j: int| 0 <= j < cur.len() && cur[j] == t@;
                    if j < pvs.filter(keep).len() {
                        assert(pvs.filter(keep).contains(t@));
                        assert(!fresh(t@));
                    } else {
                        let appended = dvs.take(k as int).filter(fresh);
                        assert(appended[j - pvs.filter(keep).len()] == t@);
                        assert(appended.contains(t@));
                        assert(dvs.take(k as int).contains(t@));
                        let a = choose|a: int|
                            0 <= a < k && dvs.take(k as int)[a] == t@;
                        assert(on_disk@[a]@ == on_disk@[k as int]@);
                        assert(false);
                    }
                } else {
                    // Not in the current list, so in particular not among
                    // the kept entries; were it in the playlist it would
                    // have been kept, since it is on disk.
                    if pvs.contains(t@) {
                        assert(keep(t@));
                        assert(pvs.filter(keep).contains(t@));
                        let j = choose|j: int|
                            0 <= j < pvs.filter(keep).len() && pvs.filter(keep)[j] == t@;
                        assert(cur[j] == t@);
                        assert(cur.contains(t@));
                        assert(false);
                    }
                    assert(fresh(t@));
                }
            }
            if !present {
                let ghost before = self.tracks@;
                self.tracks.push(t.duplicate());
                appended = true;
                proof {
                    lemma_id_views_push(before, self.tracks@[self.tracks@.len() - 1]);
                    assert(id_views(self.tracks@) =~= cur.push(t@));
                    assert(id_views(self.tracks@) =~= pvs.filter(keep) + dvs.take(k + 1).filter(
                        fresh,
                    ));
                }
            } else {
                proof {
                    assert(dvs.take(k + 1).filter(fresh) == dvs.take(k as int).filter(fresh));
                }
            }
            k = k + 1;
        }
        let changed = dropped || appended;
        proof {
            assert(dvs.take(on_disk@.len() as int) =~= dvs);
            let keptv = pvs.filter(keep);
            let freshv = dvs.filter(fresh);
            pvs.lemma_filter_len(keep);
            if !dropped && !appended {
                lemma_filter_full(pvs, keep);
                assert(keptv + freshv =~= pvs);
            }
            if appended {
                let x = freshv[0];
                assert(freshv.contains(x));
                lemma_filter_membership(dvs, fresh, x);
                assert((keptv + freshv)[keptv.len() as int] == x);
                if keptv + freshv == pvs {
                    assert(pvs.contains(x));
                }
            }
            if dropped && !appended {
                assert((keptv + freshv).len() < pvs.len());
            }
        }
        changed
    }
}

/// Relies on rand::random_range over `0..n`: a draw from the thread-local
/// generator, uniform over the range, which must not be empty.
#[verifier::external_body]
fn random_below(n: usize) -> (r: usize)
    requires
        n > 0,
    ensures
        r < n,
{
    rand::random_range(0..n)
}

impl PlaylistSequencer {
    /// The advance rule applied with a fresh uniform draw, so that a
    /// shuffle choice falls uniformly on the eligible entries. The decision
    /// is the advance rule's for some draw; everything the rule decides
    /// independently of the draw holds of it.
    pub fn advance_random(&self, current: Option<&TrackId>) -> (d: AdvanceDecision)
        ensures
            exists|pick: int|
                0 <= pick && d == advance_rule(
                    self.views(),
                    self.spec_loop_mode(),
                    self.spec_shuffle(),
                    cur_view(current),
                    pick,
                ),
    {
        let pick: usize = if self.shuffle && !matches!(self.loop_mode, LoopMode::One) {
            let pool = self.collect_pool(current);
            if pool.len() > 0 {
                random_below(pool.len())
            } else {
                0
            }
        } else {
            0
        };
        let d = self.advance_with(current, pick);
        proof {
            assert(0 <= pick as int && d == advance_rule(
                self.views(),
                self.spec_loop_mode(),
                self.spec_shuffle(),
                cur_view(current),
                pick as int,
            ));
        }
        d
    }
}

/// At the last index of the playlist with loop off, a sequential advance
/// performs no state change: the decision is to stay put, and playback
/// simply ends.
pub proof fn lemma_sequential_end_stops(views: Seq<Seq<u8>>, c: Seq<u8>, pick: int)
    requires
        views.len() > 0,
        find_track(views, c) == views.len() - 1,
    ensures
        advance_rule(views, LoopMode::Off, false, Option::Some(c), pick) is Stay,
{
}

/// At the last index of the playlist with loop-all, a sequential advance
/// wraps around: the decision is to load playlist index zero.
pub proof fn lemma_sequential_end_wraps(views: Seq<Seq<u8>>, c: Seq<u8>, pick: int)
    requires
        views.len() > 1,
        find_track(views, c) == views.len() - 1,
    ensures
        advance_rule(views, LoopMode::All, false, Option::Some(c), pick) == AdvanceDecision::Load(
            0,
        ),
{
}

/// A shuffle advance over a playlist of two or more tracks never chooses
/// the current track again, whatever was drawn; and as long as some other
/// track exists in the list, it does choose one.
pub proof fn lemma_shuffle_never_repeats(
    views: Seq<Seq<u8>>,
    mode: LoopMode,
    c: Seq<u8>,
    pick: int,
)
    requires
        views.len() >= 2,
        views.len() <= usize::MAX,
        !(mode is One),
    ensures
        advance_rule(views, mode, true, Option::Some(c), pick) matches AdvanceDecision::Load(i)
            ==> i < views.len() && views[i as int] != c,
        (exists|j: int| 0 <= j < views.len() && views[j] != c) ==> advance_rule(
            views,
            mode,
            true,
            Option::Some(c),
            pick,
        ) is Load,
{
    let cur = Option::Some(c);
    let pool = shuffle_pool(views, cur);
    lemma_pool_upto(views, cur, views.len() as int);
    if pool.len() > 0 {
        let k = pick % pool.len() as int;
        assert(0 <= k < pool.len());
        assert(eligible(views, cur, pool[k] as int));
    }
    if exists|j: int| 0 <= j < views.len() && views[j] != c {
        let j = choose|j: int| 0 <= j < views.len() && views[j] != c;
        assert(eligible(views, cur, j));
        assert(pool.len() > 0);
    }
}

/// Removing a track commutes with taking identifier views.
pub proof fn lemma_id_views_remove(s: Seq<TrackId>, i: int)
    requires
        0 <= i < s.len(),
    ensures
        id_views(s.remove(i)) == id_views(s).remove(i),
{
    s.remove_ensures(i);
    id_views(s).remove_ensures(i);
    assert(id_views(s.remove(i)) =~= id_views(s).remove(i));
}

/// Inserting a track commutes with taking identifier views.
pub proof fn lemma_id_views_insert(s: Seq<TrackId>, i: int, t: TrackId)
    requires
        0 <= i <= s.len(),
    ensures
        id_views(s.insert(i, t)) == id_views(s).insert(i, t@),
{
    s.insert_ensures(i, t);
    id_views(s).insert_ensures(i, t@);
    assert(id_views(s.insert(i, t)) =~= id_views(s).insert(i, t@));
}

} // verus!
