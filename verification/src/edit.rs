//! Editing: timelines, tracks, cuts, clips and overlaps.
//!
//! A [`Timeline`] answers, for a query time, what is to be shown: nothing,
//! the node of the one active cut, the fold of several active cuts by the
//! overlap declared for that time, or the fact that no overlap is declared.

use vstd::prelude::*;
use crate::compositing::Node;

verus! {

/// Time, in ticks of a fixed length that the host chooses (microseconds,
/// say); a time before the start of the timeline is negative.
pub type Time = i64;

/// A clip generates the node to show at a time.
pub struct Clip<F> {
    gen_node: F,
}

impl<F: Fn(Time) -> Node> Clip<F> {
    /// The generator that the clip was made with.
    pub closed spec fn generator(&self) -> F {
        self.gen_node
    }

    /// The generator may be called at every time.
    pub open spec fn wf(&self) -> bool {
        forall|t: Time| call_requires(self.generator(), (t,))
    }

    /// `node` is a node that the generator may return at `t`.
    pub open spec fn generates(&self, t: Time, node: Node) -> bool {
        call_ensures(self.generator(), (t,), node)
    }

    /// A clip around a generator that may be called at every time.
    pub fn new(f: F) -> (clip: Clip<F>)
        requires
            forall|t: Time| call_requires(f, (t,)),
        ensures
            clip.generator() == f,
            clip.wf(),
    {
        Clip { gen_node: f }
    }

    /// Runs the generator at `t`.
    pub fn node_at(&self, t: Time) -> (node: Node)
        requires
            self.wf(),
        ensures
            self.generates(t, node),
    {
        proof {
            assert(call_requires(self.generator(), (t,)));
        }
        (self.gen_node)(t)
    }
}

/// A cut is an object that slices a `Clip` at an *input time* and *output
/// time*. It is instantiated in a `Track` at a given *instance time*.
pub struct Cut<'c, F> {
    pub in_time: Time,
    pub out_time: Time,
    pub inst_time: Time,
    pub clip: &'c Clip<F>,
}

impl<'c, F> Cut<'c, F> {
    /// Whether the cut is shown at `t`: from its instance time for its
    /// duration, both ends included.
    pub open spec fn active_at(&self, t: Time) -> bool {
        self.inst_time <= t <= self.inst_time + (self.out_time - self.in_time)
    }
}

impl<'c, F: Fn(Time) -> Node> Cut<'c, F> {
    /// The slice does not end before it begins, and the clip is sound.
    pub open spec fn wf(&self) -> bool {
        &&& self.in_time <= self.out_time
        &&& self.clip.wf()
    }

    /// A cut of `clip` from `in_time` to `out_time`, placed at `inst_time`.
    pub fn new(in_time: Time, out_time: Time, inst_time: Time, clip: &'c Clip<F>) -> (cut: Cut<'c, F>)
        requires
            in_time <= out_time,
        ensures
            cut.in_time == in_time,
            cut.out_time == out_time,
            cut.inst_time == inst_time,
            cut.clip == clip,
    {
        Cut { in_time, out_time, inst_time, clip }
    }

    /// Duration of the cut, where it can be counted as a time.
    pub fn dur(&self) -> (d: Time)
        requires
            self.in_time <= self.out_time,
            self.out_time - self.in_time <= i64::MAX,
        ensures
            d == self.out_time - self.in_time,
    {
        self.out_time - self.in_time
    }

    /// Decides [`Cut::active_at`].
    pub fn is_active(&self, t: Time) -> (b: bool)
        ensures
            b == self.active_at(t),
    {
        let since: i128 = t as i128 - self.inst_time as i128;
        let dur: i128 = self.out_time as i128 - self.in_time as i128;
        0 <= since && since <= dur
    }
}

impl<'c, F> Clone for Cut<'c, F> {
    /// A cut with the same times, of the same clip.
    fn clone(&self) -> (cut: Cut<'c, F>)
        ensures
            cut == *self,
    {
        Cut {
            in_time: self.in_time,
            out_time: self.out_time,
            inst_time: self.inst_time,
            clip: self.clip,
        }
    }
}

/// The cuts of `cuts` that are active at `t`, in their order.
pub open spec fn active_among<'c, F>(cuts: Seq<Cut<'c, F>>, t: Time) -> Seq<
    Cut<'c, F>,
>
    decreases cuts.len(),
{
    if cuts.len() == 0 {
        Seq::empty()
    } else if cuts.last().active_at(t) {
        active_among(cuts.drop_last(), t).push(cuts.last())
    } else {
        active_among(cuts.drop_last(), t)
    }
}

/// The cuts of all `tracks` that are active at `t`: track by track, and
/// within a track in the order of its cuts.
pub open spec fn active_cuts<'c, F>(tracks: Seq<Track<'c, F>>, t: Time) -> Seq<
    Cut<'c, F>,
>
    decreases tracks.len(),
{
    if tracks.len() == 0 {
        Seq::empty()
    } else {
        active_cuts(tracks.drop_last(), t) + active_among(tracks.last()@, t)
    }
}

/// `nodes` holds, for each cut of `cuts` in turn, a node that its clip may
/// generate at `t`.
pub open spec fn generated_by<'c, F: Fn(Time) -> Node>(
    cuts: Seq<Cut<'c, F>>,
    t: Time,
    nodes: Seq<Node>,
) -> bool {
    &&& nodes.len() == cuts.len()
    &&& forall|k: int| 0 <= k < cuts.len() ==> (#[trigger] cuts[k]).clip.generates(t, nodes[k])
}

/// A track gathers `Cut`s and its purpose is to be used inside a `Timeline`.
pub struct Track<'c, F> {
    cuts: Vec<Cut<'c, F>>,
}

impl<'c, F> View for Track<'c, F> {
    type V = Seq<Cut<'c, F>>;

    /// The cuts, in the order in which they were added.
    closed spec fn view(&self) -> Seq<Cut<'c, F>> {
        self.cuts@
    }
}

impl<'c, F> Track<'c, F> {
    /// A track of the cuts, in their order.
    pub fn from_cuts(cuts: &[Cut<'c, F>]) -> (track: Track<'c, F>)
        ensures
            track@ == cuts@,
    {
        let mut copied: Vec<Cut<'c, F>> = Vec::new();
        let mut j: usize = 0;
        while j < cuts.len()
            invariant
                j <= cuts.len(),
                copied@ == cuts@.take(j as int),
            decreases cuts.len() - j,
        {
            copied.push(cuts[j].clone());
            proof {
                assert(cuts@.take(j + 1) =~= cuts@.take(j as int).push(cuts@[j as int]));
            }
            j += 1;
        }
        proof {
            assert(cuts@.take(j as int) =~= cuts@);
        }
        Track { cuts: copied }
    }
}

impl<'c, F: Fn(Time) -> Node> Track<'c, F> {
    /// Every cut is sound.
    pub open spec fn wf(&self) -> bool {
        forall|j: int| 0 <= j < self@.len() ==> (#[trigger] self@[j]).wf()
    }

    /// A track without cuts.
    pub fn new() -> (track: Track<'c, F>)
        ensures
            track@ == Seq::<Cut<'c, F>>::empty(),
            track.wf(),
    {
        Track { cuts: Vec::new() }
    }

    /// Number of cuts.
    pub fn len(&self) -> (n: usize)
        ensures
            n == self@.len(),
    {
        self.cuts.len()
    }

    /// The cut at place `j`.
    pub fn cut(&self, j: usize) -> (cut: &Cut<'c, F>)
        requires
            j < self@.len(),
        ensures
            *cut == self@[j as int],
    {
        &self.cuts[j]
    }

    /// Adds a cut after those that the track holds.
    pub fn add_cut(&mut self, cut: Cut<'c, F>)
        ensures
            final(self)@ == old(self)@.push(cut),
            old(self).wf() && cut.wf() ==> final(self).wf(),
    {
        self.cuts.push(cut);
        proof {
            if old(self).wf() && cut.wf() {
                assert forall|j: int| 0 <= j < self@.len() implies (#[trigger] self@[j]).wf() by {
                    if j < old(self)@.len() {
                        assert(old(self)@[j].wf());
                    }
                }
            }
        }
    }
}

impl<'c, F> Clone for Track<'c, F> {
    /// A track with the same cuts, in the same order.
    fn clone(&self) -> (track: Track<'c, F>)
        ensures
            track@ == self@,
    {
        let mut cuts: Vec<Cut<'c, F>> = Vec::new();
        let mut j: usize = 0;
        while j < self.cuts.len()
            invariant
                j <= self.cuts.len(),
                cuts@ == self.cuts@.take(j as int),
            decreases self.cuts.len() - j,
        {
            cuts.push(self.cuts[j].clone());
            proof {
                assert(self.cuts@.take(j + 1) =~= self.cuts@.take(j as int).push(self.cuts@[j as int]));
            }
            j += 1;
        }
        proof {
            assert(self.cuts@.take(j as int) =~= self.cuts@);
        }
        Track { cuts }
    }
}

/// An overlap is a fold of `Node`s down to a single `Node`. It is used
/// whenever two cuts overlap and need to be merged into a single one.
pub struct Overlap<G> {
    pub inst_time: Time,
    pub dur: Time,
    pub fold: G,
}

impl<G: Fn(Vec<Node>) -> Node> Overlap<G> {
    /// The fold may be called on every list of nodes.
    pub open spec fn wf(&self) -> bool {
        forall|nodes: Vec<Node>| call_requires(self.fold, (nodes,))
    }

    /// Whether the overlap is declared for `t`: from its instance time for
    /// its duration, both ends included.
    pub open spec fn active_at(&self, t: Time) -> bool {
        self.inst_time <= t <= self.inst_time + self.dur
    }

    /// `node` is a node that the fold may return for `nodes`.
    pub open spec fn folds(&self, nodes: Vec<Node>, node: Node) -> bool {
        call_ensures(self.fold, (nodes,), node)
    }

    /// An overlap from `inst_time` for `dur`, with its fold.
    pub fn new(inst_time: Time, dur: Time, f: G) -> (overlap: Overlap<G>)
        requires
            forall|nodes: Vec<Node>| call_requires(f, (nodes,)),
        ensures
            overlap.inst_time == inst_time,
            overlap.dur == dur,
            overlap.fold == f,
            overlap.wf(),
    {
        Overlap { inst_time, dur, fold: f }
    }

    /// Decides [`Overlap::active_at`].
    pub fn is_active(&self, t: Time) -> (b: bool)
        ensures
            b == self.active_at(t),
    {
        let since: i128 = t as i128 - self.inst_time as i128;
        0 <= since && since <= self.dur as i128
    }
}

/// Informational value giving hints about how a timeline has played.
#[derive(Debug, PartialEq, Eq)]
pub enum Played {
    /// The timeline has correctly resolved everything and a `Node` is available.
    Resolved(Node),
    /// There are active `Node`s but no overlap to fold them.
    NoOverlap,
    /// No active `Node`s.
    Inactive,
}

/// Declarative form of a cut: its three times and the name of its clip.
#[derive(Debug, PartialEq, Eq)]
pub struct CutManifest {
    pub in_time: Time,
    pub out_time: Time,
    pub inst_time: Time,
    pub clip: String,
}

/// Declarative form of a track: its cuts, in order.
#[derive(Debug, PartialEq, Eq)]
pub struct TrackManifest {
    pub cuts: Vec<CutManifest>,
}

/// Declarative form of a timeline: its tracks, in order.
#[derive(Debug, PartialEq, Eq)]
pub struct TimelineManifest {
    pub tracks: Vec<TrackManifest>,
}

/// The clip that `mapping` gives to `name`: that of the first entry with
/// this name, if there is one.
pub open spec fn find_clip<'c, F>(mapping: Seq<(String, &'c Clip<F>)>, name: Seq<char>) -> Option<
    &'c Clip<F>,
>
    decreases mapping.len(),
{
    if mapping.len() == 0 {
        None
    } else if mapping[0].0@ == name {
        Some(mapping[0].1)
    } else {
        find_clip(mapping.skip(1), name)
    }
}

/// The cuts that the declared `cuts` stand for, in order: each one whose clip
/// name `mapping` knows, with that clip; the others are left out.
pub open spec fn resolved_cuts<'c, F>(
    cuts: Seq<CutManifest>,
    mapping: Seq<(String, &'c Clip<F>)>,
) -> Seq<Cut<'c, F>>
    decreases cuts.len(),
{
    if cuts.len() == 0 {
        Seq::empty()
    } else {
        let last = cuts.last();
        match find_clip(mapping, last.clip@) {
            Some(clip) => resolved_cuts(cuts.drop_last(), mapping).push(
                Cut {
                    in_time: last.in_time,
                    out_time: last.out_time,
                    inst_time: last.inst_time,
                    clip,
                },
            ),
            None => resolved_cuts(cuts.drop_last(), mapping),
        }
    }
}

/// The places, in increasing order, of the declared `cuts` whose clip name
/// `mapping` does not know: those that are left out, and reported.
pub open spec fn unresolved_cuts<'c, F>(
    cuts: Seq<CutManifest>,
    mapping: Seq<(String, &'c Clip<F>)>,
) -> Seq<usize>
    decreases cuts.len(),
{
    if cuts.len() == 0 {
        Seq::empty()
    } else if find_clip(mapping, cuts.last().clip@) is None {
        unresolved_cuts(cuts.drop_last(), mapping).push((cuts.len() - 1) as usize)
    } else {
        unresolved_cuts(cuts.drop_last(), mapping)
    }
}

/// Whether every declared cut whose clip name `mapping` knows begins no
/// later than it ends. Nothing is asked of a cut that is left out.
pub open spec fn resolvable_cuts<'c, F>(
    cuts: Seq<CutManifest>,
    mapping: Seq<(String, &'c Clip<F>)>,
) -> bool {
    forall|j: int|
        0 <= j < cuts.len() && find_clip(mapping, (#[trigger] cuts[j]).clip@) is Some ==> cuts[j].in_time
            <= cuts[j].out_time
}

/// Looks `name` up in `mapping`: see [`find_clip`].
pub fn lookup_clip<'c, F>(mapping: &Vec<(String, &'c Clip<F>)>, name: &String) -> (found: Option<
    &'c Clip<F>,
>)
    ensures
        found == find_clip(mapping@, name@),
{
    let mut i: usize = 0;
    proof {
        assert(mapping@.skip(0) =~= mapping@);
    }
    while i < mapping.len()
        invariant
            i <= mapping.len(),
            find_clip(mapping@, name@) == find_clip(mapping@.skip(i as int), name@),
        decreases mapping.len() - i,
    {
        proof {
            assert(mapping@.skip(i as int)[0] == mapping@[i as int]);
            assert(mapping@.skip(i as int).skip(1) =~= mapping@.skip(i + 1));
        }
        if mapping[i].0 == *name {
            return Some(mapping[i].1);
        }
        i += 1;
    }
    None
}

impl TrackManifest {
    /// No declared cut whose clip name `mapping` knows ends before it
    /// begins.
    pub open spec fn resolvable<'c, F>(&self, mapping: Seq<(String, &'c Clip<F>)>) -> bool {
        resolvable_cuts(self.cuts@, mapping)
    }

    /// The indices, in increasing order, of the declared cuts whose clip
    /// name `mapping` does not know: those that a timeline leaves out.
    pub fn missing_clips<'c, F>(&self, mapping: &Vec<(String, &'c Clip<F>)>) -> (missing: Vec<usize>)
        ensures
            missing@ == unresolved_cuts(self.cuts@, mapping@),
            forall|a: int, b: int| 0 <= a < b < missing@.len() ==> missing@[a] < missing@[b],
            forall|j: usize|
                missing@.contains(j) <==> j < self.cuts@.len() && find_clip(
                    mapping@,
                    self.cuts@[j as int].clip@,
                ) is None,
    {
        let mut missing: Vec<usize> = Vec::new();
        let mut j: usize = 0;
        while j < self.cuts.len()
            invariant
                j <= self.cuts.len(),
                missing@ == unresolved_cuts(self.cuts@.take(j as int), mapping@),
                forall|a: int, b: int| 0 <= a < b < missing@.len() ==> missing@[a] < missing@[b],
                forall|a: int| 0 <= a < missing@.len() ==> missing@[a] < j,
                forall|k: usize|
                    missing@.contains(k) <==> k < j && find_clip(
                        mapping@,
                        self.cuts@[k as int].clip@,
                    ) is None,
            decreases self.cuts.len() - j,
        {
            let ghost before = missing@;
            proof {
                assert(self.cuts@.take(j + 1).drop_last() =~= self.cuts@.take(j as int));
            }
            if lookup_clip(mapping, &self.cuts[j].clip).is_none() {
                missing.push(j);
                proof {
                    assert(missing@[before.len() as int] == j);
                    assert forall|k: usize| missing@.contains(k) <==> k < j + 1 && find_clip(
                        mapping@,
                        self.cuts@[k as int].clip@,
                    ) is None by {
                        if missing@.contains(k) {
                            let a = choose|a: int| 0 <= a < missing@.len() && missing@[a] == k;
                            if a < before.len() {
                                assert(before[a] == k);
                                assert(before.contains(k));
                            }
                        }
                        if before.contains(k) {
                            let a = choose|a: int| 0 <= a < before.len() && before[a] == k;
                            assert(missing@[a] == k);
                        }
                    }
                }
            }
            j += 1;
        }
        proof {
            assert(self.cuts@.take(j as int) =~= self.cuts@);
        }
        missing
    }
}

impl TimelineManifest {
    /// No declared cut whose clip name `mapping` knows ends before it
    /// begins.
    pub open spec fn resolvable<'c, F>(&self, mapping: Seq<(String, &'c Clip<F>)>) -> bool {
        forall|i: int| 0 <= i < self.tracks@.len() ==> (#[trigger] self.tracks@[i]).resolvable(mapping)
    }
}

/// Every clip of `mapping` is sound.
pub open spec fn mapping_wf<'c, F: Fn(Time) -> Node>(mapping: Seq<(String, &'c Clip<F>)>) -> bool {
    forall|i: int| 0 <= i < mapping.len() ==> (#[trigger] mapping[i]).1.wf()
}

/// A clip that `mapping` gives to a name is one of its entries.
pub proof fn lemma_find_clip_is_entry<'c, F>(mapping: Seq<(String, &'c Clip<F>)>, name: Seq<char>)
    ensures
        match find_clip(mapping, name) {
            Some(clip) => exists|i: int|
                0 <= i < mapping.len() && (#[trigger] mapping[i]).0@ == name && mapping[i].1 == clip,
            None => forall|i: int| 0 <= i < mapping.len() ==> (#[trigger] mapping[i]).0@ != name,
        },
    decreases mapping.len(),
{
    if mapping.len() > 0 && mapping[0].0@ != name {
        let rest = mapping.skip(1);
        lemma_find_clip_is_entry(rest, name);
        match find_clip(rest, name) {
            Some(clip) => {
                let i = choose|i: int|
                    0 <= i < rest.len() && (#[trigger] rest[i]).0@ == name && rest[i].1 == clip;
                assert(mapping[i + 1] == rest[i]);
            },
            None => {
                assert forall|i: int| 0 <= i < mapping.len() implies (#[trigger] mapping[i]).0@
                    != name by {
                    if i > 0 {
                        assert(mapping[i] == rest[i - 1]);
                    }
                }
            },
        }
    }
}

/// The cut that a declared cut stands for, once its clip is found.
pub open spec fn cut_of<'c, F>(declared: CutManifest, clip: &'c Clip<F>) -> Cut<'c, F> {
    Cut {
        in_time: declared.in_time,
        out_time: declared.out_time,
        inst_time: declared.inst_time,
        clip,
    }
}

/// Every declared cut is either kept or reported, never both, and both in
/// the declared order: a cut whose clip name `mapping` knows stands among
/// the resolved cuts, after those that were kept before it, and a cut whose
/// clip name it does not know has its place among the unresolved ones, after
/// those that were reported before it.
pub proof fn lemma_cuts_kept_or_reported<'c, F>(
    cuts: Seq<CutManifest>,
    mapping: Seq<(String, &'c Clip<F>)>,
)
    requires
        cuts.len() <= usize::MAX,
    ensures
        resolved_cuts(cuts, mapping).len() + unresolved_cuts(cuts, mapping).len() == cuts.len(),
        forall|j: int|
            0 <= j < cuts.len() ==> match find_clip(mapping, (#[trigger] cuts[j]).clip@) {
                Some(clip) => {
                    let k = resolved_cuts(cuts.take(j), mapping).len() as int;
                    &&& k < resolved_cuts(cuts, mapping).len()
                    &&& resolved_cuts(cuts, mapping)[k] == cut_of(cuts[j], clip)
                },
                None => {
                    let k = unresolved_cuts(cuts.take(j), mapping).len() as int;
                    &&& k < unresolved_cuts(cuts, mapping).len()
                    &&& unresolved_cuts(cuts, mapping)[k] == j
                },
            },
    decreases cuts.len(),
{
    if cuts.len() > 0 {
        let n = cuts.len() - 1;
        let front = cuts.drop_last();
        lemma_cuts_kept_or_reported(front, mapping);
        assert(cuts.take(n) =~= front);
        assert forall|j: int| 0 <= j < cuts.len() implies match find_clip(
            mapping,
            (#[trigger] cuts[j]).clip@,
        ) {
            Some(clip) => {
                let k = resolved_cuts(cuts.take(j), mapping).len() as int;
                &&& k < resolved_cuts(cuts, mapping).len()
                &&& resolved_cuts(cuts, mapping)[k] == cut_of(cuts[j], clip)
            },
            None => {
                let k = unresolved_cuts(cuts.take(j), mapping).len() as int;
                &&& k < unresolved_cuts(cuts, mapping).len()
                &&& unresolved_cuts(cuts, mapping)[k] == j
            },
        } by {
            if j < n {
                assert(front[j] == cuts[j]);
                assert(front.take(j) =~= cuts.take(j));
            }
        }
    }
}

/// A timeline gathers tracks used to build up the visual aspect of the demo.
pub struct Timeline<'c, F, G> {
    tracks: Vec<Track<'c, F>>,
    overlaps: Vec<Overlap<G>>,
}

impl<'c, F: Fn(Time) -> Node, G: Fn(Vec<Node>) -> Node> Timeline<'c, F, G> {
    /// The tracks, in the order in which they were added.
    pub closed spec fn tracks(&self) -> Seq<Track<'c, F>> {
        self.tracks@
    }

    /// The overlaps, in the order in which they were declared.
    pub closed spec fn overlaps(&self) -> Seq<Overlap<G>> {
        self.overlaps@
    }

    /// Every track and every overlap is sound.
    pub open spec fn wf(&self) -> bool {
        &&& forall|i: int| 0 <= i < self.tracks().len() ==> (#[trigger] self.tracks()[i]).wf()
        &&& forall|k: int| 0 <= k < self.overlaps().len() ==> (#[trigger] self.overlaps()[k]).wf()
    }

    /// The cuts that are active at `t`, in track order and then cut order.
    pub open spec fn active(&self, t: Time) -> Seq<Cut<'c, F>> {
        active_cuts(self.tracks(), t)
    }

    /// Whether overlap `k` is the first one declared for `t`.
    pub open spec fn first_overlap_at(&self, t: Time, k: int) -> bool {
        &&& 0 <= k < self.overlaps().len()
        &&& self.overlaps()[k].active_at(t)
        &&& forall|j: int| 0 <= j < k ==> !(#[trigger] self.overlaps()[j]).active_at(t)
    }

    /// Whether no overlap is declared for `t`.
    pub open spec fn no_overlap_at(&self, t: Time) -> bool {
        forall|j: int| 0 <= j < self.overlaps().len() ==> !(#[trigger] self.overlaps()[j]).active_at(t)
    }

    /// What the timeline shows when the active cuts have generated `nodes`:
    /// nothing without a node, the node itself where there is one, and else
    /// the fold of the first overlap declared for `t`, if there is any.
    pub open spec fn folded(&self, t: Time, nodes: Vec<Node>, played: Played) -> bool {
        match played {
            Played::Inactive => nodes@.len() == 0,
            Played::NoOverlap => nodes@.len() >= 2 && self.no_overlap_at(t),
            Played::Resolved(node) => {
                ||| nodes@.len() == 1 && node == nodes@[0]
                ||| nodes@.len() >= 2 && exists|k: int|
                    self.first_overlap_at(t, k) && (#[trigger] self.overlaps()[k]).folds(nodes, node)
            },
        }
    }

    /// A timeline without tracks or overlaps.
    pub fn new() -> (timeline: Timeline<'c, F, G>)
        ensures
            timeline.tracks() == Seq::<Track<'c, F>>::empty(),
            timeline.overlaps() == Seq::<Overlap<G>>::empty(),
            timeline.wf(),
    {
        Timeline { tracks: Vec::new(), overlaps: Vec::new() }
    }

    /// Turn a `TimelineManifest` into a `Timeline` by providing a mapping
    /// between clips' names and real clips. There is one track for each
    /// declared track, in order, and no overlap; a declared cut whose clip
    /// name the mapping does not know is left out of its track, whatever its
    /// times are, and is one of those that `missing_clips` reports.
    pub fn from_manifest(manifest: &TimelineManifest, mapping: &Vec<(String, &'c Clip<F>)>) -> (timeline:
        Timeline<'c, F, G>)
        requires
            manifest.resolvable(mapping@),
        ensures
            timeline.overlaps() == Seq::<Overlap<G>>::empty(),
            timeline.tracks().len() == manifest.tracks@.len(),
            forall|i: int|
                0 <= i < manifest.tracks@.len() ==> (#[trigger] timeline.tracks()[i])@ == resolved_cuts(
                    manifest.tracks@[i].cuts@,
                    mapping@,
                ),
            forall|i: int|
                0 <= i < manifest.tracks@.len() ==> (#[trigger] timeline.tracks()[i])@.len()
                    + unresolved_cuts(manifest.tracks@[i].cuts@, mapping@).len()
                    == manifest.tracks@[i].cuts@.len(),
            mapping_wf(mapping@) ==> timeline.wf(),
    {
        let mut timeline = Self::new();
        let mut i: usize = 0;
        while i < manifest.tracks.len()
            invariant
                manifest.resolvable(mapping@),
                i <= manifest.tracks.len(),
                timeline.overlaps() == Seq::<Overlap<G>>::empty(),
                timeline.tracks().len() == i,
                forall|k: int|
                    0 <= k < i ==> (#[trigger] timeline.tracks()[k])@ == resolved_cuts(
                        manifest.tracks@[k].cuts@,
                        mapping@,
                    ),
                mapping_wf(mapping@) ==> timeline.wf(),
            decreases manifest.tracks.len() - i,
        {
            let track_manifest = &manifest.tracks[i];
            let mut track = Track::new();
            let mut j: usize = 0;
            while j < track_manifest.cuts.len()
                invariant
                    track_manifest.resolvable(mapping@),
                    j <= track_manifest.cuts.len(),
                    track@ == resolved_cuts(track_manifest.cuts@.take(j as int), mapping@),
                    mapping_wf(mapping@) ==> track.wf(),
                decreases track_manifest.cuts.len() - j,
            {
                let cut_manifest = &track_manifest.cuts[j];
                let in_time = cut_manifest.in_time;
                let out_time = cut_manifest.out_time;
                let inst_time = cut_manifest.inst_time;
                proof {
                    assert(track_manifest.cuts@.take(j + 1).drop_last() =~= track_manifest.cuts@.take(
                        j as int,
                    ));
                    lemma_find_clip_is_entry(mapping@, cut_manifest.clip@);
                }
                if let Some(clip) = lookup_clip(mapping, &cut_manifest.clip) {
                    proof {
                        assert(find_clip(mapping@, track_manifest.cuts@[j as int].clip@) is Some);
                    }
                    track.add_cut(Cut::new(in_time, out_time, inst_time, clip));
                }
                j += 1;
            }
            proof {
                assert(track_manifest.cuts@.take(j as int) =~= track_manifest.cuts@);
            }
            let ghost before = timeline.tracks();
            timeline.add_track(track);
            proof {
                assert forall|k: int| 0 <= k < i + 1 implies (#[trigger] timeline.tracks()[k])@
                    == resolved_cuts(manifest.tracks@[k].cuts@, mapping@) by {
                    if k < i {
                        assert(timeline.tracks()[k] == before[k]);
                    }
                }
            }
            i += 1;
        }
        proof {
            assert forall|k: int| 0 <= k < manifest.tracks@.len() implies (#[trigger] timeline.tracks()[k])@.len()
                + unresolved_cuts(manifest.tracks@[k].cuts@, mapping@).len()
                == manifest.tracks@[k].cuts@.len() by {
                assert(manifest.tracks@[k].cuts.len() == manifest.tracks@[k].cuts@.len());
                lemma_cuts_kept_or_reported(manifest.tracks@[k].cuts@, mapping@);
            }
        }
        timeline
    }

    /// Number of tracks.
    pub fn track_count(&self) -> (n: usize)
        ensures
            n == self.tracks().len(),
    {
        self.tracks.len()
    }

    /// The track at place `i`.
    pub fn track(&self, i: usize) -> (track: &Track<'c, F>)
        requires
            i < self.tracks().len(),
        ensures
            *track == self.tracks()[i as int],
    {
        &self.tracks[i]
    }

    /// Adds a track after those that the timeline holds.
    pub fn add_track(&mut self, track: Track<'c, F>)
        ensures
            final(self).tracks() == old(self).tracks().push(track),
            final(self).overlaps() == old(self).overlaps(),
            old(self).wf() && track.wf() ==> final(self).wf(),
    {
        self.tracks.push(track);
        proof {
            if old(self).wf() && track.wf() {
                assert forall|i: int| 0 <= i < self.tracks().len() implies (#[trigger] self.tracks()[i]).wf() by {
                    if i < old(self).tracks().len() {
                        assert(old(self).tracks()[i].wf());
                    }
                }
                assert(self.overlaps() == old(self).overlaps());
                assert forall|k: int| 0 <= k < self.overlaps().len() implies (#[trigger] self.overlaps()[k]).wf() by {
                    assert(old(self).overlaps()[k].wf());
                }
            }
        }
    }

    /// Declares an overlap after those that the timeline holds.
    pub fn add_overlap(&mut self, overlap: Overlap<G>)
        ensures
            final(self).overlaps() == old(self).overlaps().push(overlap),
            final(self).tracks() == old(self).tracks(),
            old(self).wf() && overlap.wf() ==> final(self).wf(),
    {
        self.overlaps.push(overlap);
        proof {
            if old(self).wf() && overlap.wf() {
                assert forall|k: int| 0 <= k < self.overlaps().len() implies (#[trigger] self.overlaps()[k]).wf() by {
                    if k < old(self).overlaps().len() {
                        assert(old(self).overlaps()[k].wf());
                    }
                }
                assert(self.tracks() == old(self).tracks());
                assert forall|i: int| 0 <= i < self.tracks().len() implies (#[trigger] self.tracks()[i]).wf() by {
                    assert(old(self).tracks()[i].wf());
                }
            }
        }
    }

    /// Find an active overlap at the given time: the index of the first one
    /// declared for it.
    pub fn find_overlap(&self, t: Time) -> (found: Option<usize>)
        ensures
            match found {
                Some(k) => self.first_overlap_at(t, k as int),
                None => self.no_overlap_at(t),
            },
    {
        let mut k: usize = 0;
        while k < self.overlaps.len()
            invariant
                k <= self.overlaps.len(),
                forall|j: int| 0 <= j < k ==> !(#[trigger] self.overlaps()[j]).active_at(t),
            decreases self.overlaps.len() - k,
        {
            if self.overlaps[k].is_active(t) {
                return Some(k);
            }
            k += 1;
        }
        None
    }

    /// Generates the node of every cut that is active at `t`, in track order
    /// and then cut order.
    pub fn active_nodes(&self, t: Time) -> (nodes: Vec<Node>)
        requires
            self.wf(),
        ensures
            generated_by(self.active(t), t, nodes@),
    {
        let mut active_nodes: Vec<Node> = Vec::new();
        let mut i: usize = 0;
        while i < self.tracks.len()
            invariant
                self.wf(),
                i <= self.tracks.len(),
                generated_by(active_cuts(self.tracks().take(i as int), t), t, active_nodes@),
            decreases self.tracks.len() - i,
        {
            let track = &self.tracks[i];
            let ghost before = active_cuts(self.tracks().take(i as int), t);
            let mut j: usize = 0;
            while j < track.cuts.len()
                invariant
                    track.wf(),
                    j <= track.cuts.len(),
                    generated_by(before + active_among(track@.take(j as int), t), t, active_nodes@),
                decreases track.cuts.len() - j,
            {
                let cut = &track.cuts[j];
                proof {
                    assert(track@[j as int].wf());
                    assert(track@.take(j + 1).drop_last() =~= track@.take(j as int));
                }
                if cut.is_active(t) {
                    let node = cut.clip.node_at(t);
                    active_nodes.push(node);
                    proof {
                        assert(before + active_among(track@.take(j + 1), t) =~= (before + active_among(
                            track@.take(j as int),
                            t,
                        )).push(*cut));
                    }
                }
                j += 1;
            }
            proof {
                assert(track@.take(j as int) =~= track@);
                assert(self.tracks().take(i + 1).drop_last() =~= self.tracks().take(i as int));
            }
            i += 1;
        }
        proof {
            assert(self.tracks().take(i as int) =~= self.tracks());
        }
        active_nodes
    }

    /// Decides what the timeline shows at `t`, given the nodes that the
    /// active cuts have generated.
    pub fn fold_nodes(&self, t: Time, nodes: Vec<Node>) -> (played: Played)
        requires
            self.wf(),
        ensures
            self.folded(t, nodes, played),
    {
        let mut active_nodes = nodes;
        let n = active_nodes.len();
        if n == 0 {
            Played::Inactive
        } else if n == 1 {
            match active_nodes.pop() {
                Some(node) => Played::Resolved(node),
                None => Played::Inactive,
            }
        } else {
            // we need to seek for an overlap here because we have strictly
            // more than one node in hands
            match self.find_overlap(t) {
                Some(k) => {
                    let overlap = &self.overlaps[k];
                    proof {
                        assert(self.overlaps()[k as int].wf());
                    }
                    Played::Resolved((overlap.fold)(active_nodes))
                },
                None => Played::NoOverlap,
            }
        }
    }

    /// Plays the timeline at `t`: generates the node of every active cut,
    /// then shows nothing, the one node, or the fold of all of them by the
    /// overlap declared for `t`; without such an overlap, several active cuts
    /// do not resolve.
    ///
    /// Overlaps are meant not to share any time. Keeping them apart is up to
    /// whoever declares them: where several are declared for `t`, the one
    /// declared first folds.
    pub fn play(&self, t: Time) -> (played: Played)
        requires
            self.wf(),
        ensures
            exists|nodes: Vec<Node>|
                generated_by(self.active(t), t, nodes@) && #[trigger] self.folded(t, nodes, played),
            played is Inactive <==> self.active(t).len() == 0,
            played is NoOverlap <==> self.active(t).len() >= 2 && self.no_overlap_at(t),
    {
        let active_nodes = self.active_nodes(t);
        let ghost nodes = active_nodes;
        let played = self.fold_nodes(t, active_nodes);
        proof {
            assert(generated_by(self.active(t), t, nodes@) && self.folded(t, nodes, played));
        }
        played
    }
}

} // verus!
