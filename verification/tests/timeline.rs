use spectra::color::Rgba;
use spectra::compositing::Node;
use spectra::edit::{
    lookup_clip, Clip, Cut, CutManifest, Overlap, Played, Time, Timeline, TimelineManifest, Track,
    TrackManifest,
};

type Generator = fn(Time) -> Node;
type Fold = fn(Vec<Node>) -> Node;

fn red(_: Time) -> Node {
    Node::Color(Rgba::new(255, 0, 0, 255))
}

fn blue(_: Time) -> Node {
    Node::Color(Rgba::new(0, 0, 255, 255))
}

fn green_fold(_: Vec<Node>) -> Node {
    Node::Color(Rgba::new(0, 255, 0, 255))
}

fn sum_fold(nodes: Vec<Node>) -> Node {
    let mut it = nodes.into_iter();
    let first = it.next().unwrap();
    it.fold(first, |acc, n| acc + n)
}

fn stamp(t: Time) -> Node {
    Node::Color(Rgba::new(t.rem_euclid(256) as u8, 0, 0, 255))
}

#[test]
fn single_cut_is_active_on_its_window_only() {
    let clip: Clip<Generator> = Clip::new(red);
    let mut track = Track::new();
    track.add_cut(Cut::new(0, 2_000, 5_000, &clip));
    let mut timeline: Timeline<Generator, Fold> = Timeline::new();
    timeline.add_track(track);

    assert_eq!(timeline.play(4_900), Played::Inactive);
    assert_eq!(timeline.play(5_000), Played::Resolved(Node::Color(Rgba::new(255, 0, 0, 255))));
    assert_eq!(timeline.play(7_000), Played::Resolved(Node::Color(Rgba::new(255, 0, 0, 255))));
    assert_eq!(timeline.play(7_100), Played::Inactive);
}

#[test]
fn overlap_folds_simultaneous_cuts() {
    let first: Clip<Generator> = Clip::new(red);
    let second: Clip<Generator> = Clip::new(blue);
    let mut a = Track::new();
    a.add_cut(Cut::new(0, 4_000, 8_000, &first));
    let mut b = Track::new();
    b.add_cut(Cut::new(0, 4_000, 9_000, &second));
    let mut timeline: Timeline<Generator, Fold> = Timeline::new();
    timeline.add_track(a);
    timeline.add_track(b);
    timeline.add_overlap(Overlap::new(9_000, 2_000, green_fold));

    assert_eq!(timeline.play(10_000), Played::Resolved(Node::Color(Rgba::new(0, 255, 0, 255))));
}

#[test]
fn simultaneous_cuts_without_overlap_do_not_resolve() {
    let first: Clip<Generator> = Clip::new(red);
    let second: Clip<Generator> = Clip::new(blue);
    let mut a = Track::new();
    a.add_cut(Cut::new(0, 4_000, 8_000, &first));
    let mut b = Track::new();
    b.add_cut(Cut::new(0, 4_000, 9_000, &second));
    let mut timeline: Timeline<Generator, Fold> = Timeline::new();
    timeline.add_track(a);
    timeline.add_track(b);

    assert_eq!(timeline.play(10_000), Played::NoOverlap);
    // an overlap declared for another time does not help
    timeline.add_overlap(Overlap::new(0, 1_000, green_fold));
    assert_eq!(timeline.play(10_000), Played::NoOverlap);
    assert_eq!(timeline.find_overlap(10_000), None);
    assert_eq!(timeline.find_overlap(500), Some(0));
}

#[test]
fn fold_receives_nodes_in_track_then_cut_order() {
    let first: Clip<Generator> = Clip::new(red);
    let second: Clip<Generator> = Clip::new(blue);
    let mut a = Track::new();
    a.add_cut(Cut::new(0, 10, 0, &second));
    a.add_cut(Cut::new(0, 10, 100, &first));
    a.add_cut(Cut::new(0, 10, 5, &first));
    let mut b = Track::new();
    b.add_cut(Cut::new(0, 10, 0, &second));
    let mut timeline: Timeline<Generator, Fold> = Timeline::new();
    timeline.add_track(a);
    timeline.add_track(b);
    timeline.add_overlap(Overlap::new(0, 50, sum_fold));

    let nodes = timeline.active_nodes(7);
    assert_eq!(nodes, vec![blue(7), red(7), blue(7)]);
    assert_eq!(timeline.play(7), Played::Resolved((blue(7) + red(7)) + blue(7)));
}

#[test]
fn first_declared_overlap_wins() {
    let first: Clip<Generator> = Clip::new(red);
    let mut a = Track::new();
    a.add_cut(Cut::new(0, 10, 0, &first));
    a.add_cut(Cut::new(0, 10, 0, &first));
    let mut timeline: Timeline<Generator, Fold> = Timeline::new();
    timeline.add_track(a);
    timeline.add_overlap(Overlap::new(20, 5, sum_fold));
    timeline.add_overlap(Overlap::new(0, 10, green_fold));
    timeline.add_overlap(Overlap::new(0, 10, sum_fold));

    assert_eq!(timeline.find_overlap(3), Some(1));
    assert_eq!(timeline.play(3), Played::Resolved(Node::Color(Rgba::new(0, 255, 0, 255))));
}

#[test]
fn clip_is_generated_at_the_query_time() {
    let clip: Clip<Generator> = Clip::new(stamp);
    assert_eq!(clip.node_at(300), Node::Color(Rgba::new(44, 0, 0, 255)));
    let mut track = Track::new();
    track.add_cut(Cut::new(10, 20, 100, &clip));
    let mut timeline: Timeline<Generator, Fold> = Timeline::new();
    timeline.add_track(track);
    assert_eq!(timeline.play(105), Played::Resolved(Node::Color(Rgba::new(105, 0, 0, 255))));
}

#[test]
fn cut_duration_and_window() {
    let clip: Clip<Generator> = Clip::new(red);
    let cut = Cut::new(3, 10, 100, &clip);
    assert_eq!(cut.dur(), 7);
    assert!(!cut.is_active(99));
    assert!(cut.is_active(100));
    assert!(cut.is_active(107));
    assert!(!cut.is_active(108));

    let instant = Cut::new(4, 4, 9, &clip);
    assert_eq!(instant.dur(), 0);
    assert!(instant.is_active(9));
    assert!(!instant.is_active(10));

    let late = Cut::new(0, 10, i64::MAX - 3, &clip);
    assert!(late.is_active(i64::MAX));
    assert!(!late.is_active(0));

    let whole = Cut::new(i64::MIN, i64::MAX, -5, &clip);
    assert!(whole.is_active(i64::MAX));
    assert!(whole.is_active(-5));
    assert!(!whole.is_active(-6));
}

#[test]
fn overlap_window_is_inclusive() {
    let overlap: Overlap<Fold> = Overlap::new(9_000, 2_000, green_fold);
    assert!(!overlap.is_active(8_999));
    assert!(overlap.is_active(9_000));
    assert!(overlap.is_active(11_000));
    assert!(!overlap.is_active(11_001));
}

#[test]
fn fold_nodes_decides_on_the_number_of_nodes() {
    let mut timeline: Timeline<Generator, Fold> = Timeline::new();
    assert_eq!(timeline.fold_nodes(0, vec![]), Played::Inactive);
    assert_eq!(timeline.fold_nodes(0, vec![red(0)]), Played::Resolved(red(0)));
    assert_eq!(timeline.fold_nodes(0, vec![red(0), blue(0)]), Played::NoOverlap);
    timeline.add_overlap(Overlap::new(0, 0, sum_fold));
    assert_eq!(timeline.fold_nodes(0, vec![red(0), blue(0)]), Played::Resolved(red(0) + blue(0)));
    assert_eq!(timeline.fold_nodes(1, vec![red(0), blue(0)]), Played::NoOverlap);
    // a single node needs no overlap, and is not folded
    assert_eq!(timeline.fold_nodes(0, vec![blue(0)]), Played::Resolved(blue(0)));
}

fn manifest_cut(in_time: Time, out_time: Time, inst_time: Time, clip: &str) -> CutManifest {
    CutManifest { in_time, out_time, inst_time, clip: clip.to_string() }
}

#[test]
fn manifest_cut_with_unknown_clip_is_left_out() {
    let intro: Clip<Generator> = Clip::new(red);
    let outro: Clip<Generator> = Clip::new(blue);
    let mapping = vec![("intro".to_string(), &intro), ("outro".to_string(), &outro)];
    let manifest = TimelineManifest {
        tracks: vec![
            TrackManifest {
                cuts: vec![
                    manifest_cut(0, 10, 0, "intro"),
                    manifest_cut(0, 10, 20, "missing"),
                    manifest_cut(0, 10, 40, "outro"),
                ],
            },
            TrackManifest { cuts: vec![manifest_cut(0, 5, 20, "missing")] },
        ],
    };

    let timeline: Timeline<Generator, Fold> = Timeline::from_manifest(&manifest, &mapping);
    assert_eq!(timeline.track_count(), 2);
    assert_eq!(timeline.track(0).len(), 2);
    assert_eq!(timeline.track(1).len(), 0);
    assert_eq!(timeline.track(0).cut(0).inst_time, 0);
    assert_eq!(timeline.track(0).cut(1).inst_time, 40);
    assert_eq!(timeline.track(0).cut(1).in_time, 0);
    assert_eq!(timeline.track(0).cut(1).out_time, 10);

    assert_eq!(timeline.play(5), Played::Resolved(red(5)));
    assert_eq!(timeline.play(25), Played::Inactive);
    assert_eq!(timeline.play(45), Played::Resolved(blue(45)));

    assert_eq!(manifest.tracks[0].missing_clips(&mapping), vec![1]);
    assert_eq!(manifest.tracks[1].missing_clips(&mapping), vec![0]);
}

#[test]
fn mapping_gives_the_first_entry_of_a_name() {
    let one: Clip<Generator> = Clip::new(red);
    let two: Clip<Generator> = Clip::new(blue);
    let mapping = vec![("a".to_string(), &one), ("b".to_string(), &two), ("a".to_string(), &two)];
    assert_eq!(lookup_clip(&mapping, &"a".to_string()).unwrap().node_at(0), red(0));
    assert_eq!(lookup_clip(&mapping, &"b".to_string()).unwrap().node_at(0), blue(0));
    assert!(lookup_clip(&mapping, &"c".to_string()).is_none());
    assert!(lookup_clip(&mapping, &"".to_string()).is_none());
}

#[test]
fn empty_timeline_is_inactive() {
    let timeline: Timeline<Generator, Fold> = Timeline::new();
    assert_eq!(timeline.play(0), Played::Inactive);
    let empty = TimelineManifest { tracks: vec![] };
    let mapping: Vec<(String, &Clip<Generator>)> = vec![];
    let loaded: Timeline<Generator, Fold> = Timeline::from_manifest(&empty, &mapping);
    assert_eq!(loaded.track_count(), 0);
}

#[test]
fn track_from_cuts_keeps_their_order() {
    let clip: Clip<Generator> = Clip::new(red);
    let cuts = [Cut::new(0, 1, 10, &clip), Cut::new(2, 5, 20, &clip)];
    let track = Track::from_cuts(&cuts);
    assert_eq!(track.len(), 2);
    assert_eq!(track.cut(0).inst_time, 10);
    assert_eq!(track.cut(1).inst_time, 20);
    assert_eq!(track.cut(1).dur(), 3);

    let copy = track.clone();
    assert_eq!(copy.len(), 2);
    assert_eq!(copy.cut(0).out_time, 1);
    assert_eq!(copy.cut(1).in_time, 2);

    let mut timeline: Timeline<Generator, Fold> = Timeline::new();
    timeline.add_track(copy);
    assert_eq!(timeline.play(23), Played::Resolved(red(23)));
    assert_eq!(timeline.play(24), Played::Inactive);
}

#[test]
fn unknown_clip_is_left_out_whatever_its_times() {
    let intro: Clip<Generator> = Clip::new(red);
    let mapping = vec![("intro".to_string(), &intro)];
    let manifest = TimelineManifest {
        tracks: vec![TrackManifest {
            cuts: vec![
                manifest_cut(3, 1, 0, "missing"),
                manifest_cut(0, 10, 0, "intro"),
                manifest_cut(9, 2, 5, "gone"),
            ],
        }],
    };

    let timeline: Timeline<Generator, Fold> = Timeline::from_manifest(&manifest, &mapping);
    assert_eq!(timeline.track_count(), 1);
    assert_eq!(timeline.track(0).len(), 1);
    assert_eq!(timeline.track(0).cut(0).out_time, 10);
    assert_eq!(timeline.play(5), Played::Resolved(red(5)));

    let missing = manifest.tracks[0].missing_clips(&mapping);
    assert_eq!(missing, vec![0, 2]);
    assert_eq!(timeline.track(0).len() + missing.len(), manifest.tracks[0].cuts.len());
}

#[test]
fn cuts_placed_before_zero_resolve() {
    let clip: Clip<Generator> = Clip::new(red);
    let mut track = Track::new();
    track.add_cut(Cut::new(0, 2_000, -1_500, &clip));
    let mut timeline: Timeline<Generator, Fold> = Timeline::new();
    timeline.add_track(track);
    timeline.add_overlap(Overlap::new(-10, -1, green_fold));

    assert_eq!(timeline.play(-1_501), Played::Inactive);
    assert_eq!(timeline.play(-1_500), Played::Resolved(red(-1_500)));
    assert_eq!(timeline.play(0), Played::Resolved(red(0)));
    assert_eq!(timeline.play(500), Played::Resolved(red(500)));
    assert_eq!(timeline.play(501), Played::Inactive);
    // an overlap of negative length is declared for no time
    assert_eq!(timeline.find_overlap(-10), None);
    assert_eq!(timeline.find_overlap(-11), None);
}
