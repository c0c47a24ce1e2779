//! Scanning a directory tree for the frames of a sequence.

use vstd::multiset::Multiset;
use vstd::prelude::*;
use vstd::seq_lib::{lemma_multiset_commutative, to_multiset_len, to_multiset_remove};
use walkdir::WalkDir;
use crate::extension::{has_image_extension, is_image_path};
use crate::sorting::{
    in_order, lemma_order_is_unique, lemma_same_paths_same_repeats,
    lemma_strict_order_is_order_without_repeats, same_paths, sort_paths, strictly_in_order,
};

verus! {

/// What a walk reports of one entry that it could read.
#[derive(Debug)]
pub struct WalkedEntry {
    /// The entry's full path; `None` where the path is not valid UTF-8.
    pub path: Option<String>,
    /// Whether the entry is a regular file: not a directory, a link, or
    /// anything else that a tree may hold.
    pub is_file: bool,
}

/// A walked entry as a mathematical value.
pub struct EntryView {
    pub path: Option<Seq<char>>,
    pub is_file: bool,
}

impl View for WalkedEntry {
    type V = EntryView;

    open spec fn view(&self) -> EntryView {
        EntryView {
            path: match self.path {
                Some(p) => Some(p@),
                None => None,
            },
            is_file: self.is_file,
        }
    }
}

impl DeepView for WalkedEntry {
    type V = EntryView;

    open spec fn deep_view(&self) -> EntryView {
        self@
    }
}

/// The path under which an entry is played, if it is a frame at all: a
/// regular file whose path is text and carries an image extension.
pub open spec fn frame_of(entry: EntryView) -> Option<Seq<char>> {
    match entry.path {
        Some(p) => if entry.is_file && is_image_path(p) {
            Some(p)
        } else {
            None
        },
        None => None,
    }
}

/// The frames among the entries of a walk, in the order of the walk.
pub open spec fn frames_among(walk: Seq<EntryView>) -> Seq<Seq<char>> {
    walk.filter_map(|entry: EntryView| frame_of(entry))
}

/// `frames` is the frame list of `walk`: exactly the frames among its
/// entries, each as often as the walk met it, in playing order.
pub open spec fn is_frame_list(frames: Seq<Seq<char>>, walk: Seq<EntryView>) -> bool {
    &&& in_order(frames)
    &&& same_paths(frames, frames_among(walk))
}

impl WalkedEntry {
    /// An entry for a path that is text.
    pub fn new(path: &str, is_file: bool) -> (entry: WalkedEntry)
        ensures
            entry@ == (EntryView { path: Some(path@), is_file }),
    {
        WalkedEntry { path: Some(path.to_owned()), is_file }
    }

    /// Decides whether this entry is a frame.
    pub fn is_frame(&self) -> (r: bool)
        ensures
            r == frame_of(self@).is_some(),
    {
        match &self.path {
            Some(p) => self.is_file && has_image_extension(p.as_str()),
            None => false,
        }
    }
}

/// Walks the tree under `root` with `walkdir::WalkDir`, links not followed,
/// and reports every entry that the walk could read, the root included;
/// entries that it could not read are left out. Nothing is claimed of the
/// result: it is whatever the disk held while the walk went on.
#[verifier::external_body]
pub(crate) fn walk(root: &str) -> (found: Vec<WalkedEntry>) {
    WalkDir::new(root)
        .into_iter()
        .filter_map(|entry| entry.ok())
        .map(|entry| WalkedEntry {
            path: entry.path().to_str().map(String::from),
            is_file: entry.file_type().is_file(),
        })
        .collect()
}

/// Picks the frames out of what a walk found and puts them in playing order.
pub fn select_frames(found: &Vec<WalkedEntry>) -> (frames: Vec<String>)
    ensures
        is_frame_list(frames.deep_view(), found.deep_view()),
{
    let ghost walk = found.deep_view();
    let mut picked: Vec<String> = Vec::new();
    let mut i: usize = 0;
    while i < found.len()
        invariant
            walk == found.deep_view(),
            i <= found.len(),
            picked.deep_view() == frames_among(walk.take(i as int)),
        decreases found.len() - i,
    {
        proof {
            assert(walk.take(i + 1).drop_last() =~= walk.take(i as int));
        }
        if found[i].is_frame() {
            match &found[i].path {
                Some(p) => picked.push(p.clone()),
                None => {},
            }
        }
        i += 1;
    }
    proof {
        assert(walk.take(i as int) =~= walk);
    }
    sort_paths(picked)
}

/// Scans the tree under `root`: the image files found there, in playing
/// order. A root that cannot be read gives an empty list.
pub fn scan(root: &str) -> (frames: Vec<String>)
    ensures
        in_order(frames.deep_view()),
        forall|i: int| 0 <= i < frames.len() ==> is_image_path(#[trigger] frames.deep_view()[i]),
{
    let found = walk(root);
    let frames = select_frames(&found);
    proof {
        lemma_frames_are_images(frames.deep_view(), found.deep_view());
    }
    frames
}

/// A walk has only one frame list.
pub proof fn lemma_frame_list_unique(a: Seq<Seq<char>>, b: Seq<Seq<char>>, walk: Seq<EntryView>)
    requires
        is_frame_list(a, walk),
        is_frame_list(b, walk),
    ensures
        a == b,
{
    lemma_order_is_unique(a, b);
}

/// The frame list does not depend on the order in which the walk met the
/// entries: two walks that report the same entries have the same frame list.
pub proof fn lemma_frame_list_ignores_walk_order(
    a: Seq<Seq<char>>,
    walk_a: Seq<EntryView>,
    b: Seq<Seq<char>>,
    walk_b: Seq<EntryView>,
)
    requires
        is_frame_list(a, walk_a),
        is_frame_list(b, walk_b),
        walk_a.to_multiset() == walk_b.to_multiset(),
    ensures
        a == b,
{
    lemma_same_entries_same_frames(walk_a, walk_b);
    lemma_order_is_unique(a, b);
}

/// A path is in the frame list exactly when the walk met a regular file of
/// that path and the path carries an image extension.
pub proof fn lemma_frame_list_members(frames: Seq<Seq<char>>, walk: Seq<EntryView>, p: Seq<char>)
    requires
        is_frame_list(frames, walk),
    ensures
        frames.contains(p) <==> is_image_path(p) && walk.contains(
            EntryView { path: Some(p), is_file: true },
        ),
{
    lemma_frames_among_members(walk, p);
    vstd::seq_lib::to_multiset_contains(frames, p);
    vstd::seq_lib::to_multiset_contains(frames_among(walk), p);
}

/// Every path of a frame list carries an image extension.
pub proof fn lemma_frames_are_images(frames: Seq<Seq<char>>, walk: Seq<EntryView>)
    requires
        is_frame_list(frames, walk),
    ensures
        forall|i: int| 0 <= i < frames.len() ==> is_image_path(#[trigger] frames[i]),
{
    assert forall|i: int| 0 <= i < frames.len() implies is_image_path(#[trigger] frames[i]) by {
        lemma_frame_list_members(frames, walk, frames[i]);
    }
}

/// A frame list is as long as the number of frames that the walk met; a walk
/// that met none has the empty frame list.
pub proof fn lemma_frame_list_len(frames: Seq<Seq<char>>, walk: Seq<EntryView>)
    requires
        is_frame_list(frames, walk),
    ensures
        frames.len() == frames_among(walk).len(),
        frames.len() <= walk.len(),
        (forall|i: int| 0 <= i < walk.len() ==> frame_of(#[trigger] walk[i]).is_none())
            ==> frames.len() == 0,
{
    to_multiset_len(frames);
    to_multiset_len(frames_among(walk));
    lemma_frames_among_len(walk);
}

/// Where the walk met no frame twice, the frame list is in strict order:
/// each path comes before all that follow it, and none stands twice.
pub proof fn lemma_frame_list_is_strict(frames: Seq<Seq<char>>, walk: Seq<EntryView>)
    requires
        is_frame_list(frames, walk),
        frames_among(walk).no_duplicates(),
    ensures
        strictly_in_order(frames),
{
    lemma_same_paths_same_repeats(frames_among(walk), frames);
    lemma_strict_order_is_order_without_repeats(frames);
}

/// How often a path is played on account of one entry: once if the entry is
/// a frame of that path, else not at all.
pub open spec fn plays(entry: EntryView, p: Seq<char>) -> nat {
    if frame_of(entry) == Some(p) {
        1
    } else {
        0
    }
}

/// What one entry more or less in a walk does to the frame list. Where
/// `whole` is the frame list of a walk and `rest` that of the same walk
/// without its entry `i`, each path comes in `whole` as often as in `rest`,
/// and once more if the entry is a frame of that path. So a file that went
/// away, and was met only once, is gone from the list, and the list is
/// shorter by one; an entry that is no frame changes nothing.
pub proof fn lemma_frame_list_and_one_entry(
    whole: Seq<Seq<char>>,
    rest: Seq<Seq<char>>,
    walk: Seq<EntryView>,
    i: int,
)
    requires
        0 <= i < walk.len(),
        is_frame_list(whole, walk),
        is_frame_list(rest, walk.remove(i)),
    ensures
        forall|p: Seq<char>|
            whole.to_multiset().count(p) == #[trigger] rest.to_multiset().count(p) + plays(
                walk[i],
                p,
            ),
        frame_of(walk[i]) is None ==> whole == rest,
        frame_of(walk[i]) is Some ==> whole.len() == rest.len() + 1,
        forall|p: Seq<char>|
            frame_of(walk[i]) == Some(p) && whole.to_multiset().count(p) == 1 ==> !rest.contains(p),
{
    broadcast use vstd::multiset::group_multiset_axioms;

    let one = frames_among(seq![walk[i]]);
    lemma_frames_among_without(walk, i);
    assert(seq![walk[i]].drop_last() =~= Seq::<EntryView>::empty());
    assert(frames_among(Seq::<EntryView>::empty()) =~= Seq::<Seq<char>>::empty());
    to_multiset_len(whole);
    to_multiset_len(rest);
    to_multiset_len(one);
    match frame_of(walk[i]) {
        Some(q) => {
            vstd::seq_lib::to_multiset_build(Seq::<Seq<char>>::empty(), q);
            assert forall|p: Seq<char>|
                frame_of(walk[i]) == Some(p) && whole.to_multiset().count(p) == 1 implies !rest.contains(
                p,
            ) by {
                vstd::seq_lib::to_multiset_contains(rest, p);
            }
        },
        None => {
            assert(whole.to_multiset() =~= rest.to_multiset());
            lemma_order_is_unique(whole, rest);
        },
    }
}

proof fn lemma_frames_among_len(walk: Seq<EntryView>)
    ensures
        frames_among(walk).len() <= walk.len(),
        (forall|i: int| 0 <= i < walk.len() ==> frame_of(#[trigger] walk[i]).is_none())
            ==> frames_among(walk).len() == 0,
    decreases walk.len(),
{
    if walk.len() > 0 {
        let rest = walk.drop_last();
        lemma_frames_among_len(rest);
    }
}

proof fn lemma_frames_among_members(walk: Seq<EntryView>, p: Seq<char>)
    ensures
        frames_among(walk).contains(p) <==> is_image_path(p) && walk.contains(
            EntryView { path: Some(p), is_file: true },
        ),
    decreases walk.len(),
{
    let wanted = EntryView { path: Some(p), is_file: true };
    if walk.len() > 0 {
        let rest = walk.drop_last();
        let last = walk.last();
        lemma_frames_among_members(rest, p);
        let found = frames_among(rest);
        if frames_among(walk).contains(p) {
            let k = choose|k: int| 0 <= k < frames_among(walk).len() && frames_among(walk)[k] == p;
            if k < found.len() {
                assert(found[k] == p);
                assert(found.contains(p));
                let j = choose|j: int| 0 <= j < rest.len() && rest[j] == wanted;
                assert(walk[j] == wanted);
            } else {
                assert(frame_of(last) == Some(p));
                assert(last == wanted);
                assert(walk[walk.len() - 1] == wanted);
            }
        }
        if is_image_path(p) && walk.contains(wanted) {
            let j = choose|j: int| 0 <= j < walk.len() && walk[j] == wanted;
            if j < rest.len() {
                assert(rest[j] == wanted);
                assert(rest.contains(wanted));
                let k = choose|k: int| 0 <= k < found.len() && found[k] == p;
                assert(frames_among(walk)[k] == p);
            } else {
                assert(frame_of(last) == Some(p));
                assert(frames_among(walk)[found.len() as int] == p);
            }
        }
    }
}

proof fn lemma_frames_among_concat(a: Seq<EntryView>, b: Seq<EntryView>)
    ensures
        frames_among(a + b) == frames_among(a) + frames_among(b),
    decreases b.len(),
{
    if b.len() > 0 {
        assert((a + b).drop_last() =~= a + b.drop_last());
        lemma_frames_among_concat(a, b.drop_last());
    }
}

proof fn lemma_frames_among_without(walk: Seq<EntryView>, i: int)
    requires
        0 <= i < walk.len(),
    ensures
        frames_among(walk).to_multiset() == frames_among(walk.remove(i)).to_multiset().add(
            frames_among(seq![walk[i]]).to_multiset(),
        ),
{
    broadcast use vstd::multiset::group_multiset_axioms;

    let head = walk.take(i);
    let one = seq![walk[i]];
    let tail = walk.skip(i + 1);
    assert(walk =~= (head + one) + tail);
    lemma_frames_among_concat(head + one, tail);
    lemma_frames_among_concat(head, one);
    lemma_frames_among_concat(head, tail);
    lemma_multiset_commutative(frames_among(head) + frames_among(one), frames_among(tail));
    lemma_multiset_commutative(frames_among(head), frames_among(one));
    lemma_multiset_commutative(frames_among(head), frames_among(tail));
}

proof fn lemma_same_entries_same_frames(a: Seq<EntryView>, b: Seq<EntryView>)
    requires
        a.to_multiset() == b.to_multiset(),
    ensures
        frames_among(a).to_multiset() == frames_among(b).to_multiset(),
    decreases a.len(),
{
    broadcast use vstd::multiset::group_multiset_axioms;

    to_multiset_len(a);
    to_multiset_len(b);
    if a.len() > 0 {
        let last = a.len() - 1;
        let x = a[last];
        vstd::seq_lib::to_multiset_contains(a, x);
        vstd::seq_lib::to_multiset_contains(b, x);
        let i = choose|i: int| 0 <= i < b.len() && b[i] == x;
        to_multiset_remove(a, last);
        to_multiset_remove(b, i);
        lemma_same_entries_same_frames(a.remove(last), b.remove(i));
        lemma_frames_among_without(a, last);
        lemma_frames_among_without(b, i);
    }
}

} // verus!
