//! Reacting to changes of the watched directory, and moving the watch when
//! another directory is chosen.

use vstd::prelude::*;
use crate::sequence::{is_playable, ImageSequence};

verus! {

/// The kind of a change that the watcher of a directory reports.
#[derive(Clone, Copy, Debug, PartialEq, Eq, Structural)]
pub enum ChangeKind {
    /// A change of unknown kind.
    Any,
    /// Something was opened, read or closed.
    Access,
    /// Something was created.
    Create,
    /// Something was written to, renamed, or had its metadata changed.
    Modify,
    /// Something was removed.
    Remove,
    /// A change that is none of these.
    Other,
}

/// The changes after which the frames may differ: something was created,
/// modified or removed.
pub open spec fn changes_frames(kind: ChangeKind) -> bool {
    kind is Create || kind is Modify || kind is Remove
}

/// Decides whether a reported change calls for a reload of the sequence.
pub fn calls_for_reload(kind: ChangeKind) -> (r: bool)
    ensures
        r == changes_frames(kind),
{
    match kind {
        ChangeKind::Create | ChangeKind::Modify | ChangeKind::Remove => true,
        ChangeKind::Any | ChangeKind::Access | ChangeKind::Other => false,
    }
}

/// Reacts to a reported change: where it may have changed the frames and
/// there is a sequence, the sequence is reloaded; else nothing happens. A
/// reload leaves a sequence over the same directory, with the frames that
/// the scan found, which are playable.
pub fn on_change(current: &mut Option<ImageSequence>, kind: ChangeKind)
    ensures
        !changes_frames(kind) || *old(current) is None ==> *final(current) == *old(current),
        watched_directory(*final(current)) == watched_directory(*old(current)),
        changes_frames(kind) ==> (*final(current) matches Some(sequence) ==> is_playable(
            sequence@.entries,
        )),
{
    let taken = current.take();
    match taken {
        Some(sequence) => {
            let mut sequence = sequence;
            if calls_for_reload(kind) {
                sequence.reload();
            }
            *current = Some(sequence);
        },
        None => {},
    }
}

/// One request to the watcher.
#[derive(Debug)]
pub enum WatchStep {
    /// Stop watching this directory.
    Unwatch(String),
    /// Start watching this directory.
    Watch(String),
}

/// A request to the watcher as a mathematical value.
pub enum WatchStepView {
    Unwatch(Seq<char>),
    Watch(Seq<char>),
}

impl View for WatchStep {
    type V = WatchStepView;

    open spec fn view(&self) -> WatchStepView {
        match self {
            WatchStep::Unwatch(directory) => WatchStepView::Unwatch(directory@),
            WatchStep::Watch(directory) => WatchStepView::Watch(directory@),
        }
    }
}

impl DeepView for WatchStep {
    type V = WatchStepView;

    open spec fn deep_view(&self) -> WatchStepView {
        self@
    }
}

/// The requests that move the watch to a chosen directory: the directory
/// watched so far, if there is one, is given up first, so that no change of
/// it is reported any more once the new one is watched.
pub open spec fn steps_to_watch(watched: Option<Seq<char>>, chosen: Seq<char>) -> Seq<
    WatchStepView,
> {
    match watched {
        Some(old) => seq![WatchStepView::Unwatch(old), WatchStepView::Watch(chosen)],
        None => seq![WatchStepView::Watch(chosen)],
    }
}

/// The directory of the current sequence, if there is a sequence.
pub open spec fn watched_directory(current: Option<ImageSequence>) -> Option<Seq<char>> {
    match current {
        Some(sequence) => Some(sequence@.directory),
        None => None,
    }
}

/// Plans the requests to the watcher for a newly chosen directory, in the
/// order in which they are to be made.
pub fn plan_watch(current: &Option<ImageSequence>, chosen: &str) -> (steps: Vec<WatchStep>)
    ensures
        steps.deep_view() == steps_to_watch(watched_directory(*current), chosen@),
{
    let mut steps: Vec<WatchStep> = Vec::new();
    match current {
        Some(sequence) => {
            steps.push(WatchStep::Unwatch(sequence.directory().to_owned()));
        },
        None => {},
    }
    steps.push(WatchStep::Watch(chosen.to_owned()));
    steps
}

/// Every request that was made was granted.
pub open spec fn all_granted(answers: Seq<bool>) -> bool {
    forall|i: int| 0 <= i < answers.len() ==> answers[i]
}

/// The request to make next, by its place in the plan: the one after those
/// that were answered, as long as each of them was granted and the plan is
/// not through. After a refusal no further request is made.
pub open spec fn request_after(answers: Seq<bool>, planned: nat) -> Option<nat> {
    if answers.len() < planned && all_granted(answers) {
        Some(answers.len())
    } else {
        None
    }
}

/// Tells which request of a plan of `planned` requests is to be made next,
/// given the watcher's answers to those made so far, in their order: `true`
/// for a request that it granted.
pub fn next_request(answers: &Vec<bool>, planned: usize) -> (next: Option<usize>)
    ensures
        match next {
            Some(i) => request_after(answers@, planned as nat) == Some(i as nat),
            None => request_after(answers@, planned as nat) is None,
        },
{
    if answers.len() < planned && granted_all(answers) {
        Some(answers.len())
    } else {
        None
    }
}

/// Tells whether the watch was moved: every request of the plan was made,
/// and the watcher granted each.
pub fn watch_was_moved(answers: &Vec<bool>, planned: usize) -> (moved: bool)
    ensures
        moved == (answers@.len() == planned && all_granted(answers@)),
{
    answers.len() == planned && granted_all(answers)
}

/// Decides `all_granted`.
fn granted_all(answers: &Vec<bool>) -> (r: bool)
    ensures
        r == all_granted(answers@),
{
    let mut i: usize = 0;
    while i < answers.len()
        invariant
            i <= answers.len(),
            forall|j: int| 0 <= j < i ==> answers@[j],
        decreases answers.len() - i,
    {
        if !answers[i] {
            return false;
        }
        i += 1;
    }
    true
}

/// Settles the choice of a directory once the watcher has answered. Where
/// the watch was moved, the new sequence over the chosen directory, freshly
/// scanned, takes the place of the current one. Where the watcher refused,
/// the current one stays as it is.
pub fn settle_choice(current: Option<ImageSequence>, chosen: &str, watching: bool) -> (settled:
    Option<ImageSequence>)
    ensures
        !watching ==> settled == current,
        watching ==> (settled matches Some(sequence) && sequence@.directory == chosen@
            && is_playable(sequence@.entries)),
{
    if watching {
        let mut sequence = ImageSequence::new(chosen);
        sequence.reload();
        Some(sequence)
    } else {
        current
    }
}

} // verus!
