//! The image sequence: a directory and the frames last found under it.

use vstd::prelude::*;
use crate::decode::{
    checked_image, decode_pixels, image_from_raw, raw_view, DecodeError, DecodeErrorView,
    DecodedImage, ImageView,
};
use crate::extension::is_image_path;
use crate::scan::{
    frames_among, is_frame_list, lemma_frame_list_is_strict, lemma_frames_are_images,
    select_frames, walk, WalkedEntry,
};
use crate::sorting::{in_order, strictly_in_order};

verus! {

/// A directory of images, played as the frames of a flip-book.
///
/// The directory is fixed when the sequence is made. The frames are those of
/// the last reload; until the first one there are none.
#[derive(Debug)]
pub struct ImageSequence {
    directory: String,
    images: Vec<String>,
}

/// An image sequence as a mathematical value.
pub struct SequenceView {
    /// The root of the tree that is scanned.
    pub directory: Seq<char>,
    /// The paths of the frames, in the order in which they are played.
    pub entries: Seq<Seq<char>>,
}

/// What holds of the frames of every sequence: they stand in playing order,
/// and each of them carries an image extension.
pub open spec fn is_playable(entries: Seq<Seq<char>>) -> bool {
    &&& in_order(entries)
    &&& forall|i: int| 0 <= i < entries.len() ==> is_image_path(#[trigger] entries[i])
}

/// What became of a frame's file, as a mathematical value: `None` where it
/// could not be read, else the decoder's answer to its bytes.
pub open spec fn answer_view(raw: Option<Result<(usize, usize, Vec<u8>), String>>) -> Option<
    Result<(usize, usize, Seq<u8>), Seq<char>>,
> {
    match raw {
        Some(answer) => Some(raw_view(answer)),
        None => None,
    }
}

/// What loading a frame gives: nothing from the frame count on; below it, an
/// error where the frame's file was not read or the decoder's answer is no
/// frame; else the frame that the answer stands for.
pub open spec fn frame_outcome(
    count: nat,
    frame: nat,
    raw: Option<Result<(usize, usize, Seq<u8>), Seq<char>>>,
) -> Result<Option<ImageView>, DecodeErrorView> {
    if frame >= count {
        Ok(None)
    } else {
        match raw {
            None => Err(DecodeErrorView::Unreadable),
            Some(answer) => match checked_image(answer) {
                Ok(image) => Ok(Some(image)),
                Err(error) => Err(error),
            },
        }
    }
}

/// The result of loading a frame, as a mathematical value.
pub open spec fn loaded_view(loaded: Result<Option<DecodedImage>, DecodeError>) -> Result<
    Option<ImageView>,
    DecodeErrorView,
> {
    match loaded {
        Ok(Some(image)) => Ok(Some(image@)),
        Ok(None) => Ok(None),
        Err(error) => Err(error@),
    }
}

impl View for ImageSequence {
    type V = SequenceView;

    closed spec fn view(&self) -> SequenceView {
        SequenceView { directory: self.directory@, entries: self.images.deep_view() }
    }
}

impl ImageSequence {
    #[verifier::type_invariant]
    spec fn frames_are_playable(&self) -> bool {
        is_playable(self.images.deep_view())
    }

    /// A sequence over `directory`, with no frames yet: the directory is not
    /// scanned before the first reload.
    pub fn new(directory: &str) -> (sequence: ImageSequence)
        ensures
            sequence@.directory == directory@,
            sequence@.entries.len() == 0,
    {
        let images: Vec<String> = Vec::new();
        ImageSequence { directory: directory.to_owned(), images }
    }

    /// The directory that this sequence scans.
    pub fn directory(&self) -> (directory: &str)
        ensures
            directory@ == self@.directory,
    {
        self.directory.as_str()
    }

    /// The paths of the frames, in playing order.
    pub fn images(&self) -> (images: &Vec<String>)
        ensures
            images.deep_view() == self@.entries,
            is_playable(self@.entries),
    {
        proof {
            use_type_invariant(self);
        }
        &self.images
    }

    /// The number of frames.
    pub fn frame_count(&self) -> (count: usize)
        ensures
            count == self@.entries.len(),
    {
        self.images.len()
    }

    /// Replaces the frames by the frame list of what a walk of the directory
    /// found. The directory stays. Where the walk met no frame twice, the
    /// frames stand in strict order.
    pub fn reload_from(&mut self, found: &Vec<WalkedEntry>)
        ensures
            final(self)@.directory == old(self)@.directory,
            is_frame_list(final(self)@.entries, found.deep_view()),
            is_playable(final(self)@.entries),
            frames_among(found.deep_view()).no_duplicates() ==> strictly_in_order(
                final(self)@.entries,
            ),
    {
        let frames = select_frames(found);
        proof {
            lemma_frames_are_images(frames.deep_view(), found.deep_view());
            if frames_among(found.deep_view()).no_duplicates() {
                lemma_frame_list_is_strict(frames.deep_view(), found.deep_view());
            }
        }
        self.images = frames;
    }

    /// Scans the directory again and replaces the frames by what is there
    /// now. The directory stays; a directory that cannot be read leaves the
    /// sequence without frames.
    pub fn reload(&mut self)
        ensures
            final(self)@.directory == old(self)@.directory,
            is_playable(final(self)@.entries),
    {
        let found = walk(self.directory.as_str());
        self.reload_from(&found);
    }

    /// The path of a frame; `None` from the frame count on.
    pub fn frame_path(&self, frame: usize) -> (path: Option<&str>)
        ensures
            match path {
                Some(p) => frame < self@.entries.len() && p@ == self@.entries[frame as int],
                None => frame >= self@.entries.len(),
            },
    {
        if frame < self.images.len() {
            Some(self.images[frame].as_str())
        } else {
            None
        }
    }

    /// Loads a frame from the bytes read from its file: `contents` holds what
    /// was read at `frame_path(frame)`, or `None` if that file could not be
    /// read. From the frame count on there is no frame, whatever `contents`
    /// holds, and that is no error. Below it, a file that was not read is an
    /// error; one that was read is handed to the decoder, and gives a frame
    /// filled by its pixels or the decoder's error.
    pub fn load_frame(&self, frame: usize, contents: Option<&[u8]>) -> (loaded: Result<
        Option<DecodedImage>,
        DecodeError,
    >)
        ensures
            frame >= self@.entries.len() ==> loaded_view(loaded) == Ok::<
                Option<ImageView>,
                DecodeErrorView,
            >(None),
            frame < self@.entries.len() && contents is None ==> loaded_view(loaded) == Err::<
                Option<ImageView>,
                DecodeErrorView,
            >(DecodeErrorView::Unreadable),
            frame < self@.entries.len() && contents is Some ==> match loaded {
                Ok(Some(image)) => image@.is_filled(),
                Ok(None) => false,
                Err(error) => !(error@ is Unreadable),
            },
    {
        let count = self.images.len();
        if frame >= count {
            return Ok(None);
        }
        let raw = match contents {
            None => None,
            Some(bytes) => Some(decode_pixels(bytes)),
        };
        frame_from_raw(count, frame, raw)
    }
}

/// Settles what loading frame `frame` of `count` frames gives, from what
/// became of the frame's file: `raw` is `None` where the file could not be
/// read, else the decoder's answer to its bytes.
pub fn frame_from_raw(
    count: usize,
    frame: usize,
    raw: Option<Result<(usize, usize, Vec<u8>), String>>,
) -> (loaded: Result<Option<DecodedImage>, DecodeError>)
    ensures
        loaded_view(loaded) == frame_outcome(count as nat, frame as nat, answer_view(raw)),
{
    if frame >= count {
        return Ok(None);
    }
    match raw {
        None => Err(DecodeError::Unreadable),
        Some(answer) => match image_from_raw(answer) {
            Ok(image) => Ok(Some(image)),
            Err(error) => Err(error),
        },
    }
}

/// From the frame count on there is no frame, and below it there is always
/// a frame or an error: "no frame" is the answer exactly at and past the end.
pub proof fn lemma_frames_end_at_the_count(
    count: nat,
    frame: nat,
    raw: Option<Result<(usize, usize, Seq<u8>), Seq<char>>>,
)
    ensures
        frame_outcome(count, frame, raw) == Ok::<Option<ImageView>, DecodeErrorView>(None)
            <==> frame >= count,
{
}

/// A sequence without frames has no frame at any index, and asking for one
/// is no error.
pub proof fn lemma_no_frames_no_frame(
    frame: nat,
    raw: Option<Result<(usize, usize, Seq<u8>), Seq<char>>>,
)
    ensures
        frame_outcome(0, frame, raw) == Ok::<Option<ImageView>, DecodeErrorView>(None),
{
}

/// An error comes only from the file of the frame that is asked for: the
/// index names a frame, and that frame's file was not read or the decoder's
/// answer to it is no frame. What the files of the other frames hold plays
/// no part.
pub proof fn lemma_errors_are_the_frames_own(
    count: nat,
    frame: nat,
    raw: Option<Result<(usize, usize, Seq<u8>), Seq<char>>>,
)
    ensures
        frame_outcome(count, frame, raw) is Err <==> frame < count && match raw {
            None => true,
            Some(answer) => checked_image(answer) is Err,
        },
{
}

/// A frame that loading gives is filled by its pixels, and an error that it
/// gives for a file that was read is not that the file was unreadable.
pub proof fn lemma_loaded_frames_are_filled(
    count: nat,
    frame: nat,
    raw: Option<Result<(usize, usize, Seq<u8>), Seq<char>>>,
)
    ensures
        frame_outcome(count, frame, raw) matches Ok(Some(image)) ==> image.is_filled(),
        raw is Some ==> frame_outcome(count, frame, raw) != Err::<
            Option<ImageView>,
            DecodeErrorView,
        >(DecodeErrorView::Unreadable),
{
}

impl Default for ImageSequence {
    /// The sequence over the empty path, with no frames.
    fn default() -> (sequence: ImageSequence)
        ensures
            sequence@.directory.len() == 0,
            sequence@.entries.len() == 0,
    {
        ImageSequence { directory: String::new(), images: Vec::new() }
    }
}

} // verus!
