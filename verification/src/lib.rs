//! A directory of images as an ordered sequence of frames.
//!
//! The crate models a flip-book: a root directory is walked, the image files
//! under it are put into one fixed order, and frames are fetched by index for
//! playback. The functions carry contracts that Verus proves. Two calls
//! leave the crate, the walk of the directory tree and the decoding of an
//! image file; nothing is claimed of what they hand back, and what is done
//! with it is proved for every answer they may give.

pub mod decode;
pub mod extension;
pub mod lexical;
pub mod playback;
pub mod scan;
pub mod sequence;
pub mod sorting;
pub mod watch;
