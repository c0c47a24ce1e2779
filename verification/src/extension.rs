//! File-name extensions, and which of them mark an image.

use vstd::prelude::*;
use vstd::string::StringSliceAdditionalSpecFns;
use vstd::utf8::is_ascii_chars_encode_utf8;
use crate::lexical::path_bytes;

verus! {

/// The byte that separates the components of a path, `/`.
pub const SEPARATOR: u8 = 0x2f;

/// The byte that introduces an extension, `.`.
pub const DOT: u8 = 0x2e;

/// `d` is where the extension of `path` begins: a dot inside the last
/// component, with no dot after it and something of that component before it.
/// A name such as `.png`, whose only dot comes first, has no such index.
pub open spec fn is_extension_dot(path: Seq<u8>, d: int) -> bool {
    &&& 0 < d < path.len()
    &&& path[d] == DOT
    &&& path[d - 1] != SEPARATOR
    &&& forall|j: int| d < j < path.len() ==> path[j] != DOT && path[j] != SEPARATOR
}

/// The extension of a path: what follows the last dot of its last component,
/// if that component has one that is not its first byte.
pub open spec fn extension_of(path: Seq<u8>) -> Option<Seq<u8>> {
    if exists|d: int| is_extension_dot(path, d) {
        Some(path.skip((choose|d: int| is_extension_dot(path, d)) + 1))
    } else {
        None
    }
}

/// The extensions of the image formats that can be played: `png`, `jpg` and
/// `jpeg`, in exactly this spelling.
pub open spec fn is_image_extension(ext: Seq<u8>) -> bool {
    ||| ext == path_bytes("png"@)
    ||| ext == path_bytes("jpg"@)
    ||| ext == path_bytes("jpeg"@)
}

/// A path names an image when it has an extension and that extension is one
/// of the image extensions.
pub open spec fn is_image_path(path: Seq<char>) -> bool {
    match extension_of(path_bytes(path)) {
        Some(ext) => is_image_extension(ext),
        None => false,
    }
}

/// A path has at most one index at which its extension begins.
pub proof fn lemma_extension_dot_unique(path: Seq<u8>, d1: int, d2: int)
    requires
        is_extension_dot(path, d1),
        is_extension_dot(path, d2),
    ensures
        d1 == d2,
{
}

/// The image extensions, byte by byte. None of them holds a dot or a
/// separator.
pub proof fn lemma_image_extension_bytes()
    ensures
        path_bytes("png"@) == seq![0x70u8, 0x6e, 0x67],
        path_bytes("jpg"@) == seq![0x6au8, 0x70, 0x67],
        path_bytes("jpeg"@) == seq![0x6au8, 0x70, 0x65, 0x67],
        forall|ext: Seq<u8>, j: int|
            is_image_extension(ext) && 0 <= j < ext.len() ==> #[trigger] ext[j] != DOT && ext[j]
                != SEPARATOR,
{
    reveal_strlit("png");
    reveal_strlit("jpg");
    reveal_strlit("jpeg");
    is_ascii_chars_encode_utf8("png"@);
    is_ascii_chars_encode_utf8("jpg"@);
    is_ascii_chars_encode_utf8("jpeg"@);
}

/// A path has the extension `ext`, where `ext` holds no dot and no
/// separator, exactly when it reads: a stem that is not empty and does not
/// end in a separator, then a dot, then `ext`.
pub proof fn lemma_extension_is_what_follows_the_stem(path: Seq<u8>, ext: Seq<u8>)
    requires
        forall|j: int| 0 <= j < ext.len() ==> ext[j] != DOT && ext[j] != SEPARATOR,
    ensures
        extension_of(path) == Some(ext) <==> exists|stem: Seq<u8>|
            stem.len() > 0 && stem.last() != SEPARATOR && path == #[trigger] (stem + seq![DOT])
                + ext,
{
    if extension_of(path) == Some(ext) {
        let d = choose|d: int| is_extension_dot(path, d);
        let stem = path.take(d);
        assert(path =~= (stem + seq![DOT]) + ext);
    }
    if exists|stem: Seq<u8>|
        stem.len() > 0 && stem.last() != SEPARATOR && path == #[trigger] (stem + seq![DOT]) + ext {
        let stem = choose|stem: Seq<u8>|
            stem.len() > 0 && stem.last() != SEPARATOR && path == #[trigger] (stem + seq![DOT])
                + ext;
        let d = stem.len() as int;
        assert(is_extension_dot(path, d));
        assert(path.skip(d + 1) =~= ext);
    }
}

/// A path names an image exactly when it reads: a stem that is not empty and
/// does not end in a separator, then a dot, then an image extension.
pub proof fn lemma_image_path_is_stem_dot_extension(path: Seq<char>)
    ensures
        is_image_path(path) <==> exists|stem: Seq<u8>, ext: Seq<u8>|
            is_image_extension(ext) && stem.len() > 0 && stem.last() != SEPARATOR && path_bytes(
                path,
            ) == #[trigger] ((stem + seq![DOT]) + ext),
{
    lemma_image_extension_bytes();
    let bytes = path_bytes(path);
    if is_image_path(path) {
        let ext = extension_of(bytes)->0;
        lemma_extension_is_what_follows_the_stem(bytes, ext);
    }
    if exists|stem: Seq<u8>, ext: Seq<u8>|
        is_image_extension(ext) && stem.len() > 0 && stem.last() != SEPARATOR && bytes
            == #[trigger] ((stem + seq![DOT]) + ext) {
        let (stem, ext) = choose|stem: Seq<u8>, ext: Seq<u8>|
            is_image_extension(ext) && stem.len() > 0 && stem.last() != SEPARATOR && bytes
                == #[trigger] ((stem + seq![DOT]) + ext);
        lemma_extension_is_what_follows_the_stem(bytes, ext);
    }
}

/// Finds where the extension of `path` starts: the index after its dot.
pub fn extension_start(path: &[u8]) -> (start: Option<usize>)
    ensures
        match start {
            Some(s) => 0 < s <= path@.len() && is_extension_dot(path@, s - 1) && extension_of(
                path@,
            ) == Some(path@.skip(s as int)),
            None => extension_of(path@) is None,
        },
{
    let mut i: usize = path.len();
    while i > 0
        invariant
            i <= path@.len(),
            forall|j: int| i <= j < path@.len() ==> path@[j] != DOT && path@[j] != SEPARATOR,
        decreases i,
    {
        let byte: u8 = path[i - 1];
        if byte == SEPARATOR {
            return None;
        }
        if byte == DOT {
            if i >= 2 && path[i - 2] != SEPARATOR {
                proof {
                    assert(is_extension_dot(path@, i - 1));
                }
                return Some(i);
            }
            return None;
        }
        i -= 1;
    }
    None
}

/// Tells whether the bytes of `path` from `start` on are exactly `word`.
pub fn tail_is(path: &[u8], start: usize, word: &[u8]) -> (r: bool)
    requires
        start <= path@.len(),
    ensures
        r == (path@.skip(start as int) == word@),
{
    if path.len() - start != word.len() {
        return false;
    }
    let mut i: usize = 0;
    while i < word.len()
        invariant
            start <= path@.len(),
            path@.len() - start == word@.len(),
            path@.len() <= usize::MAX,
            i <= word@.len(),
            forall|j: int| 0 <= j < i ==> path@[start + j] == word@[j],
        decreases word.len() - i,
    {
        if path[start + i] != word[i] {
            return false;
        }
        i += 1;
    }
    proof {
        assert(path@.skip(start as int) =~= word@);
    }
    true
}

/// Decides whether a path names an image.
pub fn has_image_extension(path: &str) -> (r: bool)
    ensures
        r == is_image_path(path@),
{
    let bytes = path.as_bytes();
    match extension_start(bytes) {
        None => false,
        Some(start) => {
            tail_is(bytes, start, "png".as_bytes()) || tail_is(bytes, start, "jpg".as_bytes())
                || tail_is(bytes, start, "jpeg".as_bytes())
        },
    }
}

} // verus!
