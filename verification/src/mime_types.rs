//! Media types by file extension.

use crate::bytes::ascii_chars;
use crate::path::slash;
use crate::text::{append_str, chars_of, lower_seq, same, to_lower};
use vstd::prelude::*;
use vstd::slice::slice_subrange;

verus! {

/// Index of the last occurrence of `c` in `s`, or -1 where there is none.
pub open spec fn last_index<T>(s: Seq<T>, c: T) -> int
    decreases s.len(),
{
    if s.len() == 0 {
        -1
    } else if s.last() == c {
        s.len() - 1
    } else {
        last_index(s.drop_last(), c)
    }
}

/// An index at which `c` stands and after which it does not occur is the
/// last index of `c`; so is -1 where `c` does not occur at all.
pub proof fn lemma_last_index_is<T>(s: Seq<T>, c: T, i: int)
    requires
        -1 <= i < s.len(),
        forall|j: int| i < j < s.len() ==> s[j] != c,
        i >= 0 ==> s[i] == c,
    ensures
        last_index(s, c) == i,
    decreases s.len(),
{
    if s.len() > 0 && i < s.len() - 1 {
        lemma_last_index_is(s.drop_last(), c, i);
    }
}

/// The last name of a path: what follows its last `/`.
pub open spec fn file_name(path: Seq<u8>) -> Seq<u8> {
    path.skip(last_index(path, slash()) + 1)
}

/// The extension of the file that `path` names: what follows the last `.`
/// of the file name, unless the name has no `.` or only starts with one.
pub open spec fn extension(path: Seq<u8>) -> Option<Seq<u8>> {
    let name = file_name(path);
    let at = last_index(name, 0x2eu8);
    if at <= 0 {
        None
    } else {
        Some(name.skip(at + 1))
    }
}

/// The media type of files whose content is not known.
pub open spec fn octet_stream() -> Seq<char> {
    "application/octet-stream"@
}

/// The media type that goes with a file extension, given in lower case.
pub open spec fn media_type(ext: Seq<char>) -> Seq<char> {
    if ext == "html"@ || ext == "htm"@ {
        "text/html"@
    } else if ext == "css"@ {
        "text/css"@
    } else if ext == "js"@ || ext == "mjs"@ {
        "text/javascript"@
    } else if ext == "json"@ || ext == "map"@ {
        "application/json"@
    } else if ext == "txt"@ {
        "text/plain"@
    } else if ext == "xml"@ {
        "text/xml"@
    } else if ext == "csv"@ {
        "text/csv"@
    } else if ext == "md"@ {
        "text/markdown"@
    } else if ext == "xhtml"@ {
        "application/xhtml+xml"@
    } else if ext == "atom"@ {
        "application/atom+xml"@
    } else if ext == "rss"@ {
        "application/rss+xml"@
    } else if ext == "webmanifest"@ {
        "application/manifest+json"@
    } else if ext == "svg"@ {
        "image/svg+xml"@
    } else if ext == "png"@ {
        "image/png"@
    } else if ext == "jpg"@ || ext == "jpeg"@ {
        "image/jpeg"@
    } else if ext == "gif"@ {
        "image/gif"@
    } else if ext == "webp"@ {
        "image/webp"@
    } else if ext == "avif"@ {
        "image/avif"@
    } else if ext == "bmp"@ {
        "image/bmp"@
    } else if ext == "ico"@ {
        "image/x-icon"@
    } else if ext == "woff"@ {
        "font/woff"@
    } else if ext == "woff2"@ {
        "font/woff2"@
    } else if ext == "ttf"@ {
        "font/ttf"@
    } else if ext == "otf"@ {
        "font/otf"@
    } else if ext == "pdf"@ {
        "application/pdf"@
    } else if ext == "zip"@ {
        "application/zip"@
    } else if ext == "gz"@ {
        "application/gzip"@
    } else if ext == "wasm"@ {
        "application/wasm"@
    } else if ext == "mp3"@ {
        "audio/mpeg"@
    } else if ext == "ogg"@ {
        "audio/ogg"@
    } else if ext == "wav"@ {
        "audio/wav"@
    } else if ext == "mp4"@ {
        "video/mp4"@
    } else if ext == "webm"@ {
        "video/webm"@
    } else {
        octet_stream()
    }
}

/// The media type of the file that `path` names, by its extension; letter
/// case in the extension does not count.
pub open spec fn media_type_of(path: Seq<u8>) -> Seq<char> {
    match extension(path) {
        Some(ext) => media_type(lower_seq(ascii_chars(ext))),
        None => octet_stream(),
    }
}

/// Index of the last byte `c` in `v`, if there is one.
fn find_last_byte(v: &[u8], c: u8) -> (r: Option<usize>)
    ensures
        match r {
            Some(i) => last_index(v@, c) == i && i < v.len(),
            None => last_index(v@, c) == -1,
        },
{
    let mut i: usize = v.len();
    while i > 0 && v[i - 1] != c
        invariant
            i <= v.len(),
            forall|j: int| i <= j < v.len() ==> v@[j] != c,
        decreases i,
    {
        i -= 1;
    }
    proof {
        lemma_last_index_is(v@, c, i as int - 1);
    }
    if i == 0 {
        None
    } else {
        Some(i - 1)
    }
}

/// Whether `ext` is the extension `name`.
fn is(ext: &[char], name: &str) -> (r: bool)
    ensures
        r == (ext@ == name@),
{
    let n = chars_of(name);
    same(ext, n.as_slice())
}

/// Executable form of [`media_type`].
fn lookup(ext: &[char]) -> (r: &'static str)
    ensures
        r@ == media_type(ext@),
{
    if is(ext, "html") || is(ext, "htm") {
        "text/html"
    } else if is(ext, "css") {
        "text/css"
    } else if is(ext, "js") || is(ext, "mjs") {
        "text/javascript"
    } else if is(ext, "json") || is(ext, "map") {
        "application/json"
    } else if is(ext, "txt") {
        "text/plain"
    } else if is(ext, "xml") {
        "text/xml"
    } else if is(ext, "csv") {
        "text/csv"
    } else if is(ext, "md") {
        "text/markdown"
    } else if is(ext, "xhtml") {
        "application/xhtml+xml"
    } else if is(ext, "atom") {
        "application/atom+xml"
    } else if is(ext, "rss") {
        "application/rss+xml"
    } else if is(ext, "webmanifest") {
        "application/manifest+json"
    } else if is(ext, "svg") {
        "image/svg+xml"
    } else if is(ext, "png") {
        "image/png"
    } else if is(ext, "jpg") || is(ext, "jpeg") {
        "image/jpeg"
    } else if is(ext, "gif") {
        "image/gif"
    } else if is(ext, "webp") {
        "image/webp"
    } else if is(ext, "avif") {
        "image/avif"
    } else if is(ext, "bmp") {
        "image/bmp"
    } else if is(ext, "ico") {
        "image/x-icon"
    } else if is(ext, "woff") {
        "font/woff"
    } else if is(ext, "woff2") {
        "font/woff2"
    } else if is(ext, "ttf") {
        "font/ttf"
    } else if is(ext, "otf") {
        "font/otf"
    } else if is(ext, "pdf") {
        "application/pdf"
    } else if is(ext, "zip") {
        "application/zip"
    } else if is(ext, "gz") {
        "application/gzip"
    } else if is(ext, "wasm") {
        "application/wasm"
    } else if is(ext, "mp3") {
        "audio/mpeg"
    } else if is(ext, "ogg") {
        "audio/ogg"
    } else if is(ext, "wav") {
        "audio/wav"
    } else if is(ext, "mp4") {
        "video/mp4"
    } else if is(ext, "webm") {
        "video/webm"
    } else {
        "application/octet-stream"
    }
}

/// The media type of the file that `path` names, by its extension.
pub fn media_type_for(path: &[u8]) -> (r: Vec<char>)
    ensures
        r@ == media_type_of(path@),
{
    let mut r: Vec<char> = Vec::new();
    let start = match find_last_byte(path, 0x2f) {
        Some(i) => i + 1,
        None => 0,
    };
    let name = slice_subrange(path, start, path.len());
    assert(name@ == file_name(path@));
    let at = match find_last_byte(name, 0x2e) {
        Some(i) => i,
        None => 0,
    };
    if at == 0 {
        append_str(&mut r, "application/octet-stream");
        return r;
    }
    let ext = slice_subrange(name, at + 1, name.len());
    assert(ext@ == name@.skip(at + 1));
    let mut lowered: Vec<char> = Vec::new();
    let mut i: usize = 0;
    while i < ext.len()
        invariant
            i <= ext.len(),
            lowered@.len() == i,
            forall|j: int| 0 <= j < i ==> lowered@[j] == crate::text::lower(ext@[j] as char),
        decreases ext.len() - i,
    {
        lowered.push(to_lower(ext[i] as char));
        i += 1;
    }
    assert(lowered@ == lower_seq(ascii_chars(ext@)));
    append_str(&mut r, lookup(lowered.as_slice()));
    r
}

} // verus!
