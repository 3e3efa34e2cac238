//! Mapping between URL paths and file system paths below a root directory.
//!
//! File system paths are byte strings with `/` as the separator. Resolution
//! has two halves around one file system lookup: [`resolve_uri`] turns the
//! URL path into the path to look up, and [`confine`] accepts what the file
//! system made of it only if it still lies below the root.

use crate::bytes::{ascii_chars, ascii_string, bytes_start_with, find_byte};
use crate::text::{append, lemma_first_index, split, starts_with};
use vstd::prelude::*;
use vstd::slice::slice_subrange;
use vstd::string::StringSliceAdditionalSpecFns;

verus! {

/// Why a file system lookup failed.
#[derive(Debug, Clone, Copy, PartialEq, Eq, Structural)]
pub enum FsError {
    /// There is no such entry.
    NotFound,
    /// The entry exists but may not be read.
    PermissionDenied,
    /// Any other I/O failure.
    Other,
}

/// Why a URL path could not be resolved to a file.
#[derive(Debug, Clone, Copy, PartialEq, Eq, Structural)]
pub enum PathError {
    /// The URL path is not well formed: it does not start with `/`, holds a
    /// broken percent escape or encodes a NUL byte.
    Malformed,
    /// The path leads out of the root directory.
    Escape,
    /// Nothing exists at the path.
    NotFound,
    /// The file system denied access.
    PermissionDenied,
    /// Any other I/O failure.
    Other,
}

impl PathError {
    /// The HTTP status that reports this error.
    pub open spec fn status_spec(self) -> u16 {
        match self {
            PathError::Malformed => 400,
            PathError::Escape => 400,
            PathError::NotFound => 404,
            PathError::PermissionDenied => 403,
            PathError::Other => 500,
        }
    }

    /// The HTTP status that reports this error.
    pub fn status(self) -> (r: u16)
        ensures
            r == self.status_spec(),
    {
        match self {
            PathError::Malformed => 400,
            PathError::Escape => 400,
            PathError::NotFound => 404,
            PathError::PermissionDenied => 403,
            PathError::Other => 500,
        }
    }

    /// The resolution error that a failed lookup amounts to.
    pub open spec fn of_fs(e: FsError) -> PathError {
        match e {
            FsError::NotFound => PathError::NotFound,
            FsError::PermissionDenied => PathError::PermissionDenied,
            FsError::Other => PathError::Other,
        }
    }

    /// The resolution error that a failed lookup amounts to.
    pub fn from_fs(e: FsError) -> (r: PathError)
        ensures
            r == PathError::of_fs(e),
    {
        match e {
            FsError::NotFound => PathError::NotFound,
            FsError::PermissionDenied => PathError::PermissionDenied,
            FsError::Other => PathError::Other,
        }
    }
}

/// The path separator, `/`.
pub open spec fn slash() -> u8 {
    0x2f
}

/// The percent sign.
pub open spec fn percent() -> u8 {
    0x25
}

/// The value of a hexadecimal digit, in either case.
pub open spec fn hex_value(b: u8) -> Option<u8> {
    if 0x30 <= b && b <= 0x39 {
        Some((b - 0x30) as u8)
    } else if 0x41 <= b && b <= 0x46 {
        Some((b - 0x41 + 10) as u8)
    } else if 0x61 <= b && b <= 0x66 {
        Some((b - 0x61 + 10) as u8)
    } else {
        None
    }
}

/// Executable form of [`hex_value`].
pub fn hex_digit(b: u8) -> (r: Option<u8>)
    ensures
        r == hex_value(b),
{
    if 0x30 <= b && b <= 0x39 {
        Some(b - 0x30)
    } else if 0x41 <= b && b <= 0x46 {
        Some(b - 0x41 + 10)
    } else if 0x61 <= b && b <= 0x66 {
        Some(b - 0x61 + 10)
    } else {
        None
    }
}

/// Whether `s` starts with a percent sign and two hexadecimal digits.
pub open spec fn escape_at_start(s: Seq<u8>) -> bool {
    s.len() >= 3 && s[0] == percent() && hex_value(s[1]).is_some() && hex_value(s[2]).is_some()
}

/// The byte that the escape at the start of `s` stands for.
pub open spec fn escaped_byte(s: Seq<u8>) -> u8 {
    (hex_value(s[1]).unwrap() * 16 + hex_value(s[2]).unwrap()) as u8
}

/// `s` with every percent escape replaced by the byte it stands for, or
/// `None` where a percent sign is not followed by two hexadecimal digits.
pub open spec fn percent_decoded(s: Seq<u8>) -> Option<Seq<u8>>
    decreases s.len(),
{
    if s.len() == 0 {
        Some(Seq::empty())
    } else if s[0] == percent() {
        if escape_at_start(s) {
            match percent_decoded(s.skip(3)) {
                Some(rest) => Some(seq![escaped_byte(s)] + rest),
                None => None,
            }
        } else {
            None
        }
    } else {
        match percent_decoded(s.skip(1)) {
            Some(rest) => Some(seq![s[0]] + rest),
            None => None,
        }
    }
}

/// Executable form of [`percent_decoded`].
pub fn percent_decode(v: &[u8]) -> (r: Option<Vec<u8>>)
    ensures
        match r {
            Some(d) => percent_decoded(v@) == Some(d@),
            None => percent_decoded(v@).is_none(),
        },
{
    let mut out: Vec<u8> = Vec::new();
    let mut i: usize = 0;
    assert(v@.skip(0) == v@);
    while i < v.len()
        invariant
            i <= v.len(),
            percent_decoded(v@) == match percent_decoded(v@.skip(i as int)) {
                Some(rest) => Some(out@ + rest),
                None => None,
            },
        decreases v.len() - i,
    {
        let ghost rest = v@.skip(i as int);
        let ghost before = out@;
        if v[i] == 0x25 {
            if v.len() - i < 3 {
                return None;
            }
            let hi = match hex_digit(v[i + 1]) {
                Some(x) => x,
                None => {
                    return None;
                },
            };
            let lo = match hex_digit(v[i + 2]) {
                Some(x) => x,
                None => {
                    return None;
                },
            };
            out.push(hi * 16 + lo);
            i += 3;
            proof {
                assert(rest.skip(3) == v@.skip(i as int));
                match percent_decoded(rest.skip(3)) {
                    Some(tail) => {
                        assert(before + (seq![escaped_byte(rest)] + tail) == out@ + tail);
                    },
                    None => {},
                }
            }
        } else {
            out.push(v[i]);
            i += 1;
            proof {
                assert(rest.skip(1) == v@.skip(i as int));
                match percent_decoded(rest.skip(1)) {
                    Some(tail) => {
                        assert(before + (seq![rest[0]] + tail) == out@ + tail);
                    },
                    None => {},
                }
            }
        }
    }
    assert(out@ + Seq::<u8>::empty() == out@);
    Some(out)
}

/// The segment `.`, which stands for the directory itself.
pub open spec fn dot() -> Seq<u8> {
    seq![0x2eu8]
}

/// The segment `..`, which stands for the parent directory.
pub open spec fn dot_dot() -> Seq<u8> {
    seq![0x2eu8, 0x2eu8]
}

/// Whether a segment names an entry, rather than being empty, `.` or `..`.
pub open spec fn is_name(seg: Seq<u8>) -> bool {
    seg.len() > 0 && seg != dot() && seg != dot_dot()
}

/// Walks the segments of a URL path from the directory `stack` (the names
/// below the root): empty segments and `.` stay, `..` goes up, a name goes
/// down. `None` where `..` would go above the root.
pub open spec fn collapse(segs: Seq<Seq<u8>>, stack: Seq<Seq<u8>>) -> Option<Seq<Seq<u8>>>
    decreases segs.len(),
{
    if segs.len() == 0 {
        Some(stack)
    } else if segs[0].len() == 0 || segs[0] == dot() {
        collapse(segs.skip(1), stack)
    } else if segs[0] == dot_dot() {
        if stack.len() == 0 {
            None
        } else {
            collapse(segs.skip(1), stack.drop_last())
        }
    } else {
        collapse(segs.skip(1), stack.push(segs[0]))
    }
}

/// The names, each with a `/` before it.
pub open spec fn joined(names: Seq<Seq<u8>>) -> Seq<u8>
    decreases names.len(),
{
    if names.len() == 0 {
        Seq::empty()
    } else {
        joined(names.drop_last()) + seq![slash()] + names.last()
    }
}

/// `root` without a trailing `/`.
pub open spec fn without_trailing_slash(root: Seq<u8>) -> Seq<u8> {
    if root.len() > 0 && root.last() == slash() {
        root.drop_last()
    } else {
        root
    }
}

/// The path of the entry that `names` lead to from `root`.
pub open spec fn below(root: Seq<u8>, names: Seq<Seq<u8>>) -> Seq<u8> {
    if names.len() == 0 {
        root
    } else {
        without_trailing_slash(root) + joined(names)
    }
}

/// Whether `path` is `root` or lies below it: `root` is a prefix of `path`
/// that ends where a component of `path` ends.
pub open spec fn is_within(path: Seq<u8>, root: Seq<u8>) -> bool {
    starts_with(path, root) && (path.len() == root.len() || (root.len() > 0 && root.last()
        == slash()) || path[root.len() as int] == slash())
}

/// The names that a decoded URL path leads through, below the root.
pub open spec fn names_of(decoded: Seq<u8>) -> Option<Seq<Seq<u8>>> {
    collapse(split(decoded, slash()), Seq::empty())
}

/// The file system path that a URL path asks for below `root`, before the
/// file system is consulted.
pub open spec fn resolve_uri_spec(uri_path: Seq<u8>, root: Seq<u8>) -> Result<Seq<u8>, PathError> {
    if uri_path.len() == 0 || uri_path[0] != slash() {
        Err(PathError::Malformed)
    } else {
        match percent_decoded(uri_path) {
            None => Err(PathError::Malformed),
            Some(decoded) => {
                if decoded.contains(0u8) {
                    Err(PathError::Malformed)
                } else {
                    match names_of(decoded) {
                        None => Err(PathError::Escape),
                        Some(names) => Ok(below(root, names)),
                    }
                }
            },
        }
    }
}

/// The views of a stack of names.
pub open spec fn names_view(stack: Seq<Vec<u8>>) -> Seq<Seq<u8>> {
    stack.map_values(|v: Vec<u8>| v@)
}

/// Walks the segments of `decoded` as [`collapse`] does.
fn walk(decoded: &[u8]) -> (r: Option<Vec<Vec<u8>>>)
    ensures
        match r {
            Some(stack) => names_of(decoded@) == Some(names_view(stack@)),
            None => names_of(decoded@).is_none(),
        },
{
    let mut stack: Vec<Vec<u8>> = Vec::new();
    let mut rest: &[u8] = decoded;
    let mut done = false;
    assert(names_view(stack@) =~= Seq::<Seq<u8>>::empty());
    while !done
        invariant
            !done ==> names_of(decoded@) == collapse(split(rest@, slash()), names_view(stack@)),
            done ==> names_of(decoded@) == Some(names_view(stack@)),
        decreases
            if done {
                0
            } else {
                rest.len() + 1
            },
    {
        let i = find_byte(rest, 0x2f);
        let seg = slice_subrange(rest, 0, i);
        let ghost whole = rest@;
        let ghost segs = split(rest@, slash());
        let ghost before = names_view(stack@);
        proof {
            assert(seg@ == rest@.take(i as int));
            if i < rest.len() {
                assert(segs.skip(1) == split(rest@.skip(i + 1), slash()));
            } else {
                assert(rest@.take(i as int) == rest@);
                assert(segs.skip(1) == Seq::<Seq<u8>>::empty());
            }
            assert(segs[0] == seg@);
        }
        if seg.len() == 0 || (seg.len() == 1 && seg[0] == 0x2e) {
            assert(seg.len() == 1 && seg[0] == 0x2e ==> seg@ == dot());
        } else if seg.len() == 2 && seg[0] == 0x2e && seg[1] == 0x2e {
            assert(seg@ == dot_dot());
            if stack.len() == 0 {
                return None;
            }
            stack.pop();
            assert(names_view(stack@) == before.drop_last());
        } else {
            assert(seg@ != dot()) by {
                if seg@ == dot() {
                    assert(seg@.len() == 1 && seg@[0] == 0x2e);
                }
            }
            assert(seg@ != dot_dot()) by {
                if seg@ == dot_dot() {
                    assert(seg@.len() == 2 && seg@[0] == 0x2e && seg@[1] == 0x2e);
                }
            }
            let mut name: Vec<u8> = Vec::new();
            append(&mut name, seg);
            assert(name@ == seg@);
            stack.push(name);
            assert(names_view(stack@) == before.push(seg@));
        }
        if i < rest.len() {
            rest = slice_subrange(rest, i + 1, rest.len());
            assert(rest@ == whole.skip(i + 1));
        } else {
            done = true;
            assert(collapse(segs.skip(1), names_view(stack@)) == Some(names_view(stack@)));
        }
    }
    Some(stack)
}

/// Appends the names, each with a `/` before it.
fn push_joined(out: &mut Vec<u8>, names: &Vec<Vec<u8>>)
    ensures
        final(out)@ == old(out)@ + joined(names_view(names@)),
{
    let mut k: usize = 0;
    assert(names_view(names@).take(0) =~= Seq::<Seq<u8>>::empty());
    while k < names.len()
        invariant
            k <= names.len(),
            out@ == old(out)@ + joined(names_view(names@).take(k as int)),
        decreases names.len() - k,
    {
        let ghost before = out@;
        out.push(0x2f);
        append(out, names[k].as_slice());
        k += 1;
        proof {
            let t = names_view(names@).take(k as int);
            assert(t.drop_last() == names_view(names@).take(k - 1));
            assert(t.last() == names@[k - 1]@);
            assert(out@ == old(out)@ + joined(t));
        }
    }
    assert(names_view(names@).take(names.len() as int) == names_view(names@));
}

/// The file system path that `uri_path` asks for below `root`, before the
/// file system is consulted: percent escapes are decoded and the segments
/// `.` and `..` are followed within the names of the path itself.
///
/// Fails with [`PathError::Malformed`] where the path does not start with
/// `/`, holds a broken escape or encodes a NUL byte, and with
/// [`PathError::Escape`] where `..` would lead above the root.
pub fn resolve_uri(uri_path: &str, root: &[u8]) -> (r: Result<Vec<u8>, PathError>)
    ensures
        match r {
            Ok(path) => resolve_uri_spec(uri_path.spec_bytes(), root@) == Ok::<
                Seq<u8>,
                PathError,
            >(path@),
            Err(e) => resolve_uri_spec(uri_path.spec_bytes(), root@) == Err::<Seq<u8>, PathError>(
                e,
            ),
        },
{
    let raw = uri_path.as_bytes();
    if raw.len() == 0 || raw[0] != 0x2f {
        return Err(PathError::Malformed);
    }
    let decoded = match percent_decode(raw) {
        Some(d) => d,
        None => {
            return Err(PathError::Malformed);
        },
    };
    if find_byte(decoded.as_slice(), 0) < decoded.len() {
        proof {
            lemma_first_index(decoded@, 0u8);
        }
        return Err(PathError::Malformed);
    }
    proof {
        lemma_first_index(decoded@, 0u8);
    }
    let names = match walk(decoded.as_slice()) {
        Some(n) => n,
        None => {
            return Err(PathError::Escape);
        },
    };
    let mut path: Vec<u8> = Vec::new();
    if names.len() == 0 {
        append(&mut path, root);
    } else {
        let keep = if root.len() > 0 && root[root.len() - 1] == 0x2f {
            root.len() - 1
        } else {
            root.len()
        };
        let head = slice_subrange(root, 0, keep);
        assert(head@ == without_trailing_slash(root@));
        append(&mut path, head);
        push_joined(&mut path, &names);
    }
    Ok(path)
}

/// Executable form of [`is_within`].
pub fn within(path: &[u8], root: &[u8]) -> (r: bool)
    ensures
        r == is_within(path@, root@),
{
    bytes_start_with(path, root) && (path.len() == root.len() || (root.len() > 0 && root[root.len()
        - 1] == 0x2f) || path[root.len()] == 0x2f)
}

/// What resolution makes of the file system's answer for the path that
/// [`resolve_uri`] gave: the canonical path where it lies within `root`,
/// [`PathError::Escape`] where it does not (a symbolic link led out), and the
/// file system's own failure otherwise.
pub open spec fn confine_spec(
    looked_up: Result<Seq<u8>, FsError>,
    root: Seq<u8>,
) -> Result<Seq<u8>, PathError> {
    match looked_up {
        Ok(canonical) => if is_within(canonical, root) {
            Ok(canonical)
        } else {
            Err(PathError::Escape)
        },
        Err(e) => Err(PathError::of_fs(e)),
    }
}

/// Accepts the canonical path that the file system found only if it lies
/// within `root`.
pub fn confine(looked_up: Result<Vec<u8>, FsError>, root: &[u8]) -> (r: Result<Vec<u8>, PathError>)
    ensures
        match r {
            Ok(path) => confine_spec(
                match looked_up {
                    Ok(p) => Ok(p@),
                    Err(e) => Err(e),
                },
                root@,
            ) == Ok::<Seq<u8>, PathError>(path@),
            Err(e) => confine_spec(
                match looked_up {
                    Ok(p) => Ok(p@),
                    Err(e) => Err(e),
                },
                root@,
            ) == Err::<Seq<u8>, PathError>(e),
        },
{
    match looked_up {
        Ok(canonical) => {
            if within(canonical.as_slice(), root) {
                Ok(canonical)
            } else {
                Err(PathError::Escape)
            }
        },
        Err(e) => Err(PathError::from_fs(e)),
    }
}

/// Whether a byte stands for itself in a URL path: letters, digits and
/// `- . _ ~ ! $ & ' ( ) * + , ; = : @`.
pub open spec fn is_plain(b: u8) -> bool {
    ||| (0x41 <= b && b <= 0x5a)
    ||| (0x61 <= b && b <= 0x7a)
    ||| (0x30 <= b && b <= 0x39)
    ||| b == 0x2d
    ||| b == 0x2e
    ||| b == 0x5f
    ||| b == 0x7e
    ||| b == 0x21
    ||| b == 0x24
    ||| (0x26 <= b && b <= 0x2c)
    ||| b == 0x3a
    ||| b == 0x3b
    ||| b == 0x3d
    ||| b == 0x40
}

/// The upper-case hexadecimal digit for a number below sixteen.
pub open spec fn upper_hex(d: u8) -> u8 {
    if d < 10 {
        (0x30 + d) as u8
    } else {
        (0x41 + d - 10) as u8
    }
}

/// How one byte is written in a URL path.
pub open spec fn encoded_byte(b: u8) -> Seq<u8> {
    if is_plain(b) {
        seq![b]
    } else {
        seq![percent(), upper_hex(b / 16), upper_hex(b % 16)]
    }
}

/// How a name is written in a URL path.
pub open spec fn percent_encoded(s: Seq<u8>) -> Seq<u8>
    decreases s.len(),
{
    if s.len() == 0 {
        Seq::empty()
    } else {
        percent_encoded(s.drop_last()) + encoded_byte(s.last())
    }
}

/// The names as they are written in a URL path, each with a `/` before it.
pub open spec fn encoded_joined(names: Seq<Seq<u8>>) -> Seq<u8>
    decreases names.len(),
{
    if names.len() == 0 {
        Seq::empty()
    } else {
        encoded_joined(names.drop_last()) + seq![slash()] + percent_encoded(names.last())
    }
}

/// The URL path that leads through `names`; that of a directory ends in
/// `/`, and that of the root is `/`.
pub open spec fn uri_of(names: Seq<Seq<u8>>, is_dir: bool) -> Seq<u8> {
    if names.len() == 0 {
        seq![slash()]
    } else if is_dir {
        encoded_joined(names) + seq![slash()]
    } else {
        encoded_joined(names)
    }
}

/// The part of `path` that follows `root` and the separator after it.
pub open spec fn relative(path: Seq<u8>, root: Seq<u8>) -> Seq<u8> {
    if path.len() == root.len() {
        Seq::empty()
    } else if root.len() > 0 && root.last() == slash() {
        path.skip(root.len() as int)
    } else {
        path.skip(root.len() as int + 1)
    }
}

/// The names that lead from `root` to `path`, which lies within it.
pub open spec fn names_below(path: Seq<u8>, root: Seq<u8>) -> Seq<Seq<u8>> {
    let rel = relative(path, root);
    if rel.len() == 0 {
        Seq::empty()
    } else {
        split(rel, slash())
    }
}

/// Whether every one of `names` can stand in a URL path and be found again
/// from it: none is empty, `.` or `..`, and none holds a NUL byte.
pub open spec fn all_clean(names: Seq<Seq<u8>>) -> bool {
    forall|i: int| 0 <= i < names.len() ==> is_name(#[trigger] names[i]) && !names[i].contains(0u8)
}

/// The canonical URL path of the file system entry `path` below `root`, if
/// it has one.
pub open spec fn path_to_uri_spec(path: Seq<u8>, root: Seq<u8>, is_dir: bool) -> Option<Seq<u8>> {
    if is_within(path, root) && all_clean(names_below(path, root)) {
        Some(uri_of(names_below(path, root), is_dir))
    } else {
        None
    }
}

/// Executable form of [`upper_hex`].
fn upper_hex_digit(d: u8) -> (r: u8)
    requires
        d < 16,
    ensures
        r == upper_hex(d),
{
    if d < 10 {
        0x30 + d
    } else {
        0x41 + d - 10
    }
}

/// Executable form of [`is_plain`].
fn plain(b: u8) -> (r: bool)
    ensures
        r == is_plain(b),
{
    (0x41 <= b && b <= 0x5a) || (0x61 <= b && b <= 0x7a) || (0x30 <= b && b <= 0x39) || b == 0x2d
        || b == 0x2e || b == 0x5f || b == 0x7e || b == 0x21 || b == 0x24 || (0x26 <= b && b
        <= 0x2c) || b == 0x3a || b == 0x3b || b == 0x3d || b == 0x40
}

/// Appends `name` as it is written in a URL path.
fn push_encoded(out: &mut Vec<u8>, name: &[u8])
    ensures
        final(out)@ == old(out)@ + percent_encoded(name@),
{
    let mut i: usize = 0;
    assert(name@.take(0) =~= Seq::<u8>::empty());
    while i < name.len()
        invariant
            i <= name.len(),
            out@ == old(out)@ + percent_encoded(name@.take(i as int)),
        decreases name.len() - i,
    {
        let b = name[i];
        if plain(b) {
            out.push(b);
        } else {
            out.push(0x25);
            out.push(upper_hex_digit(b / 16));
            out.push(upper_hex_digit(b % 16));
        }
        i += 1;
        proof {
            let t = name@.take(i as int);
            assert(t.drop_last() == name@.take(i - 1));
            assert(t.last() == b);
            assert(out@ == old(out)@ + percent_encoded(t));
        }
    }
    assert(name@.take(name.len() as int) == name@);
}

/// Whether `seg` is a name without a NUL byte.
fn clean(seg: &[u8]) -> (r: bool)
    ensures
        r == (is_name(seg@) && !seg@.contains(0u8)),
{
    proof {
        lemma_first_index(seg@, 0u8);
    }
    if seg.len() == 0 {
        return false;
    }
    if seg.len() == 1 && seg[0] == 0x2e {
        assert(seg@ == dot());
        return false;
    }
    if seg.len() == 2 && seg[0] == 0x2e && seg[1] == 0x2e {
        assert(seg@ == dot_dot());
        return false;
    }
    assert(seg@ != dot()) by {
        if seg@ == dot() {
            assert(seg@.len() == 1 && seg@[0] == 0x2e);
        }
    }
    assert(seg@ != dot_dot()) by {
        if seg@ == dot_dot() {
            assert(seg@.len() == 2 && seg@[0] == 0x2e && seg@[1] == 0x2e);
        }
    }
    find_byte(seg, 0) == seg.len()
}

/// Builds the canonical URL path of `path` as bytes.
fn uri_bytes(path: &[u8], root: &[u8], is_dir: bool) -> (r: Option<Vec<u8>>)
    ensures
        match r {
            Some(uri) => path_to_uri_spec(path@, root@, is_dir) == Some(uri@),
            None => path_to_uri_spec(path@, root@, is_dir).is_none(),
        },
{
    if !within(path, root) {
        return None;
    }
    let from = if path.len() == root.len() {
        path.len()
    } else if root.len() > 0 && root[root.len() - 1] == 0x2f {
        root.len()
    } else {
        root.len() + 1
    };
    let rel = slice_subrange(path, from, path.len());
    assert(rel@ == relative(path@, root@));
    let mut out: Vec<u8> = Vec::new();
    if rel.len() == 0 {
        out.push(0x2f);
        return Some(out);
    }
    let ghost names = split(rel@, slash());
    let ghost mut seen: Seq<Seq<u8>> = Seq::empty();
    let mut rest: &[u8] = rel;
    let mut done = false;
    assert(seen + split(rest@, slash()) == names);
    assert(names == names_below(path@, root@));
    while !done
        invariant
            !done ==> names == seen + split(rest@, slash()),
            done ==> names == seen,
            is_within(path@, root@),
            names == names_below(path@, root@),
            all_clean(seen),
            out@ == encoded_joined(seen),
        decreases
            if done {
                0
            } else {
                rest.len() + 1
            },
    {
        let i = find_byte(rest, 0x2f);
        let seg = slice_subrange(rest, 0, i);
        let ghost whole = rest@;
        let ghost tail = if i < rest.len() {
            split(whole.skip(i + 1), slash())
        } else {
            Seq::<Seq<u8>>::empty()
        };
        proof {
            assert(seg@ == whole.take(i as int));
            if i == rest.len() {
                assert(whole.take(i as int) == whole);
            }
            assert(split(whole, slash()) == seq![seg@] + tail);
            assert(names == seen.push(seg@) + tail);
            assert(names[seen.len() as int] == seg@);
        }
        if !clean(seg) {
            return None;
        }
        out.push(0x2f);
        push_encoded(&mut out, seg);
        proof {
            let next = seen.push(seg@);
            assert(next.drop_last() == seen);
            seen = next;
        }
        if i < rest.len() {
            rest = slice_subrange(rest, i + 1, rest.len());
            assert(rest@ == whole.skip(i + 1));
        } else {
            done = true;
            assert(seen + tail == seen);
        }
    }
    assert(names.len() > 0);
    if is_dir {
        out.push(0x2f);
    }
    Some(out)
}

/// The canonical URL path of the file system entry `path` below `root`:
/// each name percent-encoded, with a `/` before it, and a `/` at the end
/// for a directory. `None` where `path` does not lie within `root`, or
/// where one of its names is empty, `.` or `..` or holds a NUL byte, so that
/// no URL path would lead back to it.
pub fn path_to_uri(path: &[u8], root: &[u8], is_dir: bool) -> (r: Option<String>)
    ensures
        match r {
            Some(uri) => path_to_uri_spec(path@, root@, is_dir) matches Some(b) && uri@
                == ascii_chars(b),
            None => path_to_uri_spec(path@, root@, is_dir).is_none(),
        },
{
    match uri_bytes(path, root, is_dir) {
        Some(b) => Some(ascii_string(b.as_slice())),
        None => None,
    }
}

/// How a segment of a URL path changes the depth below the root: a name
/// goes one down, `..` one up, and an empty segment or `.` stays.
pub open spec fn depth_change(seg: Seq<u8>) -> int {
    if seg == dot_dot() {
        -1
    } else if is_name(seg) {
        1
    } else {
        0
    }
}

/// The depth below the starting point after the segments have been walked.
pub open spec fn depth_after(segs: Seq<Seq<u8>>) -> int
    decreases segs.len(),
{
    if segs.len() == 0 {
        0
    } else {
        depth_after(segs.drop_last()) + depth_change(segs.last())
    }
}

/// Whether a walk through the segments that starts `start` levels below the
/// root comes above the root at some point.
pub open spec fn climbs_above_root(segs: Seq<Seq<u8>>, start: int) -> bool {
    exists|k: int| 0 <= k <= segs.len() && start + #[trigger] depth_after(segs.take(k)) < 0
}

/// The depth after the first `k` segments, told by the first segment and
/// the rest.
proof fn lemma_depth_after_first(segs: Seq<Seq<u8>>, k: int)
    requires
        1 <= k <= segs.len(),
    ensures
        depth_after(segs.take(k)) == depth_change(segs[0]) + depth_after(segs.skip(1).take(k - 1)),
    decreases k,
{
    let whole = segs.take(k);
    let rest = segs.skip(1).take(k - 1);
    assert(whole.last() == segs[k - 1]);
    assert(whole.drop_last() == segs.take(k - 1));
    if k == 1 {
        assert(depth_after(segs.take(0)) == 0);
        assert(depth_after(rest) == 0);
    } else {
        lemma_depth_after_first(segs, k - 1);
        assert(rest.last() == segs[k - 1]);
        assert(rest.drop_last() == segs.skip(1).take(k - 2));
    }
}

/// A walk that starts `stack.len()` levels below the root fails exactly
/// where it comes above the root, and otherwise ends as deep as the
/// segments say.
pub proof fn lemma_collapse_depth(segs: Seq<Seq<u8>>, stack: Seq<Seq<u8>>)
    ensures
        collapse(segs, stack).is_none() <==> climbs_above_root(segs, stack.len() as int),
        collapse(segs, stack) matches Some(names) ==> names.len() == stack.len() + depth_after(
            segs,
        ),
    decreases segs.len(),
{
    let start = stack.len() as int;
    if segs.len() == 0 {
        assert forall|k: int| 0 <= k <= segs.len() implies start + #[trigger] depth_after(
            segs.take(k),
        ) >= 0 by {
            assert(segs.take(k).len() == 0);
        }
    } else {
        let rest = segs.skip(1);
        let change = depth_change(segs[0]);
        let next = if segs[0].len() == 0 || segs[0] == dot() {
            stack
        } else if segs[0] == dot_dot() {
            stack.drop_last()
        } else {
            stack.push(segs[0])
        };
        assert(depth_after(segs.take(0)) == 0);
        lemma_depth_after_first(segs, segs.len() as int);
        assert(segs.take(segs.len() as int) == segs);
        assert(rest.take(rest.len() as int) == rest);
        if segs[0] == dot_dot() && stack.len() == 0 {
            lemma_depth_after_first(segs, 1);
            assert(rest.take(0).len() == 0);
            assert(start + depth_after(segs.take(1)) < 0);
        } else {
            assert(next.len() == start + change);
            lemma_collapse_depth(rest, next);
            if climbs_above_root(rest, start + change) {
                let k = choose|k: int|
                    0 <= k <= rest.len() && start + change + #[trigger] depth_after(rest.take(k))
                        < 0;
                lemma_depth_after_first(segs, k + 1);
                assert(start + depth_after(segs.take(k + 1)) < 0);
            }
            if climbs_above_root(segs, start) {
                let k = choose|k: int|
                    0 <= k <= segs.len() && start + #[trigger] depth_after(segs.take(k)) < 0;
                assert(k >= 1);
                lemma_depth_after_first(segs, k);
                assert(start + change + depth_after(rest.take(k - 1)) < 0);
            }
        }
    }
}

/// The names, joined, start with a `/`.
proof fn lemma_joined_starts_with_slash(names: Seq<Seq<u8>>)
    requires
        names.len() > 0,
    ensures
        joined(names).len() > 0,
        joined(names)[0] == slash(),
    decreases names.len(),
{
    let before = joined(names.drop_last());
    if names.len() > 1 {
        lemma_joined_starts_with_slash(names.drop_last());
        assert(joined(names)[0] == before[0]);
    } else {
        assert(before.len() == 0);
        assert(joined(names)[0] == seq![slash()][0]);
    }
}

/// Whatever names lead down from the root, the entry that they lead to lies
/// within the root.
pub proof fn lemma_below_is_within(root: Seq<u8>, names: Seq<Seq<u8>>)
    ensures
        is_within(below(root, names), root),
{
    let path = below(root, names);
    if names.len() == 0 {
        assert(path.take(root.len() as int) == root);
    } else {
        lemma_joined_starts_with_slash(names);
        let tail = joined(names);
        if root.len() > 0 && root.last() == slash() {
            assert(path.take(root.len() as int) == root);
        } else {
            assert(path.take(root.len() as int) == root);
            assert(path[root.len() as int] == tail[0]);
        }
    }
}

/// A URL path resolves to a path within the root or not at all. It
/// resolves if and only if it is well formed and the walk through its
/// segments never comes above the root, however its `..` segments are
/// nested; where the walk does come above the root, the error is
/// [`PathError::Escape`].
pub proof fn lemma_resolve_uri_stays_within(uri_path: Seq<u8>, root: Seq<u8>)
    ensures
        resolve_uri_spec(uri_path, root) matches Ok(path) ==> is_within(path, root),
        resolve_uri_spec(uri_path, root) == Err::<Seq<u8>, PathError>(PathError::Escape) <==> {
            &&& uri_path.len() > 0
            &&& uri_path[0] == slash()
            &&& percent_decoded(uri_path) matches Some(decoded)
            &&& !decoded.contains(0u8)
            &&& climbs_above_root(split(decoded, slash()), 0)
        },
        resolve_uri_spec(uri_path, root) == Err::<Seq<u8>, PathError>(PathError::Malformed) <==> {
            ||| uri_path.len() == 0
            ||| uri_path[0] != slash()
            ||| percent_decoded(uri_path).is_none()
            ||| percent_decoded(uri_path).unwrap().contains(0u8)
        },
{
    match percent_decoded(uri_path) {
        Some(decoded) => {
            lemma_collapse_depth(split(decoded, slash()), Seq::empty());
            match names_of(decoded) {
                Some(names) => {
                    lemma_below_is_within(root, names);
                },
                None => {},
            }
        },
        None => {},
    }
}

/// What the file system found is accepted exactly where it lies within
/// the root, and handed on unchanged; anything else that it found, as
/// through a symbolic link that leads out of the root, is an escape.
pub proof fn lemma_confine_stays_within(looked_up: Result<Seq<u8>, FsError>, root: Seq<u8>)
    ensures
        confine_spec(looked_up, root) matches Ok(path) ==> is_within(path, root) && looked_up
            == Ok::<Seq<u8>, FsError>(path),
        looked_up matches Ok(canonical) ==> (confine_spec(looked_up, root) == Err::<
            Seq<u8>,
            PathError,
        >(PathError::Escape) <==> !is_within(canonical, root)),
        looked_up matches Ok(canonical) ==> (confine_spec(looked_up, root).is_ok() <==> is_within(
            canonical,
            root,
        )),
{
}

} // verus!
