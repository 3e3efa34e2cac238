//! From a file system path to its canonical URL path and back.

use crate::bytes::ascii_chars;
use crate::path::{
    all_clean, below, collapse, encoded_byte, encoded_joined, escape_at_start, escaped_byte,
    hex_value, is_name, is_plain, joined, names_below, names_of, path_to_uri_spec, percent,
    percent_decoded, percent_encoded, relative, resolve_uri_spec, slash, upper_hex, uri_of,
    without_trailing_slash, PathError,
};
use crate::text::{first_index, lemma_first_index, lemma_first_index_is, split};
use vstd::prelude::*;
use vstd::utf8::{encode_utf8, is_ascii_chars, is_ascii_chars_encode_utf8};

verus! {

/// What decodes on its own decodes the same way in front of anything.
pub proof fn lemma_decoded_concat(a: Seq<u8>, b: Seq<u8>)
    requires
        percent_decoded(a).is_some(),
    ensures
        percent_decoded(a + b) == match percent_decoded(b) {
            Some(rest) => Some(percent_decoded(a).unwrap() + rest),
            None => None,
        },
    decreases a.len(),
{
    if a.len() == 0 {
        assert(a + b == b);
        match percent_decoded(b) {
            Some(rest) => {
                assert(Seq::<u8>::empty() + rest == rest);
            },
            None => {},
        }
    } else if a[0] == percent() {
        assert(escape_at_start(a));
        assert(escape_at_start(a + b));
        assert(escaped_byte(a + b) == escaped_byte(a));
        assert((a + b).skip(3) == a.skip(3) + b);
        lemma_decoded_concat(a.skip(3), b);
        match percent_decoded(b) {
            Some(rest) => {
                let head = percent_decoded(a.skip(3)).unwrap();
                assert(seq![escaped_byte(a)] + (head + rest) == (seq![escaped_byte(a)] + head)
                    + rest);
            },
            None => {},
        }
    } else {
        assert((a + b)[0] == a[0]);
        assert((a + b).skip(1) == a.skip(1) + b);
        lemma_decoded_concat(a.skip(1), b);
        match percent_decoded(b) {
            Some(rest) => {
                let head = percent_decoded(a.skip(1)).unwrap();
                assert(seq![a[0]] + (head + rest) == (seq![a[0]] + head) + rest);
            },
            None => {},
        }
    }
}

/// A byte as it is written in a URL path decodes to the byte.
pub proof fn lemma_decoded_byte(b: u8)
    ensures
        percent_decoded(encoded_byte(b)) == Some(seq![b]),
{
    let e = encoded_byte(b);
    if is_plain(b) {
        assert(e.skip(1) == Seq::<u8>::empty());
        assert(percent_decoded(e.skip(1)) == Some(Seq::<u8>::empty()));
        assert(seq![b] + Seq::<u8>::empty() == seq![b]);
    } else {
        let hi = (b / 16) as u8;
        let lo = (b % 16) as u8;
        assert(hex_value(upper_hex(hi)) == Some(hi));
        assert(hex_value(upper_hex(lo)) == Some(lo));
        assert(escape_at_start(e));
        assert(escaped_byte(e) == b);
        assert(e.skip(3) == Seq::<u8>::empty());
        assert(percent_decoded(e.skip(3)) == Some(Seq::<u8>::empty()));
        assert(seq![b] + Seq::<u8>::empty() == seq![b]);
    }
}

/// A name as it is written in a URL path decodes to the name.
pub proof fn lemma_decoded_name(name: Seq<u8>)
    ensures
        percent_decoded(percent_encoded(name)) == Some(name),
    decreases name.len(),
{
    if name.len() > 0 {
        lemma_decoded_name(name.drop_last());
        lemma_decoded_byte(name.last());
        lemma_decoded_concat(percent_encoded(name.drop_last()), encoded_byte(name.last()));
        assert(name.drop_last() + seq![name.last()] == name);
    }
}

/// A `/` decodes to itself.
proof fn lemma_decoded_slash()
    ensures
        percent_decoded(seq![slash()]) == Some(seq![slash()]),
{
    let s = seq![slash()];
    assert(s.skip(1) == Seq::<u8>::empty());
    assert(percent_decoded(s.skip(1)) == Some(Seq::<u8>::empty()));
    assert(seq![slash()] + Seq::<u8>::empty() == seq![slash()]);
}

/// The names as they are written in a URL path decode to the names.
pub proof fn lemma_decoded_names(names: Seq<Seq<u8>>)
    ensures
        percent_decoded(encoded_joined(names)) == Some(joined(names)),
    decreases names.len(),
{
    if names.len() > 0 {
        let front = encoded_joined(names.drop_last());
        lemma_decoded_names(names.drop_last());
        lemma_decoded_slash();
        lemma_decoded_name(names.last());
        lemma_decoded_concat(front, seq![slash()]);
        lemma_decoded_concat(front + seq![slash()], percent_encoded(names.last()));
    }
}

/// A piece without the separator is all that splitting finds in it.
proof fn lemma_split_piece(piece: Seq<u8>, sep: u8)
    requires
        !piece.contains(sep),
    ensures
        split(piece, sep) == seq![piece],
{
    lemma_first_index(piece, sep);
    if first_index(piece, sep) < piece.len() {
        assert(piece.contains(piece[first_index(piece, sep)]));
    }
}

/// A separator and a piece without one, put behind anything, add that piece
/// to what splitting finds.
proof fn lemma_split_push(s: Seq<u8>, piece: Seq<u8>, sep: u8)
    requires
        !piece.contains(sep),
    ensures
        split(s + seq![sep] + piece, sep) == split(s, sep).push(piece),
    decreases s.len(),
{
    let whole = s + seq![sep] + piece;
    let i = first_index(s, sep);
    lemma_first_index(s, sep);
    assert forall|j: int| 0 <= j < i implies whole[j] != sep by {
        assert(whole[j] == s[j]);
    }
    if i < s.len() {
        assert(whole[i] == s[i]);
        lemma_first_index_is(whole, sep, i);
        assert(whole.take(i) == s.take(i));
        assert(whole.skip(i + 1) == s.skip(i + 1) + seq![sep] + piece);
        lemma_split_push(s.skip(i + 1), piece, sep);
        assert(seq![s.take(i)] + split(s.skip(i + 1), sep).push(piece) == (seq![s.take(i)] + split(
            s.skip(i + 1),
            sep,
        )).push(piece));
    } else {
        assert(whole[i] == sep);
        lemma_first_index_is(whole, sep, i);
        assert(whole.take(i) == s);
        assert(whole.skip(i + 1) == piece);
        lemma_split_piece(piece, sep);
        assert(seq![s] + seq![piece] == seq![s].push(piece));
    }
}

/// What splitting finds holds no separator.
pub proof fn lemma_split_has_no_sep(s: Seq<u8>, sep: u8)
    ensures
        forall|k: int|
            0 <= k < split(s, sep).len() ==> !(#[trigger] split(s, sep)[k]).contains(sep),
    decreases s.len(),
{
    let i = first_index(s, sep);
    lemma_first_index(s, sep);
    assert(!s.take(i).contains(sep)) by {
        if s.take(i).contains(sep) {
            let j = choose|j: int| 0 <= j < s.take(i).len() && s.take(i)[j] == sep;
            assert(s[j] == sep);
        }
    }
    if i < s.len() {
        lemma_split_has_no_sep(s.skip(i + 1), sep);
        let tail = split(s.skip(i + 1), sep);
        assert forall|k: int| 0 <= k < split(s, sep).len() implies !(#[trigger] split(
            s,
            sep,
        )[k]).contains(sep) by {
            if k > 0 {
                assert(split(s, sep)[k] == tail[k - 1]);
            }
        }
    }
}

/// Splitting what was joined gives the names back, behind the empty piece
/// in front of the first `/`.
pub proof fn lemma_split_joined(names: Seq<Seq<u8>>)
    requires
        forall|k: int| 0 <= k < names.len() ==> !(#[trigger] names[k]).contains(slash()),
    ensures
        split(joined(names), slash()) == seq![Seq::<u8>::empty()] + names,
    decreases names.len(),
{
    if names.len() == 0 {
        lemma_split_piece(Seq::<u8>::empty(), slash());
        assert(seq![Seq::<u8>::empty()] + names == seq![Seq::<u8>::empty()]);
    } else {
        let front = names.drop_last();
        lemma_split_joined(front);
        lemma_split_push(joined(front), names.last(), slash());
        assert((seq![Seq::<u8>::empty()] + front).push(names.last()) == seq![Seq::<u8>::empty()]
            + names);
    }
}

/// Joining distributes over the names.
proof fn lemma_joined_concat(a: Seq<Seq<u8>>, b: Seq<Seq<u8>>)
    ensures
        joined(a + b) == joined(a) + joined(b),
    decreases b.len(),
{
    if b.len() == 0 {
        assert(a + b == a);
        assert(joined(a) + Seq::<u8>::empty() == joined(a));
    } else {
        lemma_joined_concat(a, b.drop_last());
        assert((a + b).drop_last() == a + b.drop_last());
        assert((a + b).last() == b.last());
        assert(joined(a) + joined(b.drop_last()) + seq![slash()] + b.last() == joined(a) + (joined(
            b.drop_last(),
        ) + seq![slash()] + b.last()));
    }
}

/// Joining what was split gives the whole back, behind a `/`.
pub proof fn lemma_joined_split(s: Seq<u8>)
    ensures
        joined(split(s, slash())) == seq![slash()] + s,
    decreases s.len(),
{
    let i = first_index(s, slash());
    lemma_first_index(s, slash());
    let one = seq![s.take(i)];
    assert(one.drop_last() == Seq::<Seq<u8>>::empty());
    assert(one.last() == s.take(i));
    assert(joined(one.drop_last()) == Seq::<u8>::empty());
    assert(joined(one) == Seq::<u8>::empty() + seq![slash()] + s.take(i));
    if i < s.len() {
        lemma_joined_split(s.skip(i + 1));
        lemma_joined_concat(one, split(s.skip(i + 1), slash()));
        assert(Seq::<u8>::empty() + seq![slash()] + s.take(i) + (seq![slash()] + s.skip(i + 1))
            == seq![slash()] + s);
    } else {
        assert(s.take(i) == s);
        assert(Seq::<u8>::empty() + seq![slash()] + s == seq![slash()] + s);
    }
}

/// A walk goes down through names one by one.
proof fn lemma_collapse_names(names: Seq<Seq<u8>>, rest: Seq<Seq<u8>>, stack: Seq<Seq<u8>>)
    requires
        forall|k: int| 0 <= k < names.len() ==> is_name(#[trigger] names[k]),
    ensures
        collapse(names + rest, stack) == collapse(rest, stack + names),
    decreases names.len(),
{
    if names.len() == 0 {
        assert(names + rest == rest);
        assert(stack + names == stack);
    } else {
        let whole = names + rest;
        assert(whole[0] == names[0]);
        assert(is_name(names[0]));
        assert(whole.skip(1) == names.skip(1) + rest);
        assert forall|k: int| 0 <= k < names.skip(1).len() implies is_name(
            #[trigger] names.skip(1)[k],
        ) by {
            assert(names.skip(1)[k] == names[k + 1]);
        }
        lemma_collapse_names(names.skip(1), rest, stack.push(names[0]));
        assert(stack.push(names[0]) + names.skip(1) == stack + names);
    }
}

/// The names that are joined hold no NUL byte if none of them does.
proof fn lemma_joined_has_no_nul(names: Seq<Seq<u8>>)
    requires
        all_clean(names),
    ensures
        !joined(names).contains(0u8),
    decreases names.len(),
{
    if names.len() > 0 {
        let front = names.drop_last();
        assert(all_clean(front)) by {
            assert forall|i: int| 0 <= i < front.len() implies is_name(#[trigger] front[i])
                && !front[i].contains(0u8) by {
                assert(front[i] == names[i]);
            }
        }
        lemma_joined_has_no_nul(front);
        let whole = joined(names);
        if whole.contains(0u8) {
            let j = choose|j: int| 0 <= j < whole.len() && whole[j] == 0u8;
            if j < joined(front).len() {
                assert(joined(front)[j] == 0u8);
                assert(joined(front).contains(0u8));
            } else if j > joined(front).len() {
                let k = j - joined(front).len() - 1;
                assert(names.last()[k] == 0u8);
                assert(names.last().contains(0u8));
            }
        }
    }
}

/// The canonical URL path of an entry leads back to the entry: resolving
/// it gives the path of the entry again.
///
/// This holds for paths in canonical form, which do not end in `/` unless
/// they are the root itself.
pub proof fn lemma_canonical_uri_resolves(path: Seq<u8>, root: Seq<u8>, is_dir: bool)
    requires
        path_to_uri_spec(path, root, is_dir).is_some(),
        path == root || relative(path, root).len() > 0,
    ensures
        resolve_uri_spec(path_to_uri_spec(path, root, is_dir).unwrap(), root) == Ok::<
            Seq<u8>,
            PathError,
        >(path),
{
    let names = names_below(path, root);
    let uri = uri_of(names, is_dir);
    let none = Seq::<Seq<u8>>::empty();
    let blank = Seq::<u8>::empty();
    if names.len() == 0 {
        lemma_decoded_slash();
        let d = seq![slash()];
        assert(!d.contains(0u8));
        lemma_first_index_is(d, slash(), 0);
        assert(d.take(0) == blank);
        assert(d.skip(1) == blank);
        lemma_split_piece(blank, slash());
        assert(split(d, slash()) == seq![blank] + seq![blank]);
        let segs = split(d, slash());
        assert(segs.skip(1) == seq![blank]);
        assert(segs.skip(1).skip(1) == none);
        assert(segs.skip(1)[0] == blank);
        assert(collapse(none, none) == Some(none));
        assert(collapse(segs.skip(1), none) == collapse(segs.skip(1).skip(1), none));
        assert(collapse(segs.skip(1), none) == Some(none));
        assert(segs[0] == blank);
        assert(collapse(segs, none) == collapse(segs.skip(1), none));
        assert(names_of(d) == Some(none));
        assert(names == none);
        if relative(path, root).len() > 0 {
            lemma_first_index(relative(path, root), slash());
            assert(split(relative(path, root), slash()).len() > 0);
        }
    } else {
        let rel = relative(path, root);
        assert(names == split(rel, slash()));
        lemma_split_has_no_sep(rel, slash());
        lemma_decoded_names(names);
        lemma_joined_has_no_nul(names);
        lemma_split_joined(names);
        assert(encoded_joined(names).len() > 0 && encoded_joined(names)[0] == slash()) by {
            lemma_encoded_joined_starts_with_slash(names);
        }
        let d = if is_dir {
            joined(names) + seq![slash()]
        } else {
            joined(names)
        };
        if is_dir {
            lemma_decoded_slash();
            lemma_decoded_concat(encoded_joined(names), seq![slash()]);
            assert(!blank.contains(slash()));
            lemma_split_push(joined(names), blank, slash());
            assert(joined(names) + seq![slash()] + blank == d);
            assert(split(d, slash()) == (seq![blank] + names).push(blank));
            assert((seq![blank] + names).push(blank) == seq![blank] + (names + seq![blank]));
            assert(!d.contains(0u8)) by {
                if d.contains(0u8) {
                    let j = choose|j: int| 0 <= j < d.len() && d[j] == 0u8;
                    assert(joined(names)[j] == 0u8);
                    assert(joined(names).contains(0u8));
                }
            }
        } else {
            assert(split(d, slash()) == seq![blank] + (names + none)) by {
                assert(names + none == names);
            }
        }
        let tail = if is_dir {
            seq![blank]
        } else {
            none
        };
        let segs = split(d, slash());
        assert(segs == seq![blank] + (names + tail));
        assert(segs[0] == blank);
        assert(segs.skip(1) == names + tail);
        lemma_collapse_names(names, tail, none);
        assert(none + names == names);
        if is_dir {
            assert(tail.skip(1) == none);
            assert(tail[0] == blank);
            assert(collapse(none, names) == Some(names));
            assert(collapse(tail, names) == collapse(tail.skip(1), names));
            assert(collapse(tail, names) == Some(names));
        }
        if !is_dir {
            assert(collapse(tail, names) == Some(names));
        }
        assert(collapse(segs, none) == collapse(segs.skip(1), none));
        assert(names_of(d) == Some(names));
        lemma_joined_split(rel);
        assert(below(root, names) == path) by {
            let kept = without_trailing_slash(root);
            assert(path.take(root.len() as int) == root);
            if root.len() > 0 && root.last() == slash() {
                assert(kept + (seq![slash()] + rel) == path);
            } else {
                assert(path[root.len() as int] == slash());
                assert(kept + (seq![slash()] + rel) == path);
            }
        }
    }
}

/// The names as they are written in a URL path start with a `/`.
proof fn lemma_encoded_joined_starts_with_slash(names: Seq<Seq<u8>>)
    requires
        names.len() > 0,
    ensures
        encoded_joined(names).len() > 0,
        encoded_joined(names)[0] == slash(),
    decreases names.len(),
{
    let before = encoded_joined(names.drop_last());
    if names.len() > 1 {
        lemma_encoded_joined_starts_with_slash(names.drop_last());
        assert(encoded_joined(names)[0] == before[0]);
    } else {
        assert(before.len() == 0);
        assert(encoded_joined(names)[0] == seq![slash()][0]);
    }
}

/// A name as it is written in a URL path consists of ASCII bytes.
proof fn lemma_encoded_is_ascii(name: Seq<u8>)
    ensures
        forall|i: int| 0 <= i < percent_encoded(name).len() ==> percent_encoded(name)[i] < 0x80,
    decreases name.len(),
{
    if name.len() > 0 {
        lemma_encoded_is_ascii(name.drop_last());
        let front = percent_encoded(name.drop_last());
        let last = encoded_byte(name.last());
        assert forall|i: int| 0 <= i < percent_encoded(name).len() implies percent_encoded(
            name,
        )[i] < 0x80 by {
            if i >= front.len() {
                assert(percent_encoded(name)[i] == last[i - front.len()]);
            } else {
                assert(percent_encoded(name)[i] == front[i]);
            }
        }
    }
}

/// The names as they are written in a URL path consist of ASCII bytes.
proof fn lemma_encoded_joined_is_ascii(names: Seq<Seq<u8>>)
    ensures
        forall|i: int| 0 <= i < encoded_joined(names).len() ==> encoded_joined(names)[i] < 0x80,
    decreases names.len(),
{
    if names.len() > 0 {
        lemma_encoded_joined_is_ascii(names.drop_last());
        lemma_encoded_is_ascii(names.last());
        let front = encoded_joined(names.drop_last());
        let last = percent_encoded(names.last());
        assert forall|i: int| 0 <= i < encoded_joined(names).len() implies encoded_joined(
            names,
        )[i] < 0x80 by {
            if i > front.len() {
                assert(encoded_joined(names)[i] == last[i - front.len() - 1]);
            } else if i < front.len() {
                assert(encoded_joined(names)[i] == front[i]);
            }
        }
    }
}

/// A canonical URL path is ASCII text: as the text of a request it has the
/// bytes that it was made of.
pub proof fn lemma_canonical_uri_is_ascii(path: Seq<u8>, root: Seq<u8>, is_dir: bool)
    requires
        path_to_uri_spec(path, root, is_dir).is_some(),
    ensures
        encode_utf8(ascii_chars(path_to_uri_spec(path, root, is_dir).unwrap()))
            == path_to_uri_spec(path, root, is_dir).unwrap(),
{
    let names = names_below(path, root);
    let uri = uri_of(names, is_dir);
    let chars = ascii_chars(uri);
    lemma_encoded_joined_is_ascii(names);
    assert forall|i: int| 0 <= i < uri.len() implies uri[i] < 0x80 by {
        if names.len() > 0 && i < encoded_joined(names).len() {
            assert(uri[i] == encoded_joined(names)[i]);
        }
    }
    assert(is_ascii_chars(chars)) by {
        assert forall|i: int| 0 <= i < chars.len() implies '\0' <= #[trigger] chars[i]
            <= '\u{7f}' by {
            assert(chars[i] == uri[i] as char);
        }
    }
    is_ascii_chars_encode_utf8(chars);
    assert forall|i: int| 0 <= i < uri.len() implies encode_utf8(chars)[i] == uri[i] by {
        assert(chars[i] as u8 == encode_utf8(chars)[i]);
        assert(chars[i] == uri[i] as char);
    }
    assert(encode_utf8(chars) =~= uri);
}

} // verus!
