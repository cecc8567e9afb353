//! Choosing the files to work on from a list of paths.

use vstd::prelude::*;
use vstd::string::*;
use vstd::utf8::encode_utf8;

verus! {

/// `needle` stands in `hay` at index `i`.
pub open spec fn occurs_at(hay: Seq<u8>, needle: Seq<u8>, i: int) -> bool {
    0 <= i && i + needle.len() <= hay.len() && hay.subrange(i, i + needle.len()) == needle
}

/// `needle` stands somewhere in `hay`.
pub open spec fn occurs(hay: Seq<u8>, needle: Seq<u8>) -> bool {
    exists|i: int| occurs_at(hay, needle, i)
}

/// Tells whether the bytes of `needle` stand somewhere in `hay`, one after
/// the other. An empty `needle` stands in every `hay`.
pub fn contains_bytes(hay: &[u8], needle: &[u8]) -> (found: bool)
    ensures
        found == occurs(hay@, needle@),
{
    if needle.len() > hay.len() {
        return false;
    }
    let length: usize = hay.len();
    let last: usize = length - needle.len();
    let mut i: usize = 0;
    while i <= last
        invariant
            length == hay@.len(),
            last == hay@.len() - needle@.len(),
            i <= last + 1,
            forall|k: int| 0 <= k < i ==> !occurs_at(hay@, needle@, k),
        decreases last + 1 - i,
    {
        let mut j: usize = 0;
        while j < needle.len() && hay[i + j] == needle[j]
            invariant
                i <= last,
                length == hay@.len(),
                last == hay@.len() - needle@.len(),
                j <= needle@.len(),
                forall|k: int| 0 <= k < j ==> hay@[i + k] == needle@[k],
            decreases needle@.len() - j,
        {
            j += 1;
        }
        if j == needle.len() {
            assert(hay@.subrange(i as int, i + needle@.len()) =~= needle@);
            assert(occurs_at(hay@, needle@, i as int));
            return true;
        }
        assert(!occurs_at(hay@, needle@, i as int)) by {
            if occurs_at(hay@, needle@, i as int) {
                assert(hay@.subrange(i as int, i + needle@.len())[j as int] == needle@[j as int]);
            }
        }
        i += 1;
    }
    false
}

/// The byte `.`.
pub const DOT: u8 = 0x2e;

/// The byte `/`.
pub const SLASH: u8 = 0x2f;

/// `path` ends in a dot and `extension`, and the file name has at least one
/// byte before that dot.
pub open spec fn has_extension(path: Seq<u8>, extension: Seq<u8>) -> bool {
    let dot = path.len() - extension.len() - 1;
    &&& dot > 0
    &&& path[dot] == DOT
    &&& path[dot - 1] != SLASH
    &&& path.subrange(dot + 1, path.len() as int) == extension
}

/// `path` has one of the extensions of C and C++ sources and headers:
/// `c`, `cc`, `cpp`, `h` or `hpp`.
pub open spec fn is_source_path(path: Seq<u8>) -> bool {
    ||| has_extension(path, encode_utf8("c"@))
    ||| has_extension(path, encode_utf8("cc"@))
    ||| has_extension(path, encode_utf8("cpp"@))
    ||| has_extension(path, encode_utf8("h"@))
    ||| has_extension(path, encode_utf8("hpp"@))
}

fn ends_with_extension(path: &[u8], extension: &[u8]) -> (found: bool)
    ensures
        found == has_extension(path@, extension@),
{
    let length: usize = path.len();
    if extension.len() >= length || length - extension.len() < 2 {
        return false;
    }
    let dot: usize = length - extension.len() - 1;
    if path[dot] != DOT || path[dot - 1] == SLASH {
        return false;
    }
    let mut j: usize = 0;
    while j < extension.len()
        invariant
            length == path@.len(),
            dot == length - extension@.len() - 1,
            dot > 0,
            j <= extension@.len(),
            forall|k: int| 0 <= k < j ==> path@[dot + 1 + k] == extension@[k],
        decreases extension@.len() - j,
    {
        if path[dot + 1 + j] != extension[j] {
            assert(path@.subrange(dot + 1, path@.len() as int)[j as int] != extension@[j as int]);
            return false;
        }
        j += 1;
    }
    assert(path@.subrange(dot + 1, path@.len() as int) =~= extension@);
    true
}

/// Tells whether `path` names a C or C++ source or header file, going by
/// its extension alone.
pub fn has_source_extension(path: &str) -> (found: bool)
    ensures
        found == is_source_path(path.spec_bytes()),
{
    let bytes = path.as_bytes();
    ends_with_extension(bytes, "c".as_bytes()) || ends_with_extension(bytes, "cc".as_bytes())
        || ends_with_extension(bytes, "cpp".as_bytes()) || ends_with_extension(
        bytes,
        "h".as_bytes(),
    ) || ends_with_extension(bytes, "hpp".as_bytes())
}

/// The test that a path passes when no skip pattern is given, or when the
/// UTF-8 bytes of the pattern stand nowhere in those of the path.
pub open spec fn passes(skip_pattern: Option<Seq<char>>) -> spec_fn(Seq<char>) -> bool {
    |path: Seq<char>|
        match skip_pattern {
            Some(pattern) => !occurs(encode_utf8(path), encode_utf8(pattern)),
            None => true,
        }
}

/// Leaves out the files whose path holds `skip_pattern`; the others stay,
/// in order. Without a pattern every file stays.
pub fn skip_files(files: &[String], skip_pattern: Option<&str>) -> (kept: Vec<String>)
    ensures
        kept.deep_view() == files.deep_view().filter(
            passes(
                match skip_pattern {
                    Some(p) => Some(p@),
                    None => None,
                },
            ),
        ),
{
    let ghost pattern = match skip_pattern {
        Some(p) => Some(p@),
        None => None,
    };
    let ghost all = files.deep_view();
    let mut kept: Vec<String> = Vec::new();
    let mut i: usize = 0;
    proof {
        reveal(Seq::filter);
        assert(all.take(0) =~= Seq::<Seq<char>>::empty());
    }
    while i < files.len()
        invariant
            i <= files@.len(),
            all == files.deep_view(),
            all.len() == files@.len(),
            pattern == match skip_pattern {
                Some(p) => Some(p@),
                None => None,
            },
            kept.deep_view() == all.take(i as int).filter(passes(pattern)),
        decreases files@.len() - i,
    {
        let file = &files[i];
        let stays = match skip_pattern {
            Some(p) => !contains_bytes(file.as_str().as_bytes(), p.as_bytes()),
            None => true,
        };
        proof {
            reveal(Seq::filter);
            assert(all[i as int] == file@);
            assert(all.take(i + 1).drop_last() =~= all.take(i as int));
            assert(all.take(i + 1).last() == file@);
            assert(stays == passes(pattern)(file@));
        }
        let ghost before = kept.deep_view();
        if stays {
            kept.push(file.clone());
            assert(kept.deep_view() =~= before.push(file@));
        }
        i += 1;
    }
    assert(all.take(files@.len() as int) =~= all);
    kept
}

} // verus!
