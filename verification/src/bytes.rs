//! Bytes: paths, and what is handed to the system. They need not be UTF-8.

use std::path::PathBuf;

use vstd::prelude::*;
use vstd::utf8::{decode_utf8, encode_utf8, valid_utf8};

use crate::path::{is_absolute, is_absolute_path};
use crate::text::{pieces, texts};

verus! {

/// The views of a list of byte strings.
pub open spec fn byte_views(v: Seq<Vec<u8>>) -> Seq<Seq<u8>> {
    v.map_values(|b: Vec<u8>| b@)
}

/// Whether there is a null byte.
pub open spec fn has_zero(b: Seq<u8>) -> bool {
    b.contains(0u8)
}

/// The bytes of a text.
pub fn bytes_of(t: &str) -> (r: Vec<u8>)
    ensures
        r@ == encode_utf8(t@),
{
    vstd::slice::slice_to_vec(t.as_bytes())
}

/// Tells whether there is a null byte.
pub fn contains_zero(b: &[u8]) -> (r: bool)
    ensures
        r == has_zero(b@),
{
    for i in 0..b.len()
        invariant
            forall|j: int| 0 <= j < i ==> b@[j] != 0,
    {
        if b[i] == 0 {
            assert(b@[i as int] == 0);
            return true;
        }
    }
    false
}

/// Compares two byte strings.
pub fn same_bytes(a: &[u8], b: &[u8]) -> (r: bool)
    ensures
        r == (a@ == b@),
{
    if a.len() != b.len() {
        return false;
    }
    for i in 0..a.len()
        invariant
            a@.len() == b@.len(),
            forall|j: int| 0 <= j < i ==> a@[j] == b@[j],
    {
        if a[i] != b[i] {
            return false;
        }
    }
    assert(a@ =~= b@);
    true
}

/// Puts `more` behind `b`.
pub fn append_bytes(b: &mut Vec<u8>, more: &[u8])
    ensures
        final(b)@ == old(b)@ + more@,
{
    assert(old(b)@ + more@.take(0) =~= old(b)@);
    for i in 0..more.len()
        invariant
            b@ == old(b)@ + more@.take(i as int),
    {
        b.push(more[i]);
        assert(b@ =~= old(b)@ + more@.take(i + 1));
    }
    assert(more@.take(more@.len() as int) == more@);
}

/// A copy of bytes.
pub fn copy_bytes(b: &[u8]) -> (r: Vec<u8>)
    ensures
        r@ == b@,
{
    vstd::slice::slice_to_vec(b)
}

/// Splits bytes at each byte `sep`.
pub fn split_bytes(b: &[u8], sep: u8) -> (r: Vec<Vec<u8>>)
    ensures
        byte_views(r@) == pieces(b@, sep),
{
    let mut done: Vec<Vec<u8>> = Vec::new();
    let mut current: Vec<u8> = Vec::new();
    assert(byte_views(done@).push(current@) =~= pieces(b@.take(0), sep));
    for i in 0..b.len()
        invariant
            byte_views(done@).push(current@) == pieces(b@.take(i as int), sep),
    {
        let ghost before = byte_views(done@).push(current@);
        assert(b@.take(i + 1).drop_last() == b@.take(i as int));
        assert(before.last() == current@ && before.drop_last() == byte_views(done@));
        if b[i] == sep {
            let ghost grown = done@.push(current);
            done.push(current);
            current = Vec::new();
            assert(byte_views(grown) =~= before);
            assert(byte_views(done@).push(current@) =~= before.push(Seq::<u8>::empty()));
        } else {
            current.push(b[i]);
        }
    }
    assert(b@.take(b@.len() as int) == b@);
    let ghost all = byte_views(done@).push(current@);
    done.push(current);
    assert(byte_views(done@) =~= all);
    done
}

/// Calls `String::from_utf8`, which gives the text whose bytes these are, and an
/// error where they are not UTF-8.
#[verifier::external_body]
pub(crate) fn as_text(b: &[u8]) -> (r: Option<String>)
    ensures
        match r {
            Some(t) => valid_utf8(b@) && t@ == decode_utf8(b@),
            None => !valid_utf8(b@),
        },
{
    String::from_utf8(b.to_vec()).ok()
}

/// What `String::from_utf8_lossy` makes of bytes that are not UTF-8.
pub uninterp spec fn replaced(b: Seq<u8>) -> Seq<char>;

/// How bytes are displayed: as the text whose bytes they are, or with something in
/// place of what is not UTF-8.
pub open spec fn shown(b: Seq<u8>) -> Seq<char> {
    if valid_utf8(b) {
        decode_utf8(b)
    } else {
        replaced(b)
    }
}

/// Calls `String::from_utf8_lossy`, which gives the text whose bytes these are, and
/// replaces what is not UTF-8. What it puts there depends on the bytes alone and is
/// not said here.
#[verifier::external_body]
pub(crate) fn show(b: &[u8]) -> (r: String)
    ensures
        r@ == if valid_utf8(b@) {
            decode_utf8(b@)
        } else {
            replaced(b@)
        },
{
    String::from_utf8_lossy(b).into_owned()
}

/// How each of a list of byte strings is displayed.
pub fn show_all(v: &[Vec<u8>]) -> (r: Vec<String>)
    ensures
        texts(r@) == byte_views(v@).map_values(|b: Seq<u8>| shown(b)),
{
    let mut r: Vec<String> = Vec::new();
    for i in 0..v.len()
        invariant
            r@.len() == i,
            forall|j: int| 0 <= j < i ==> (#[trigger] r@[j])@ == shown(v@[j]@),
    {
        r.push(show(v[i].as_slice()));
    }
    assert(texts(r@) =~= byte_views(v@).map_values(|b: Seq<u8>| shown(b)));
    r
}

/// A text is displayed as it is.
pub proof fn lemma_text_is_shown(t: Seq<char>)
    ensures
        valid_utf8(encode_utf8(t)),
        decode_utf8(encode_utf8(t)) == t,
        shown(encode_utf8(t)) == t,
{
    vstd::utf8::encode_utf8_valid_utf8(t);
    vstd::utf8::encode_utf8_decode_utf8(t);
}

/// The outside type for paths.
#[verifier::external_type_specification]
#[verifier::external_body]
pub struct ExPathBuf(std::path::PathBuf);

/// The bytes that a path holds.
pub uninterp spec fn path_bytes(path: std::path::PathBuf) -> Seq<u8>;

/// Calls `PathBuf::from`, which makes the path whose bytes are those of a text.
#[verifier::external_body]
pub(crate) fn path_of_text(t: String) -> (r: PathBuf)
    ensures
        path_bytes(r) == encode_utf8(t@),
{
    PathBuf::from(t)
}

/// Calls `PathBuf::clone`, which makes a path of the same bytes.
#[verifier::external_body]
pub(crate) fn copy_path(path: &PathBuf) -> (r: PathBuf)
    ensures
        path_bytes(r) == path_bytes(*path),
{
    path.clone()
}

/// Calls `OsStr::as_encoded_bytes` for a path, which gives the bytes that it holds.
#[verifier::external_body]
pub(crate) fn bytes_of_path(path: &PathBuf) -> (r: Vec<u8>)
    ensures
        r@ == path_bytes(*path),
{
    path.as_os_str().as_encoded_bytes().to_vec()
}

/// Whether a path starts at the root.
pub open spec fn is_absolute_bytes(path: Seq<u8>) -> bool {
    path.len() > 0 && path[0] == 47
}

/// `name`, which does not start at the root, below the directory `dir`.
pub open spec fn below_bytes(dir: Seq<u8>, name: Seq<u8>) -> Seq<u8> {
    if dir.len() == 0 || dir.last() == 47 {
        dir + name
    } else {
        dir.push(47u8) + name
    }
}

/// Puts `name`, which does not start at the root, below the directory `dir`.
pub fn join_bytes(dir: &[u8], name: &[u8]) -> (r: Vec<u8>)
    ensures
        r@ == below_bytes(dir@, name@),
{
    let mut r = copy_bytes(dir);
    let n: usize = r.len();
    if n > 0 && r[n - 1] != 47 {
        r.push(47);
    }
    append_bytes(&mut r, name);
    r
}

/// The path that `path` means in the directory `current_dir`.
pub open spec fn absolute_from(current_dir: Seq<u8>, path: Seq<char>) -> Seq<u8> {
    if is_absolute_path(path) {
        encode_utf8(path)
    } else {
        below_bytes(current_dir, encode_utf8(path))
    }
}

/// In a directory that starts at the root, every path means one that does.
pub proof fn lemma_absolute_from(current_dir: Seq<u8>, path: Seq<char>)
    requires
        is_absolute_bytes(current_dir),
    ensures
        is_absolute_bytes(absolute_from(current_dir, path)),
{
    if is_absolute_path(path) {
        let scalar = path[0] as u32;
        assert(scalar == 47);
        assert(vstd::utf8::leading_byte_width_1(47u32) == 47u8) by {
            assert((47u32 & 0x7F) as u8 == 47u8) by (bit_vector);
        }
        assert(encode_utf8(path)[0] == vstd::utf8::encode_scalar(scalar)[0]);
    }
}

/// The path that `path` means in the directory `current_dir`.
pub fn make_absolute(current_dir: &[u8], path: &str) -> (r: Vec<u8>)
    ensures
        r@ == absolute_from(current_dir@, path@),
        is_absolute_bytes(current_dir@) ==> is_absolute_bytes(r@),
{
    proof {
        if is_absolute_bytes(current_dir@) {
            lemma_absolute_from(current_dir@, path@);
        }
    }
    let name = bytes_of(path);
    if is_absolute(path) {
        return name;
    }
    join_bytes(current_dir, name.as_slice())
}

} // verus!
