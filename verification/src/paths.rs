//! Paths, as the bytes they are made of.

use vstd::prelude::*;

verus! {

/// The path of a file in a directory. A path that starts at the root stands in no
/// directory.
pub open spec fn joined_path(directory: Seq<u8>, name: Seq<u8>) -> Seq<u8> {
    if name.len() > 0 && name[0] == 0x2f {
        name
    } else if directory.len() > 0 && directory.last() != 0x2f {
        directory.push(0x2f) + name
    } else {
        directory + name
    }
}

/// Bytes after bytes.
pub fn append_bytes(out: &mut Vec<u8>, tail: &[u8])
    ensures
        final(out)@ == old(out)@ + tail@,
{
    let ghost head = out@;
    let mut i: usize = 0;
    assert(out@ =~= head + tail@.take(0));
    while i < tail.len()
        invariant
            i <= tail@.len(),
            out@ == head + tail@.take(i as int),
        decreases tail@.len() - i,
    {
        out.push(tail[i]);
        assert(out@ =~= head + tail@.take(i + 1));
        i += 1;
    }
    assert(tail@.take(tail@.len() as int) =~= tail@);
}

/// A copy of some bytes.
pub fn copy_bytes(bytes: &[u8]) -> (res: Vec<u8>)
    ensures
        res@ == bytes@,
{
    let mut out: Vec<u8> = Vec::new();
    append_bytes(&mut out, bytes);
    assert(out@ =~= bytes@);
    out
}

/// The path of a file in a directory.
pub fn join_path(directory: &[u8], name: &str) -> (res: Vec<u8>)
    ensures
        res@ == joined_path(directory@, vstd::utf8::encode_utf8(name@)),
{
    let tail = name.as_bytes();
    if tail.len() > 0 && tail[0] == 0x2f {
        return copy_bytes(tail);
    }
    let mut out = copy_bytes(directory);
    if directory.len() > 0 && directory[directory.len() - 1] != 0x2f {
        out.push(0x2f);
    }
    append_bytes(&mut out, tail);
    out
}

/// What `String::from_utf8_lossy` reads in bytes.
pub uninterp spec fn lossy_text(bytes: Seq<u8>) -> Seq<char>;

/// `String::from_utf8_lossy`: the text the bytes spell out, which is exactly
/// that text where they are valid UTF-8.
#[verifier::external_body]
pub(crate) fn path_text(path: &[u8]) -> (res: String)
    ensures
        res@ == lossy_text(path@),
        vstd::utf8::valid_utf8(path@) ==> res@ == vstd::utf8::decode_utf8(path@),
{
    String::from_utf8_lossy(path).into_owned()
}

} // verus!
