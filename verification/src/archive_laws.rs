//! What holds of every archive that is written or read.

use vstd::prelude::*;

use crate::archive;
use crate::archive::Flaw;

verus! {

/// Four bytes weigh what they should: each place two hundred and fifty-six times the
/// one before it.
pub open spec fn weighs(bytes: Seq<u8>, n: int) -> bool {
    bytes.len() == 4 && n == bytes[0] + 256 * bytes[1] + 65_536 * bytes[2] + 16_777_216 * bytes[3]
}

/// A length is written in four bytes that weigh it.
pub proof fn lengths_weigh_what_they_count(n: int)
    requires
        0 <= n < 4_294_967_296,
    ensures
        weighs(archive::le32(n), n),
{
}

/// Four bytes are read as what they weigh, and fewer are no number.
pub proof fn numbers_are_read_by_weight(raw: Seq<u8>, pos: int, n: int)
    requires
        0 <= pos <= raw.len(),
    ensures
        pos + 4 <= raw.len() && weighs(raw.subrange(pos, pos + 4), n) ==> archive::number_at(
            raw,
            pos,
        ) == Ok::<int, Flaw>(n),
        pos + 4 > raw.len() ==> archive::number_at(raw, pos) == Err::<int, Flaw>(Flaw::Header),
{
}

/// Bytes with a length in front are as many as it says; where so many are not there,
/// the archive ends too early.
pub proof fn chunks_are_as_long_as_they_say(raw: Seq<u8>, pos: int, n: int)
    requires
        0 <= pos,
        pos + 4 <= raw.len(),
        weighs(raw.subrange(pos, pos + 4), n),
    ensures
        pos + 4 + n <= raw.len() ==> archive::chunk_at(raw, pos) == Ok::<Seq<u8>, Flaw>(
            raw.subrange(pos + 4, pos + 4 + n),
        ),
        pos + 4 + n > raw.len() ==> archive::chunk_at(raw, pos) == Err::<Seq<u8>, Flaw>(
            Flaw::Chunk,
        ),
{
    numbers_are_read_by_weight(raw, pos, n);
}

/// An entry is its path and its body, each behind its length.
pub proof fn an_entry_is_its_path_and_body(
    path: Seq<char>,
    body: Seq<u8>,
    long: Seq<u8>,
    wide: Seq<u8>,
)
    requires
        vstd::utf8::encode_utf8(path).len() < 4_294_967_296,
        body.len() < 4_294_967_296,
        weighs(long, vstd::utf8::encode_utf8(path).len() as int),
        weighs(wide, body.len() as int),
    ensures
        archive::entry_bytes((path, body)) == long + vstd::utf8::encode_utf8(path) + wide + body,
{
    let n = vstd::utf8::encode_utf8(path).len() as int;
    let m = body.len() as int;
    lengths_weigh_what_they_count(n);
    lengths_weigh_what_they_count(m);
    assert(archive::le32(n) =~= long);
    assert(archive::le32(m) =~= wide);
    assert(archive::entry_bytes((path, body)) =~= long + vstd::utf8::encode_utf8(path) + wide
        + body);
}

/// An archive starts with the number of its entries, and each entry stands behind those
/// before it.
pub proof fn entries_stand_in_order(
    entries: Seq<(Seq<char>, Seq<u8>)>,
    more: (Seq<char>, Seq<u8>),
)
    requires
        entries.len() + 1 < 4_294_967_296,
    ensures
        weighs(archive::frame(entries).take(4), entries.len() as int),
        archive::frame(Seq::empty()).len() == 4,
        archive::frame(entries.push(more)).skip(4) == archive::frame(entries).skip(4)
            + archive::entry_bytes(more),
{
    lengths_weigh_what_they_count(entries.len() as int);
    assert(archive::frame(entries).take(4) =~= archive::le32(entries.len() as int));
    assert(entries.push(more).drop_last() =~= entries);
    assert(archive::frame(entries).skip(4) =~= archive::entries_bytes(entries));
    assert(archive::frame(entries.push(more)).skip(4) =~= archive::entries_bytes(
        entries.push(more),
    ));
}

/// Bytes that do not unpack are no archive; a path that is no text is refused; what
/// follows the last entry is not read.
pub proof fn flaws_are_told_apart(
    packed: Seq<u8>,
    raw: Seq<u8>,
    more: Seq<u8>,
    pos: int,
    path: Seq<u8>,
)
    ensures
        archive::zlib_unpacked(packed) is None ==> archive::contents(packed) == Err::<
            Seq<(Seq<char>, Seq<u8>)>,
            Flaw,
        >(Flaw::Corrupt),
        raw.len() < 4 ==> archive::unframed(raw) == Err::<Seq<(Seq<char>, Seq<u8>)>, Flaw>(
            Flaw::Header,
        ),
        raw.len() >= 4 && weighs(raw.take(4), 0) ==> archive::unframed(raw) == Ok::<
            Seq<(Seq<char>, Seq<u8>)>,
            Flaw,
        >(Seq::empty()),
        archive::chunk_at(raw, pos) == Ok::<Seq<u8>, Flaw>(path) && !vstd::utf8::valid_utf8(path)
            ==> archive::entry_at(raw, pos) == Err::<((Seq<char>, Seq<u8>), int), Flaw>(
            Flaw::Path,
        ),
{
}

/// A fingerprint takes in every byte: from one state on, two different next bytes lead
/// to two different states, and what has been taken in is gone on from.
pub proof fn fingerprints_take_in_every_byte(before: Seq<u8>, a: u8, b: u8, seed: u64)
    ensures
        archive::fnv(before.push(a), seed) == (archive::fnv(before, seed) ^ (a as u64)).wrapping_mul(
            0x100_0000_01b3,
        ),
        archive::fnv(Seq::empty(), seed) == seed,
        archive::FNV_OFFSET == 0xcbf2_9ce4_8422_2325,
{
    assert(before.push(a).drop_last() =~= before);
}

/// What is fingerprinted is every path and body, one after the other, in order.
pub proof fn fingerprints_take_paths_and_bodies(
    entries: Seq<(Seq<char>, Seq<u8>)>,
    path: Seq<char>,
    body: Seq<u8>,
)
    ensures
        archive::flat(Seq::empty()).len() == 0,
        archive::flat(entries.push((path, body))) == archive::flat(entries)
            + vstd::utf8::encode_utf8(path) + body,
{
    assert(entries.push((path, body)).drop_last() =~= entries);
}

} // verus!
