//! The blob of embedded skills, both directions.
//!
//! Writer and reader are two halves of one agreement. A flat sequence of
//! `(path, body)` chunks: a `u32` count, then a `u32` length and bytes per field,
//! little-endian, compressed with zlib. There is no notion of a skill in here.

use vstd::prelude::*;

use crate::paths;
use crate::paths::{append_bytes, copy_bytes};

verus! {

/// The bytes of a number, the least significant first.
pub open spec fn le32(n: int) -> Seq<u8> {
    seq![
        (n % 0x100) as u8,
        (n / 0x100 % 0x100) as u8,
        (n / 0x1_0000 % 0x100) as u8,
        (n / 0x100_0000 % 0x100) as u8,
    ]
}

/// The number that four bytes make, the least significant first.
pub open spec fn le32_value(a: u8, b: u8, c: u8, d: u8) -> int {
    a + 0x100 * b + 0x1_0000 * c + 0x100_0000 * d
}

/// Bytes with their length in front.
pub open spec fn chunk(bytes: Seq<u8>) -> Seq<u8> {
    le32(bytes.len() as int) + bytes
}

/// What an archive holds: paths and bodies.
pub open spec fn entries_said(entries: Seq<(String, Vec<u8>)>) -> Seq<(Seq<char>, Seq<u8>)> {
    Seq::new(entries.len(), |i: int| (entries[i].0@, entries[i].1@))
}

/// One entry.
pub open spec fn entry_bytes(entry: (Seq<char>, Seq<u8>)) -> Seq<u8> {
    chunk(vstd::utf8::encode_utf8(entry.0)) + chunk(entry.1)
}

/// Entries one after another.
pub open spec fn entries_bytes(entries: Seq<(Seq<char>, Seq<u8>)>) -> Seq<u8>
    decreases entries.len(),
{
    if entries.len() == 0 {
        Seq::empty()
    } else {
        entries_bytes(entries.drop_last()) + entry_bytes(entries.last())
    }
}

/// An archive before it is compressed.
pub open spec fn frame(entries: Seq<(Seq<char>, Seq<u8>)>) -> Seq<u8> {
    le32(entries.len() as int) + entries_bytes(entries)
}

/// Whether everything that has a length fits its field.
pub open spec fn fits(entries: Seq<(Seq<char>, Seq<u8>)>) -> bool {
    entries.len() <= u32::MAX && forall|i: int|
        0 <= i < entries.len() ==> entry_fits(#[trigger] entries[i])
}

/// Whether the lengths of an entry fit their fields.
pub open spec fn entry_fits(entry: (Seq<char>, Seq<u8>)) -> bool {
    vstd::utf8::encode_utf8(entry.0).len() <= u32::MAX && entry.1.len() <= u32::MAX
}

/// What `flate2` compresses bytes to with zlib, at its best.
pub uninterp spec fn zlib_packed(raw: Seq<u8>) -> Option<Seq<u8>>;

/// What `flate2` decompresses bytes to with zlib, if they are such a stream.
pub uninterp spec fn zlib_unpacked(packed: Seq<u8>) -> Option<Seq<u8>>;

/// What optional bytes are.
pub open spec fn opt_bytes(bytes: Option<Vec<u8>>) -> Option<Seq<u8>> {
    match bytes {
        Some(bytes) => Some(bytes@),
        None => None,
    }
}

/// `flate2::write::ZlibEncoder` into a `Vec`: the compressed bytes, which
/// decompress to what was compressed. Whether compressing succeeds is left open:
/// the encoder passes on the errors of the backend it was built with.
#[verifier::external_body]
fn deflate(raw: &[u8]) -> (res: Option<Vec<u8>>)
    ensures
        opt_bytes(res) == zlib_packed(raw@),
        match res {
            Some(packed) => zlib_unpacked(packed@) == Some(raw@),
            None => true,
        },
{
    let mut encoder = flate2::write::ZlibEncoder::new(Vec::new(), flate2::Compression::best());
    std::io::Write::write_all(&mut encoder, raw).ok()?;
    encoder.finish().ok()
}

/// `flate2::read::ZlibDecoder`: the decompressed bytes, and nothing where the
/// input is no zlib stream.
#[verifier::external_body]
fn inflate(packed: &[u8]) -> (res: Option<Vec<u8>>)
    ensures
        opt_bytes(res) == zlib_unpacked(packed@),
{
    let mut raw = Vec::new();
    std::io::Read::read_to_end(&mut flate2::read::ZlibDecoder::new(packed), &mut raw).ok()?;
    Some(raw)
}

/// `std::str::from_utf8`: the text that bytes spell out, and nothing where they
/// are not valid UTF-8.
#[verifier::external_body]
fn utf8_text(bytes: &[u8]) -> (res: Option<String>)
    ensures
        match res {
            Some(s) => vstd::utf8::valid_utf8(bytes@) && s@ == vstd::utf8::decode_utf8(bytes@),
            None => !vstd::utf8::valid_utf8(bytes@),
        },
{
    std::str::from_utf8(bytes).ok().map(str::to_owned)
}

/// Why an archive could not be written.
#[derive(Debug, Clone, Copy, PartialEq, Eq, Structural)]
pub enum WriteFault {
    /// A length does not fit its field.
    TooLong,
    /// It could not be compressed.
    NotCompressed,
}

fn push_le32(out: &mut Vec<u8>, n: u32)
    ensures
        final(out)@ == old(out)@ + le32(n as int),
{
    let ghost before = out@;
    out.push((n % 0x100) as u8);
    out.push((n / 0x100 % 0x100) as u8);
    out.push((n / 0x1_0000 % 0x100) as u8);
    out.push((n / 0x100_0000 % 0x100) as u8);
    assert(out@ =~= before + le32(n as int));
}

fn push_chunk(out: &mut Vec<u8>, bytes: &[u8]) -> (res: bool)
    ensures
        res == (bytes@.len() <= u32::MAX),
        res ==> final(out)@ == old(out)@ + chunk(bytes@),
{
    let len = bytes.len();
    if len > u32::MAX as usize {
        return false;
    }
    let ghost before = out@;
    push_le32(out, len as u32);
    append_bytes(out, bytes);
    assert(out@ =~= before + chunk(bytes@));
    true
}

/// Lays entries out, before they are compressed.
pub fn lay_out(entries: &[(String, Vec<u8>)]) -> (res: Option<Vec<u8>>)
    ensures
        match res {
            Some(raw) => fits(entries_said(entries@)) && raw@ == frame(entries_said(entries@)),
            None => !fits(entries_said(entries@)),
        },
{
    let ghost all = entries_said(entries@);
    let n = entries.len();
    if n > u32::MAX as usize {
        return None;
    }
    let mut raw: Vec<u8> = Vec::new();
    push_le32(&mut raw, n as u32);
    let mut i: usize = 0;
    assert(raw@ =~= le32(n as int) + entries_bytes(all.take(0)));
    while i < n
        invariant
            i <= n,
            n == entries@.len(),
            n <= u32::MAX,
            all == entries_said(entries@),
            raw@ == le32(n as int) + entries_bytes(all.take(i as int)),
            forall|j: int| 0 <= j < i ==> entry_fits(#[trigger] all[j]),
        decreases n - i,
    {
        let ghost before = entries_bytes(all.take(i as int));
        assert(all.take(i + 1).drop_last() =~= all.take(i as int));
        assert(all.take(i + 1).last() == all[i as int]);
        let path = entries[i].0.as_str().as_bytes();
        if !push_chunk(&mut raw, path) {
            assert(!entry_fits(all[i as int]));
            return None;
        }
        if !push_chunk(&mut raw, entries[i].1.as_slice()) {
            assert(!entry_fits(all[i as int]));
            return None;
        }
        assert(raw@ =~= le32(n as int) + (before + entry_bytes(all[i as int])));
        i += 1;
    }
    assert(all.take(all.len() as int) =~= all);
    Some(raw)
}

/// Lays entries out, then compresses.
pub fn write(entries: &[(String, Vec<u8>)]) -> (res: Result<Vec<u8>, WriteFault>)
    ensures
        match res {
            Ok(packed) => fits(entries_said(entries@)) && zlib_packed(
                frame(entries_said(entries@)),
            ) == Some(packed@) && zlib_unpacked(packed@) == Some(frame(entries_said(entries@))),
            Err(WriteFault::TooLong) => !fits(entries_said(entries@)),
            Err(WriteFault::NotCompressed) => fits(entries_said(entries@)) && zlib_packed(
                frame(entries_said(entries@)),
            ) is None,
        },
{
    match lay_out(entries) {
        None => Err(WriteFault::TooLong),
        Some(raw) => match deflate(raw.as_slice()) {
            Some(packed) => Ok(packed),
            None => Err(WriteFault::NotCompressed),
        },
    }
}

// ---------------------------------------------------------------------------
// Reading
// ---------------------------------------------------------------------------

/// Why an archive did not parse.
#[derive(Debug, Clone, Copy, PartialEq, Eq, Structural)]
pub enum Flaw {
    /// It is no zlib stream.
    Corrupt,
    /// It ends in the middle of a length.
    Header,
    /// It ends in the middle of a field.
    Chunk,
    /// A path is not UTF-8.
    Path,
}

/// The archive did not parse. Every case means the same thing to a caller: this
/// binary's own build output is not what this code expects.
#[derive(Debug, Clone, Copy, PartialEq, Eq)]
pub struct ArchiveError(pub Flaw);

/// What a reader is told of a flaw.
pub open spec fn flaw_text(flaw: Flaw) -> Seq<char> {
    match flaw {
        Flaw::Corrupt => "the embedded skill archive is corrupt"@,
        Flaw::Header => "the embedded skill archive ends mid-header"@,
        Flaw::Chunk => "the embedded skill archive ends mid-chunk"@,
        Flaw::Path => "a skill path in the archive is not UTF-8"@,
    }
}

impl ArchiveError {
    /// What a reader is told.
    pub fn message(&self) -> (res: &'static str)
        ensures
            res@ == flaw_text(self.0),
    {
        match self.0 {
            Flaw::Corrupt => "the embedded skill archive is corrupt",
            Flaw::Header => "the embedded skill archive ends mid-header",
            Flaw::Chunk => "the embedded skill archive ends mid-chunk",
            Flaw::Path => "a skill path in the archive is not UTF-8",
        }
    }
}

/// The number at a position.
pub open spec fn number_at(raw: Seq<u8>, pos: int) -> Result<int, Flaw> {
    if pos + 4 <= raw.len() {
        Ok(le32_value(raw[pos], raw[pos + 1], raw[pos + 2], raw[pos + 3]))
    } else {
        Err(Flaw::Header)
    }
}

/// The bytes at a position that have their length in front.
pub open spec fn chunk_at(raw: Seq<u8>, pos: int) -> Result<Seq<u8>, Flaw> {
    match number_at(raw, pos) {
        Err(flaw) => Err(flaw),
        Ok(len) => if pos + 4 + len <= raw.len() {
            Ok(raw.subrange(pos + 4, pos + 4 + len))
        } else {
            Err(Flaw::Chunk)
        },
    }
}

/// The entry at a position, and where it ends.
pub open spec fn entry_at(raw: Seq<u8>, pos: int) -> Result<((Seq<char>, Seq<u8>), int), Flaw> {
    match chunk_at(raw, pos) {
        Err(flaw) => Err(flaw),
        Ok(path) => if vstd::utf8::valid_utf8(path) {
            match chunk_at(raw, pos + 4 + path.len()) {
                Err(flaw) => Err(flaw),
                Ok(body) => Ok(
                    (
                        (vstd::utf8::decode_utf8(path), body),
                        pos + 4 + path.len() + 4 + body.len(),
                    ),
                ),
            }
        } else {
            Err(Flaw::Path)
        },
    }
}

/// The first entries from a position on, and where they end.
pub open spec fn entries_at(raw: Seq<u8>, pos: int, count: int) -> Result<
    (Seq<(Seq<char>, Seq<u8>)>, int),
    Flaw,
>
    decreases count,
{
    if count <= 0 {
        Ok((Seq::empty(), pos))
    } else {
        match entries_at(raw, pos, count - 1) {
            Err(flaw) => Err(flaw),
            Ok((before, end)) => match entry_at(raw, end) {
                Err(flaw) => Err(flaw),
                Ok((entry, next)) => Ok((before.push(entry), next)),
            },
        }
    }
}

/// What bytes hold that were decompressed.
pub open spec fn unframed(raw: Seq<u8>) -> Result<Seq<(Seq<char>, Seq<u8>)>, Flaw> {
    match number_at(raw, 0) {
        Err(flaw) => Err(flaw),
        Ok(count) => match entries_at(raw, 4, count) {
            Err(flaw) => Err(flaw),
            Ok((entries, _)) => Ok(entries),
        },
    }
}

/// What an archive holds.
pub open spec fn contents(packed: Seq<u8>) -> Result<Seq<(Seq<char>, Seq<u8>)>, Flaw> {
    match zlib_unpacked(packed) {
        None => Err(Flaw::Corrupt),
        Some(raw) => unframed(raw),
    }
}

/// What reading came to.
pub open spec fn read_said(res: Result<Vec<(String, Vec<u8>)>, ArchiveError>) -> Result<
    Seq<(Seq<char>, Seq<u8>)>,
    Flaw,
> {
    match res {
        Ok(entries) => Ok(entries_said(entries@)),
        Err(error) => Err(error.0),
    }
}

fn read_number(raw: &[u8], pos: usize) -> (res: Result<u32, ArchiveError>)
    requires
        pos <= raw@.len(),
    ensures
        match res {
            Ok(n) => number_at(raw@, pos as int) == Ok::<int, Flaw>(n as int) && pos + 4
                <= raw@.len(),
            Err(error) => number_at(raw@, pos as int) == Err::<int, Flaw>(error.0),
        },
{
    if raw.len() - pos < 4 {
        return Err(ArchiveError(Flaw::Header));
    }
    Ok(
        raw[pos] as u32 + 0x100 * raw[pos + 1] as u32 + 0x1_0000 * raw[pos + 2] as u32 + 0x100_0000
            * raw[pos + 3] as u32,
    )
}

fn read_chunk(raw: &[u8], pos: usize) -> (res: Result<&[u8], ArchiveError>)
    requires
        pos <= raw@.len(),
    ensures
        match res {
            Ok(bytes) => chunk_at(raw@, pos as int) == Ok::<Seq<u8>, Flaw>(bytes@) && pos + 4
                + bytes@.len() <= raw@.len(),
            Err(error) => chunk_at(raw@, pos as int) == Err::<Seq<u8>, Flaw>(error.0),
        },
{
    let whole = raw.len();
    let len = match read_number(raw, pos) {
        Ok(n) => n as usize,
        Err(error) => return Err(error),
    };
    let start = pos + 4;
    if len > whole - start {
        return Err(ArchiveError(Flaw::Chunk));
    }
    Ok(vstd::slice::slice_subrange(raw, start, start + len))
}

/// Reads entries back, once they are decompressed.
pub fn take_apart(raw: &[u8]) -> (res: Result<Vec<(String, Vec<u8>)>, ArchiveError>)
    ensures
        read_said(res) == unframed(raw@),
{
    let whole = raw.len();
    let count = match read_number(raw, 0) {
        Ok(n) => n,
        Err(error) => return Err(error),
    };
    let mut out: Vec<(String, Vec<u8>)> = Vec::new();
    let mut pos: usize = 4;
    let mut i: u32 = 0;
    assert(entries_said(out@) =~= Seq::empty());
    while i < count
        invariant
            i <= count,
            whole == raw@.len(),
            pos <= whole,
            number_at(raw@, 0) == Ok::<int, Flaw>(count as int),
            entries_at(raw@, 4, i as int) == Ok::<(Seq<(Seq<char>, Seq<u8>)>, int), Flaw>(
                (entries_said(out@), pos as int),
            ),
        decreases count - i,
    {
        let ghost former = out@;
        let path = match read_chunk(raw, pos) {
            Ok(bytes) => bytes,
            Err(error) => {
                proof {
                    fails_early(raw@, i as int + 1, count as int, error.0);
                }
                return Err(error);
            },
        };
        let name = match utf8_text(path) {
            Some(name) => name,
            None => {
                proof {
                    fails_early(raw@, i as int + 1, count as int, Flaw::Path);
                }
                return Err(ArchiveError(Flaw::Path));
            },
        };
        let body = match read_chunk(raw, pos + 4 + path.len()) {
            Ok(bytes) => bytes,
            Err(error) => {
                proof {
                    fails_early(raw@, i as int + 1, count as int, error.0);
                }
                return Err(error);
            },
        };
        let ghost entry = (name@, body@);
        out.push((name, copy_bytes(body)));
        assert(entries_said(out@) =~= entries_said(former).push(entry));
        pos = pos + 4 + path.len() + 4 + body.len();
        i += 1;
    }
    Ok(out)
}

proof fn fails_early(raw: Seq<u8>, some: int, all: int, flaw: Flaw)
    requires
        some <= all,
        entries_at(raw, 4, some) == Err::<(Seq<(Seq<char>, Seq<u8>)>, int), Flaw>(flaw),
    ensures
        entries_at(raw, 4, all) == Err::<(Seq<(Seq<char>, Seq<u8>)>, int), Flaw>(flaw),
    decreases all - some,
{
    if some < all {
        fails_early(raw, some, all - 1, flaw);
    }
}

/// Decompresses, and reads the `(path, body)` pairs back.
pub fn read(archive: &[u8]) -> (res: Result<Vec<(String, Vec<u8>)>, ArchiveError>)
    ensures
        read_said(res) == contents(archive@),
{
    match inflate(archive) {
        None => Err(ArchiveError(Flaw::Corrupt)),
        Some(raw) => take_apart(raw.as_slice()),
    }
}

// ---------------------------------------------------------------------------
// Fingerprints
// ---------------------------------------------------------------------------

pub const FNV_OFFSET: u64 = 0xcbf2_9ce4_8422_2325;

pub const FNV_PRIME: u64 = 0x0000_0100_0000_01b3;

/// FNV-1a over bytes, from a state on.
pub open spec fn fnv(bytes: Seq<u8>, seed: u64) -> u64
    decreases bytes.len(),
{
    if bytes.len() == 0 {
        seed
    } else {
        (fnv(bytes.drop_last(), seed) ^ (bytes.last() as u64)).wrapping_mul(FNV_PRIME)
    }
}

/// Every path and body one after another.
pub open spec fn flat(entries: Seq<(Seq<char>, Seq<u8>)>) -> Seq<u8>
    decreases entries.len(),
{
    if entries.len() == 0 {
        Seq::empty()
    } else {
        flat(entries.drop_last()) + vstd::utf8::encode_utf8(entries.last().0) + entries.last().1
    }
}

fn fnv1a(bytes: &[u8], seed: u64) -> (res: u64)
    ensures
        res == fnv(bytes@, seed),
{
    let mut hash = seed;
    let mut i: usize = 0;
    assert(bytes@.take(0) =~= Seq::empty());
    while i < bytes.len()
        invariant
            i <= bytes@.len(),
            hash == fnv(bytes@.take(i as int), seed),
        decreases bytes@.len() - i,
    {
        assert(bytes@.take(i + 1).drop_last() =~= bytes@.take(i as int));
        hash = (hash ^ (bytes[i] as u64)).wrapping_mul(FNV_PRIME);
        i += 1;
    }
    assert(bytes@.take(bytes@.len() as int) =~= bytes@);
    hash
}

proof fn fnv_concat(a: Seq<u8>, b: Seq<u8>, seed: u64)
    ensures
        fnv(a + b, seed) == fnv(b, fnv(a, seed)),
    decreases b.len(),
{
    if b.len() == 0 {
        assert(a + b =~= a);
    } else {
        fnv_concat(a, b.drop_last(), seed);
        assert((a + b).drop_last() =~= a + b.drop_last());
        assert((a + b).last() == b.last());
    }
}

/// FNV-1a over the paths and bodies in order. It answers whether the copy on disk
/// is the one this binary carries, and nothing else.
pub fn fingerprint(entries: &[(String, Vec<u8>)]) -> (res: u64)
    ensures
        res == fnv(flat(entries_said(entries@)), FNV_OFFSET),
{
    let ghost all = entries_said(entries@);
    let mut hash = FNV_OFFSET;
    let mut i: usize = 0;
    assert(flat(all.take(0)) =~= Seq::empty());
    while i < entries.len()
        invariant
            i <= entries@.len(),
            all == entries_said(entries@),
            hash == fnv(flat(all.take(i as int)), FNV_OFFSET),
        decreases entries@.len() - i,
    {
        let ghost before = flat(all.take(i as int));
        assert(all.take(i + 1).drop_last() =~= all.take(i as int));
        assert(all.take(i + 1).last() == all[i as int]);
        let path = entries[i].0.as_str().as_bytes();
        let ghost named = before + path@;
        hash = fnv1a(path, hash);
        hash = fnv1a(entries[i].1.as_slice(), hash);
        proof {
            fnv_concat(before, path@, FNV_OFFSET);
            fnv_concat(named, entries@[i as int].1@, FNV_OFFSET);
        }
        i += 1;
    }
    assert(all.take(all.len() as int) =~= all);
    hash
}

// ---------------------------------------------------------------------------
// Laws
// ---------------------------------------------------------------------------

proof fn number_reads_back(raw: Seq<u8>, pos: int, n: int)
    requires
        0 <= n <= u32::MAX,
        0 <= pos,
        pos + 4 <= raw.len(),
        raw.subrange(pos, pos + 4) == le32(n),
    ensures
        number_at(raw, pos) == Ok::<int, Flaw>(n),
{
    let part = raw.subrange(pos, pos + 4);
    assert(part[0] == raw[pos]);
    assert(part[1] == raw[pos + 1]);
    assert(part[2] == raw[pos + 2]);
    assert(part[3] == raw[pos + 3]);
    assert(n == n % 0x100 + 0x100 * (n / 0x100 % 0x100) + 0x1_0000 * (n / 0x1_0000 % 0x100)
        + 0x100_0000 * (n / 0x100_0000 % 0x100)) by (nonlinear_arith)
        requires
            0 <= n <= 0xffff_ffff,
    ;
}

proof fn chunk_reads_back(before: Seq<u8>, bytes: Seq<u8>, after: Seq<u8>)
    requires
        bytes.len() <= u32::MAX,
    ensures
        chunk_at(before + chunk(bytes) + after, before.len() as int) == Ok::<Seq<u8>, Flaw>(bytes),
{
    let raw = before + chunk(bytes) + after;
    let pos = before.len() as int;
    assert(raw.subrange(pos, pos + 4) =~= le32(bytes.len() as int));
    number_reads_back(raw, pos, bytes.len() as int);
    assert(raw.subrange(pos + 4, pos + 4 + bytes.len()) =~= bytes);
}

/// Bytes in a row can be grouped in any way.
proof fn regrouped(before: Seq<u8>, one: Seq<u8>, two: Seq<u8>, after: Seq<u8>)
    ensures
        before + (one + two) + after == before + one + (two + after),
        before + (one + two) + after == (before + one) + two + after,
        (before + one).len() == before.len() + one.len(),
        (before + (one + two)).len() == before.len() + one.len() + two.len(),
{
    assert(before + (one + two) + after =~= before + one + (two + after));
    assert(before + (one + two) + after =~= (before + one) + two + after);
}

proof fn chunk_len(bytes: Seq<u8>)
    ensures
        chunk(bytes).len() == 4 + bytes.len(),
{
}

#[verifier::spinoff_prover]
proof fn fields_read_back(before: Seq<u8>, path: Seq<u8>, body: Seq<u8>, after: Seq<u8>)
    requires
        path.len() <= u32::MAX,
        body.len() <= u32::MAX,
    ensures
        ({
            let raw = before + (chunk(path) + chunk(body)) + after;
            let pos = before.len() as int;
            &&& chunk_at(raw, pos) == Ok::<Seq<u8>, Flaw>(path)
            &&& chunk_at(raw, pos + 4 + path.len()) == Ok::<Seq<u8>, Flaw>(body)
            &&& pos + 4 + path.len() + 4 + body.len() == (before + (chunk(path) + chunk(
                body,
            ))).len()
        }),
{
    let one = chunk(path);
    let two = chunk(body);
    regrouped(before, one, two, after);
    chunk_len(path);
    chunk_len(body);
    chunk_reads_back(before, path, two + after);
    chunk_reads_back(before + one, body, after);
}

proof fn path_reads_back(path: Seq<char>)
    ensures
        vstd::utf8::valid_utf8(vstd::utf8::encode_utf8(path)),
        vstd::utf8::decode_utf8(vstd::utf8::encode_utf8(path)) == path,
{
    vstd::utf8::encode_utf8_valid_utf8(path);
    vstd::utf8::encode_utf8_decode_utf8(path);
}

proof fn entry_reads_back(before: Seq<u8>, entry: (Seq<char>, Seq<u8>), after: Seq<u8>)
    requires
        entry_fits(entry),
    ensures
        entry_at(before + entry_bytes(entry) + after, before.len() as int) == Ok::<
            ((Seq<char>, Seq<u8>), int),
            Flaw,
        >((entry, (before + entry_bytes(entry)).len() as int)),
{
    fields_read_back(before, vstd::utf8::encode_utf8(entry.0), entry.1, after);
    path_reads_back(entry.0);
}

proof fn entries_read_back(
    head: Seq<u8>,
    entries: Seq<(Seq<char>, Seq<u8>)>,
    after: Seq<u8>,
)
    requires
        head.len() == 4,
        forall|i: int| 0 <= i < entries.len() ==> entry_fits(#[trigger] entries[i]),
    ensures
        entries_at(head + entries_bytes(entries) + after, 4, entries.len() as int) == Ok::<
            (Seq<(Seq<char>, Seq<u8>)>, int),
            Flaw,
        >((entries, (head + entries_bytes(entries)).len() as int)),
    decreases entries.len(),
{
    let raw = head + entries_bytes(entries) + after;
    if entries.len() == 0 {
        assert(entries =~= Seq::empty());
    } else {
        let less = entries.drop_last();
        let last = entries.last();
        let rest = entry_bytes(last) + after;
        assert(raw =~= head + entries_bytes(less) + rest);
        entries_read_back(head, less, rest);
        let before = head + entries_bytes(less);
        assert(raw =~= before + entry_bytes(last) + after);
        assert(entry_fits(entries[entries.len() - 1]));
        entry_reads_back(before, last, after);
        assert(before + entry_bytes(last) =~= head + entries_bytes(entries));
        assert(less.push(last) =~= entries);
    }
}

/// The writer and the reader agree: what was laid out reads back as it was.
pub proof fn framing_round_trips(entries: Seq<(Seq<char>, Seq<u8>)>)
    requires
        fits(entries),
    ensures
        unframed(frame(entries)) == Ok::<Seq<(Seq<char>, Seq<u8>)>, Flaw>(entries),
{
    let head = le32(entries.len() as int);
    let none = Seq::<u8>::empty();
    let raw = frame(entries);
    assert(raw.subrange(0, 4) =~= head);
    number_reads_back(raw, 0, entries.len() as int);
    entries_read_back(head, entries, none);
    assert(raw =~= head + entries_bytes(entries) + none);
}

/// An archive that decompresses to what was laid out holds exactly the entries
/// that were laid out; the archive that is written for them does.
pub proof fn archive_round_trips(entries: Seq<(Seq<char>, Seq<u8>)>, packed: Seq<u8>)
    requires
        fits(entries),
        zlib_unpacked(packed) == Some(frame(entries)),
    ensures
        contents(packed) == Ok::<Seq<(Seq<char>, Seq<u8>)>, Flaw>(entries),
{
    framing_round_trips(entries);
}

} // verus!
