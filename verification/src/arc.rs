//! The MT Framework archive format, as far as this project needs it.
//!
//! ```text
//! offset  size  what
//! 0x00    4     "ARC\0"
//! 0x04    2     version, 7 in this game
//! 0x06    2     number of entries
//! 0x08    80    first entry, then one every 80 bytes
//! ```
//!
//! Each entry is a path of 64 null-padded bytes, the hash of the extension, the
//! compressed size, the decompressed size with flags in its top bits, and the
//! offset of the compressed data. Payloads are zlib streams, stored in order
//! after the table, the first one at `0x8000`.

use vstd::prelude::*;
use vstd::utf8::{decode_utf8, encode_utf8, encode_scalar, valid_utf8};

use std::io::Read;
use std::io::Write;

use crate::bytes::{le_u16, le_u32, put_u16, put_u32, read_u16, read_u32, u16_bytes, u32_bytes};
use crate::text::{chars_of, lossy_text, string_of, utf8_lossy};

verus! {

pub const HEADER: usize = 8;

/// Bytes per table entry.
pub const ENTRY: usize = 0x50;

/// Bytes of the path field.
pub const NAME: usize = 0x40;

/// Where the first payload starts, taken from the game's own archives so a
/// rebuilt archive is laid out the way the game's are.
pub const DATA_START: usize = 0x8000;

/// The decompressed size shares its word with flags.
pub const SIZE_MASK: u32 = 0x3FFF_FFFF;

/// What flate2's zlib decoder makes of `bytes`: the decompressed bytes, or
/// nothing when they are not a zlib stream it can decode.
pub uninterp spec fn zlib_inflate(bytes: Seq<u8>) -> Option<Seq<u8>>;

/// What flate2's zlib encoder at its best compression makes of `bytes`.
pub uninterp spec fn zlib_deflate_best(bytes: Seq<u8>) -> Seq<u8>;

/// Decompresses a zlib stream (flate2's `read::ZlibDecoder`, read to the
/// end). Which bytes come out is left to the name.
#[verifier::external_body]
fn inflate_stream(bytes: &[u8]) -> (r: Option<Vec<u8>>)
    ensures
        match r {
            Some(v) => zlib_inflate(bytes@) == Some(v@),
            None => zlib_inflate(bytes@) is None,
        },
{
    let mut out = Vec::new();
    match flate2::read::ZlibDecoder::new(bytes).read_to_end(&mut out) {
        Ok(_) => Some(out),
        Err(_) => None,
    }
}

/// Compresses `bytes` into a zlib stream (flate2's `write::ZlibEncoder` over
/// a `Vec`, at `Compression::best()`). Which bytes come out is left to the
/// name; that the zlib decoder gives the input back from them is what a
/// lossless stream is, and what flate2's own round-trip tests check. Writing
/// into a `Vec` does not fail.
#[verifier::external_body]
fn deflate_stream(bytes: &[u8]) -> (r: Vec<u8>)
    ensures
        r@ == zlib_deflate_best(bytes@),
        zlib_inflate(r@) == Some(bytes@),
{
    let mut encoder = flate2::write::ZlibEncoder::new(Vec::new(), flate2::Compression::best());
    let _ = encoder.write_all(bytes);
    encoder.finish().unwrap_or_default()
}

pub struct Entry {
    pub name: String,
    pub extension: u32,
    /// Flags kept exactly as they were, since what they mean is not known.
    pub flags: u32,
    pub data: Vec<u8>,
}

pub struct Archive {
    pub version: u16,
    pub entries: Vec<Entry>,
}

/// An entry as a value.
pub struct EntryView {
    pub name: Seq<char>,
    pub extension: u32,
    pub flags: u32,
    pub data: Seq<u8>,
}

impl View for Entry {
    type V = EntryView;

    open spec fn view(&self) -> EntryView {
        EntryView { name: self.name@, extension: self.extension, flags: self.flags, data: self.data@ }
    }
}

/// Why an archive was refused.
#[derive(Clone, Copy, Debug, PartialEq, Eq, Structural)]
pub enum ArcError {
    /// Too short, or not starting with `ARC\0`.
    NotArc,
    /// The table of this many entries does not fit in the file.
    TruncatedTable { count: u16 },
    /// The entry's data runs past the end of the file.
    RunsPastEnd { index: usize },
    /// The entry's data is not a zlib stream.
    Inflate { index: usize },
    /// The entry decompressed to a size other than the table's.
    SizeMismatch { index: usize, got: usize, expected: usize },
}

/// `s` without the null characters at its end.
pub open spec fn trimmed(s: Seq<char>) -> Seq<char>
    decreases s.len(),
{
    if s.len() > 0 && s.last() == '\0' {
        trimmed(s.drop_last())
    } else {
        s
    }
}

/// What a path field reads as: its characters where it is valid UTF-8,
/// else what std's lossy decoder makes of it.
pub open spec fn field_text(f: Seq<u8>) -> Seq<char> {
    if valid_utf8(f) {
        decode_utf8(f)
    } else {
        utf8_lossy(f)
    }
}

/// The entry described at table row `i`, decompressed.
pub open spec fn entry_at(b: Seq<u8>, i: int) -> Result<EntryView, ArcError> {
    let at = HEADER + ENTRY * i;
    let compressed = le_u32(b, at + 0x44);
    let size_word = le_u32(b, at + 0x48);
    let offset = le_u32(b, at + 0x4C);
    if offset + compressed > b.len() {
        Err(ArcError::RunsPastEnd { index: i as usize })
    } else {
        match zlib_inflate(b.subrange(offset as int, offset + compressed)) {
            None => Err(ArcError::Inflate { index: i as usize }),
            Some(data) => if data.len() != (size_word & SIZE_MASK) {
                Err(
                    ArcError::SizeMismatch {
                        index: i as usize,
                        got: data.len() as usize,
                        expected: (size_word & SIZE_MASK) as usize,
                    },
                )
            } else {
                Ok(
                    EntryView {
                        name: trimmed(field_text(b.subrange(at, at + NAME))),
                        extension: le_u32(b, at + 0x40),
                        flags: size_word & !SIZE_MASK,
                        data,
                    },
                )
            },
        }
    }
}

/// The first `n` entries, or the first of them that fails.
pub open spec fn entries_from(b: Seq<u8>, n: nat) -> Result<Seq<EntryView>, ArcError>
    decreases n,
{
    if n == 0 {
        Ok(seq![])
    } else {
        match entries_from(b, (n - 1) as nat) {
            Err(e) => Err(e),
            Ok(es) => match entry_at(b, n - 1) {
                Err(e) => Err(e),
                Ok(x) => Ok(es.push(x)),
            },
        }
    }
}

/// What reading `b` gives: the version and the entries, or why it failed.
pub open spec fn read_archive(b: Seq<u8>) -> Result<(u16, Seq<EntryView>), ArcError> {
    if b.len() < HEADER || !(b[0] == 0x41 && b[1] == 0x52 && b[2] == 0x43 && b[3] == 0) {
        Err(ArcError::NotArc)
    } else {
        let count = le_u16(b, 6);
        if b.len() < HEADER + count * ENTRY {
            Err(ArcError::TruncatedTable { count })
        } else {
            match entries_from(b, count as nat) {
                Err(e) => Err(e),
                Ok(es) => Ok((le_u16(b, 4), es)),
            }
        }
    }
}

/// The 64-byte path field: the name's UTF-8 bytes, at most 63 of them, then
/// nulls.
pub open spec fn name_field(name: Seq<char>) -> Seq<u8> {
    let bytes = encode_utf8(name);
    let n = if bytes.len() < NAME - 1 {
        bytes.len() as int
    } else {
        NAME - 1
    };
    bytes.take(n) + Seq::new((NAME - n) as nat, |_i: int| 0u8)
}

/// The table row of an entry whose data compressed to `compressed` bytes and
/// sits at `offset`.
pub open spec fn row(e: EntryView, compressed: nat, offset: int) -> Seq<u8> {
    name_field(e.name) + u32_bytes(e.extension) + u32_bytes(compressed as u32) + u32_bytes(
        (e.data.len() as u32) | e.flags,
    ) + u32_bytes(offset as u32)
}

/// The compressed data of every entry, in order.
pub open spec fn payload(entries: Seq<EntryView>) -> Seq<u8>
    decreases entries.len(),
{
    if entries.len() == 0 {
        seq![]
    } else {
        payload(entries.drop_last()) + zlib_deflate_best(entries.last().data)
    }
}

/// The table rows of every entry, each pointing at its data.
pub open spec fn rows(entries: Seq<EntryView>) -> Seq<u8>
    decreases entries.len(),
{
    if entries.len() == 0 {
        seq![]
    } else {
        let init = entries.drop_last();
        rows(init) + row(
            entries.last(),
            zlib_deflate_best(entries.last().data).len(),
            DATA_START + payload(init).len(),
        )
    }
}

/// `t` cut or padded with nulls to `n` bytes.
pub open spec fn resized(t: Seq<u8>, n: nat) -> Seq<u8> {
    if t.len() >= n {
        t.take(n as int)
    } else {
        t + Seq::new((n - t.len()) as nat, |_i: int| 0u8)
    }
}

/// The bytes of an archive: the table, cut or padded to where the data
/// starts, then the data.
pub open spec fn archive_bytes(version: u16, entries: Seq<EntryView>) -> Seq<u8> {
    let table = seq![0x41u8, 0x52u8, 0x43u8, 0u8] + u16_bytes(version) + u16_bytes(
        entries.len() as u16,
    ) + rows(entries);
    resized(table, DATA_START as nat) + payload(entries)
}

/// The first `n` characters of `s` without its trailing nulls.
pub(crate) fn trim_nulls(s: &[char]) -> (r: Vec<char>)
    ensures
        r@ == trimmed(s@),
{
    let mut n = s.len();
    assert(s@.take(n as int) =~= s@);
    while n > 0 && s[n - 1] == '\0'
        invariant
            n <= s@.len(),
            trimmed(s@) == trimmed(s@.take(n as int)),
        decreases n,
    {
        assert(s@.take(n as int).drop_last() =~= s@.take(n - 1));
        n -= 1;
    }
    let mut out: Vec<char> = Vec::new();
    let mut i: usize = 0;
    while i < n
        invariant
            i <= n,
            n <= s@.len(),
            out@ == s@.take(i as int),
        decreases n - i,
    {
        out.push(s[i]);
        i += 1;
        assert(out@ =~= s@.take(i as int));
    }
    assert(s@.take(n as int) =~= out@);
    assert(n == 0 || s@.take(n as int).last() != '\0');
    out
}

impl Archive {
    pub open spec fn entries_view(&self) -> Seq<EntryView> {
        self.entries@.map_values(|e: Entry| e@)
    }

    /// Reads an archive, decompressing every entry.
    pub fn read(bytes: &[u8]) -> (r: Result<Archive, ArcError>)
        ensures
            match r {
                Ok(a) => read_archive(bytes@) == Ok::<(u16, Seq<EntryView>), ArcError>(
                    (a.version, a.entries_view()),
                ),
                Err(e) => read_archive(bytes@) == Err::<(u16, Seq<EntryView>), ArcError>(e),
            },
    {
        if bytes.len() < HEADER || !(bytes[0] == 0x41 && bytes[1] == 0x52 && bytes[2] == 0x43
            && bytes[3] == 0) {
            return Err(ArcError::NotArc);
        }
        let version = read_u16(bytes, 4);
        let count = read_u16(bytes, 6);
        if bytes.len() < HEADER + count as usize * ENTRY {
            return Err(ArcError::TruncatedTable { count });
        }
        let mut entries: Vec<Entry> = Vec::new();
        let mut index: usize = 0;
        assert(entries@.map_values(|e: Entry| e@) =~= Seq::<EntryView>::empty());
        while index < count as usize
            invariant
                index <= count,
                bytes@.len() >= HEADER,
                bytes@[0] == 0x41 && bytes@[1] == 0x52 && bytes@[2] == 0x43 && bytes@[3] == 0,
                version == le_u16(bytes@, 4),
                count == le_u16(bytes@, 6),
                HEADER + count * ENTRY <= bytes@.len(),
                entries_from(bytes@, index as nat) == Ok::<Seq<EntryView>, ArcError>(
                    entries@.map_values(|e: Entry| e@),
                ),
            decreases count - index,
        {
            let at = HEADER + index * ENTRY;
            let extension = read_u32(bytes, at + 0x40);
            let compressed = read_u32(bytes, at + 0x44);
            let size_word = read_u32(bytes, at + 0x48);
            let offset = read_u32(bytes, at + 0x4C);
            let size = size_word & SIZE_MASK;
            let flags = size_word & !SIZE_MASK;
            if offset as u64 + compressed as u64 > bytes.len() as u64 {
                proof {
                    assert(entries_from(bytes@, (index + 1) as nat) is Err);
                    lemma_entries_stay_failed(bytes@, (index + 1) as nat, count as nat);
                }
                return Err(ArcError::RunsPastEnd { index });
            }
            let start = offset as usize;
            let end = start + compressed as usize;
            let raw = &bytes[start..end];
            let data = match inflate_stream(raw) {
                Some(data) => data,
                None => {
                    proof {
                        assert(entries_from(bytes@, (index + 1) as nat) is Err);
                        lemma_entries_stay_failed(bytes@, (index + 1) as nat, count as nat);
                    }
                    return Err(ArcError::Inflate { index });
                },
            };
            if data.len() != size as usize {
                proof {
                    assert(entries_from(bytes@, (index + 1) as nat) is Err);
                    lemma_entries_stay_failed(bytes@, (index + 1) as nat, count as nat);
                }
                return Err(ArcError::SizeMismatch { index, got: data.len(), expected: size as usize });
            }
            let field = &bytes[at..at + NAME];
            let decoded = lossy_text(field);
            assert(decoded@ == field_text(field@));
            let chars = chars_of(decoded.as_str());
            let name = string_of(trim_nulls(chars.as_slice()).as_slice());
            let ghost before = entries@;
            let entry = Entry { name, extension, flags, data };
            entries.push(entry);
            proof {
                assert(entries@.map_values(|e: Entry| e@) =~= before.map_values(|e: Entry| e@).push(entry@));
            }
            index += 1;
        }
        Ok(Archive { version, entries })
    }

    /// Writes the archive back out, compressing every entry again.
    ///
    /// The result is not byte-identical to the game's archive even when nothing
    /// changed: the compressor is not the one Capcom used. The game only reads
    /// the sizes recorded in the table, so that is fine.
    ///
    /// Reading the result gives back the same version and entries whenever
    /// they are `writable` and every entry's offset and compressed size fit
    /// the table's 32-bit fields.
    #[verifier::rlimit(40)]
    pub fn write(&self) -> (r: Vec<u8>)
        ensures
            r@ == archive_bytes(self.version, self.entries_view()),
            writable(self.entries_view()) && offsets_fit(self.entries_view()) ==> read_archive(r@) == Ok::<
                (u16, Seq<EntryView>),
                ArcError,
            >((self.version, self.entries_view())),
    {
        let mut rows_out: Vec<u8> = Vec::new();
        let mut data: Vec<u8> = Vec::new();
        let mut index: usize = 0;
        while index < self.entries.len()
            invariant
                index <= self.entries@.len(),
                rows_out@ == rows(self.entries_view().take(index as int)),
                data@ == payload(self.entries_view().take(index as int)),
                forall|j: int|
                    0 <= j < index ==> #[trigger] zlib_inflate(zlib_deflate_best(self.entries_view()[j].data))
                        == Some(self.entries_view()[j].data),
            decreases self.entries@.len() - index,
        {
            let entry = &self.entries[index];
            let ghost done = self.entries_view().take(index as int);
            proof {
                assert(self.entries_view().take(index + 1).drop_last() =~= done);
                assert(self.entries_view().take(index + 1).last() == entry@);
            }
            let compressed = deflate_stream(entry.data.as_slice());
            assert(zlib_inflate(zlib_deflate_best(self.entries_view()[index as int].data)) == Some(
                self.entries_view()[index as int].data,
            ));
            let offset = (DATA_START as u128 + data.len() as u128) as u32;
            let ghost before = rows_out@;
            let name = entry.name.as_str().as_bytes();
            let n = if name.len() < NAME - 1 {
                name.len()
            } else {
                NAME - 1
            };
            let mut k: usize = 0;
            while k < NAME
                invariant
                    k <= NAME,
                    n <= name@.len(),
                    n == (if name@.len() < NAME - 1 { name@.len() as int } else { NAME - 1 }),
                    rows_out@ == before + name_field(entry.name@).take(k as int),
                    name@ == encode_utf8(entry.name@),
                decreases NAME - k,
            {
                if k < n {
                    rows_out.push(name[k]);
                } else {
                    rows_out.push(0);
                }
                k += 1;
                assert(rows_out@ =~= before + name_field(entry.name@).take(k as int));
            }
            assert(name_field(entry.name@).take(NAME as int) =~= name_field(entry.name@));
            put_u32(&mut rows_out, entry.extension);
            put_u32(&mut rows_out, compressed.len() as u32);
            put_u32(&mut rows_out, entry.data.len() as u32 | entry.flags);
            put_u32(&mut rows_out, offset);
            proof {
                assert(rows_out@ =~= before + row(entry@, compressed@.len(), DATA_START + payload(done).len()));
            }
            let ghost before_data = data@;
            let mut c: usize = 0;
            while c < compressed.len()
                invariant
                    c <= compressed@.len(),
                    data@ == before_data + compressed@.take(c as int),
                decreases compressed@.len() - c,
            {
                data.push(compressed[c]);
                c += 1;
                assert(data@ =~= before_data + compressed@.take(c as int));
            }
            assert(compressed@.take(compressed@.len() as int) =~= compressed@);
            index += 1;
        }
        assert(self.entries_view().take(self.entries@.len() as int) =~= self.entries_view());
        let mut out: Vec<u8> = Vec::new();
        out.push(0x41);
        out.push(0x52);
        out.push(0x43);
        out.push(0);
        put_u16(&mut out, self.version);
        put_u16(&mut out, self.entries.len() as u16);
        let ghost head = out@;
        let mut k: usize = 0;
        while k < rows_out.len()
            invariant
                k <= rows_out@.len(),
                out@ == head + rows_out@.take(k as int),
            decreases rows_out@.len() - k,
        {
            out.push(rows_out[k]);
            k += 1;
            assert(out@ =~= head + rows_out@.take(k as int));
        }
        assert(rows_out@.take(rows_out@.len() as int) =~= rows_out@);
        let ghost table = out@;
        assert(table =~= seq![0x41u8, 0x52u8, 0x43u8, 0u8] + u16_bytes(self.version) + u16_bytes(
            self.entries_view().len() as u16,
        ) + rows(self.entries_view()));
        let mut sized: Vec<u8> = Vec::new();
        let mut t: usize = 0;
        while t < DATA_START
            invariant
                t <= DATA_START,
                table == out@,
                sized@ == resized(table, DATA_START as nat).take(t as int),
            decreases DATA_START - t,
        {
            if t < out.len() {
                sized.push(out[t]);
            } else {
                sized.push(0);
            }
            t += 1;
            assert(sized@ =~= resized(table, DATA_START as nat).take(t as int));
        }
        assert(resized(table, DATA_START as nat).take(DATA_START as int) =~= resized(table, DATA_START as nat));
        let ghost front = sized@;
        let mut d: usize = 0;
        while d < data.len()
            invariant
                d <= data@.len(),
                sized@ == front + data@.take(d as int),
            decreases data@.len() - d,
        {
            sized.push(data[d]);
            d += 1;
            assert(sized@ =~= front + data@.take(d as int));
        }
        assert(data@.take(data@.len() as int) =~= data@);
        proof {
            if writable(self.entries_view()) && offsets_fit(self.entries_view()) {
                lemma_written_reads_back(self.version, self.entries_view());
            }
        }
        sized
    }

    /// The index of the first entry named `name`.
    pub fn find(&self, name: &str) -> (r: Option<usize>)
        ensures
            match r {
                Some(i) => i < self.entries@.len() && self.entries@[i as int].name@ == name@ && forall|j: int|
                    0 <= j < i ==> self.entries@[j].name@ != name@,
                None => forall|j: int| 0 <= j < self.entries@.len() ==> self.entries@[j].name@ != name@,
            },
    {
        let wanted = chars_of(name);
        let mut i: usize = 0;
        while i < self.entries.len()
            invariant
                i <= self.entries@.len(),
                wanted@ == name@,
                forall|j: int| 0 <= j < i ==> self.entries@[j].name@ != name@,
            decreases self.entries@.len() - i,
        {
            let have = chars_of(self.entries[i].name.as_str());
            if same_chars(have.as_slice(), wanted.as_slice()) {
                return Some(i);
            }
            i += 1;
        }
        None
    }

    /// Replaces the data of the entry at `index`; `false` when there is none.
    pub fn set_data(&mut self, index: usize, data: Vec<u8>) -> (r: bool)
        ensures
            r == (index < old(self).entries@.len()),
            final(self).version == old(self).version,
            final(self).entries@.len() == old(self).entries@.len(),
            forall|j: int|
                0 <= j < old(self).entries@.len() ==> #[trigger] final(self).entries_view()[j] == if j == index {
                    EntryView { data: data@, ..old(self).entries_view()[j] }
                } else {
                    old(self).entries_view()[j]
                },
    {
        if index >= self.entries.len() {
            proof {
                assert forall|j: int| 0 <= j < old(self).entries@.len() implies #[trigger] self.entries_view()[j]
                    == old(self).entries_view()[j] by {}
            }
            return false;
        }
        let ghost before = self.entries@;
        let mut entry = self.entries.remove(index);
        entry.data = data;
        self.entries.insert(index, entry);
        proof {
            assert(self.entries@ =~= before.update(index as int, entry));
        }
        true
    }
}

/// Whether two character lists are equal.
fn same_chars(a: &[char], b: &[char]) -> (r: bool)
    ensures
        r == (a@ == b@),
{
    if a.len() != b.len() {
        assert(a@.len() != b@.len());
        return false;
    }
    let mut i: usize = 0;
    while i < a.len()
        invariant
            i <= a@.len(),
            a@.len() == b@.len(),
            forall|j: int| 0 <= j < i ==> a@[j] == b@[j],
        decreases a@.len() - i,
    {
        if a[i] != b[i] {
            assert(a@[i as int] != b@[i as int]);
            return false;
        }
        i += 1;
    }
    assert(a@ =~= b@);
    true
}

/// `k` null characters.
pub open spec fn nuls(k: nat) -> Seq<char> {
    Seq::new(k, |_i: int| '\0')
}

/// Whether writing these entries and reading the bytes back gives them
/// again: the table ends before the data starts, each name fits its field
/// and does not end in a null, each size fits below the flag bits, and the
/// flags stay out of the size's bits.
pub open spec fn writable(entries: Seq<EntryView>) -> bool {
    &&& HEADER + ENTRY * entries.len() <= DATA_START
    &&& forall|i: int|
        0 <= i < entries.len() ==> {
            &&& encode_utf8(#[trigger] entries[i].name).len() < NAME
            &&& !(entries[i].name.len() > 0 && entries[i].name.last() == '\0')
            &&& entries[i].data.len() <= SIZE_MASK
            &&& entries[i].flags & SIZE_MASK == 0
        }
}

proof fn lemma_encode_concat(a: Seq<char>, b: Seq<char>)
    ensures
        encode_utf8(a + b) == encode_utf8(a) + encode_utf8(b),
    decreases a.len(),
{
    if a.len() == 0 {
        assert(a + b =~= b);
        assert(encode_utf8(a) =~= Seq::<u8>::empty());
        assert(encode_utf8(a) + encode_utf8(b) =~= encode_utf8(b));
    } else {
        assert((a + b).drop_first() =~= a.drop_first() + b);
        assert((a + b)[0] == a[0]);
        lemma_encode_concat(a.drop_first(), b);
        assert(encode_utf8(a + b) =~= encode_utf8(a) + encode_utf8(b));
    }
}

proof fn lemma_encode_nuls(k: nat)
    ensures
        encode_utf8(nuls(k)) == Seq::new(k, |_i: int| 0u8),
    decreases k,
{
    if k == 0 {
        assert(encode_utf8(nuls(k)) =~= Seq::new(k, |_i: int| 0u8));
    } else {
        lemma_encode_nuls((k - 1) as nat);
        assert(nuls(k).drop_first() =~= nuls((k - 1) as nat));
        assert(('\0' as u32) == 0u32);
        assert(0u32 & 0x7F == 0u32) by (bit_vector);
        assert(encode_scalar(nuls(k)[0] as u32) =~= seq![0u8]);
        assert(encode_utf8(nuls(k)) =~= Seq::new(k, |_i: int| 0u8));
    }
}

proof fn lemma_trimmed_nuls(s: Seq<char>, k: nat)
    requires
        !(s.len() > 0 && s.last() == '\0'),
    ensures
        trimmed(s + nuls(k)) == s,
    decreases k,
{
    if k == 0 {
        assert(s + nuls(k) =~= s);
    } else {
        assert((s + nuls(k)).drop_last() =~= s + nuls((k - 1) as nat));
        lemma_trimmed_nuls(s, (k - 1) as nat);
    }
}

/// A name that fits its field reads back as itself.
proof fn lemma_name_field_reads(name: Seq<char>)
    requires
        encode_utf8(name).len() < NAME,
        !(name.len() > 0 && name.last() == '\0'),
    ensures
        name_field(name).len() == NAME,
        trimmed(field_text(name_field(name))) == name,
{
    let bytes = encode_utf8(name);
    let k = (NAME - bytes.len()) as nat;
    lemma_encode_nuls(k);
    lemma_encode_concat(name, nuls(k));
    assert(bytes.take(bytes.len() as int) =~= bytes);
    assert(name_field(name) =~= encode_utf8(name + nuls(k)));
    vstd::utf8::encode_utf8_valid_utf8(name + nuls(k));
    vstd::utf8::encode_utf8_decode_utf8(name + nuls(k));
    lemma_trimmed_nuls(name, k);
}

proof fn lemma_row_len(e: EntryView, c: nat, o: int)
    ensures
        row(e, c, o).len() == ENTRY,
{
}

/// The rows of the first `k` entries begin the rows of all of them.
proof fn lemma_rows_prefix(es: Seq<EntryView>, k: int)
    requires
        0 <= k <= es.len(),
    ensures
        rows(es).len() == ENTRY * es.len(),
        rows(es.take(k)).len() == ENTRY * k,
        rows(es).subrange(0, ENTRY * k) == rows(es.take(k)),
    decreases es.len(),
{
    if es.len() == 0 {
        assert(es.take(k) =~= es);
    } else if k == es.len() {
        lemma_rows_prefix(es.drop_last(), 0);
        lemma_row_len(es.last(), zlib_deflate_best(es.last().data).len(), DATA_START + payload(es.drop_last()).len());
        assert(es.take(k) =~= es);
        assert(rows(es).subrange(0, ENTRY * k) =~= rows(es));
    } else {
        let init = es.drop_last();
        lemma_rows_prefix(init, k);
        lemma_row_len(es.last(), zlib_deflate_best(es.last().data).len(), DATA_START + payload(init).len());
        assert(init.take(k) =~= es.take(k));
        assert(rows(es).subrange(0, ENTRY * k) =~= rows(init).subrange(0, ENTRY * k));
    }
}

/// The data of the first `k` entries begins the data of all of them.
proof fn lemma_payload_prefix(es: Seq<EntryView>, k: int)
    requires
        0 <= k <= es.len(),
    ensures
        payload(es.take(k)).len() <= payload(es).len(),
        payload(es).subrange(0, payload(es.take(k)).len() as int) == payload(es.take(k)),
    decreases es.len(),
{
    if k == es.len() {
        assert(es.take(k) =~= es);
        assert(payload(es).subrange(0, payload(es).len() as int) =~= payload(es));
    } else {
        let init = es.drop_last();
        lemma_payload_prefix(init, k);
        assert(init.take(k) =~= es.take(k));
        assert(payload(es).subrange(0, payload(es.take(k)).len() as int) =~= payload(init).subrange(
            0,
            payload(es.take(k)).len() as int,
        ));
    }
}

proof fn lemma_le_u32_at(b: Seq<u8>, p: int, v: u32)
    requires
        0 <= p,
        p + 4 <= b.len(),
        b.subrange(p, p + 4) == u32_bytes(v),
    ensures
        le_u32(b, p) == v,
{
    crate::bytes::lemma_u32_round_trip(v, b.subrange(p + 4, b.len() as int), b.subrange(0, p));
    assert(b =~= b.subrange(0, p) + u32_bytes(v) + b.subrange(p + 4, b.len() as int));
}

proof fn lemma_size_word(size: u32, flags: u32)
    requires
        size <= SIZE_MASK,
        flags & SIZE_MASK == 0,
    ensures
        (size | flags) & SIZE_MASK == size,
        (size | flags) & !SIZE_MASK == flags,
{
    assert((size | flags) & 0x3FFF_FFFFu32 == size) by (bit_vector)
        requires
            size <= 0x3FFF_FFFFu32,
            flags & 0x3FFF_FFFFu32 == 0,
    ;
    assert((size | flags) & !0x3FFF_FFFFu32 == flags) by (bit_vector)
        requires
            size <= 0x3FFF_FFFFu32,
            flags & 0x3FFF_FFFFu32 == 0,
    ;
}

/// Whether every entry's data starts, and its compressed size is, within
/// what the table's 32-bit fields hold.
pub open spec fn offsets_fit(es: Seq<EntryView>) -> bool {
    forall|i: int|
        0 <= i < es.len() ==> data_offset(es, i) <= u32::MAX && #[trigger] zlib_deflate_best(
            es[i].data,
        ).len() <= u32::MAX
}

/// Where entry `i`'s data starts in written bytes.
pub open spec fn data_offset(es: Seq<EntryView>, i: int) -> int {
    DATA_START + payload(es.take(i)).len()
}

/// The header of written bytes.
spec fn written_head(version: u16, n: nat) -> Seq<u8> {
    seq![0x41u8, 0x52u8, 0x43u8, 0u8] + u16_bytes(version) + u16_bytes(n as u16)
}

/// `b` holds the header, the rows of `es` after it, and their data from
/// where the data starts.
spec fn laid_out(b: Seq<u8>, version: u16, es: Seq<EntryView>) -> bool {
    &&& b.len() == DATA_START + payload(es).len()
    &&& HEADER + ENTRY * es.len() <= DATA_START
    &&& forall|q: int| 0 <= q < HEADER ==> #[trigger] b[q] == written_head(version, es.len())[q]
    &&& forall|q: int| 0 <= q < ENTRY * es.len() ==> #[trigger] b[HEADER + q] == rows(es)[q]
    &&& forall|q: int| 0 <= q < payload(es).len() ==> #[trigger] b[DATA_START + q] == payload(es)[q]
}

/// Written bytes, as the table padded with nulls and then the data.
proof fn lemma_written_layout(version: u16, es: Seq<EntryView>)
    requires
        HEADER + ENTRY * es.len() <= DATA_START,
    ensures
        laid_out(archive_bytes(version, es), version, es),
{
    let head = written_head(version, es.len());
    let table = head + rows(es);
    lemma_rows_prefix(es, 0);
    assert(table =~= seq![0x41u8, 0x52u8, 0x43u8, 0u8] + u16_bytes(version) + u16_bytes(
        es.len() as u16,
    ) + rows(es));
    assert(resized(table, DATA_START as nat) =~= table + Seq::new(
        (DATA_START - table.len()) as nat,
        |_j: int| 0u8,
    ));
}

/// Row `i` of laid-out bytes.
#[verifier::rlimit(30)]
proof fn lemma_row_bytes(b: Seq<u8>, version: u16, es: Seq<EntryView>, i: int)
    requires
        laid_out(b, version, es),
        0 <= i < es.len(),
    ensures
        b.subrange(HEADER + ENTRY * i, HEADER + ENTRY * i + ENTRY) == row(
            es[i],
            zlib_deflate_best(es[i].data).len(),
            data_offset(es, i),
        ),
{
    lemma_rows_prefix(es, i + 1);
    lemma_rows_prefix(es, i);
    let e = es[i];
    assert(es.take(i + 1).drop_last() =~= es.take(i));
    assert(es.take(i + 1).last() == e);
    let rw = row(e, zlib_deflate_best(e.data).len(), data_offset(es, i));
    lemma_row_len(e, zlib_deflate_best(e.data).len(), data_offset(es, i));
    let front = rows(es.take(i));
    assert(rows(es.take(i + 1)) == front + rw);
    let all = rows(es);
    let at = HEADER + ENTRY * i;
    let got = b.subrange(at, at + ENTRY);
    let upto = all.subrange(0, ENTRY * (i + 1));
    assert(upto == front + rw);
    assert forall|j: int| 0 <= j < ENTRY implies #[trigger] got[j] == rw[j] by {
        assert(got[j] == b[HEADER + (ENTRY * i + j)]);
        assert(b[HEADER + (ENTRY * i + j)] == all[ENTRY * i + j]);
        assert(upto[ENTRY * i + j] == all[ENTRY * i + j]);
        assert((front + rw)[ENTRY * i + j] == rw[j]);
    }
    assert(got =~= rw);
}

/// Entry `i`'s compressed data in laid-out bytes.
proof fn lemma_data_bytes(b: Seq<u8>, version: u16, es: Seq<EntryView>, i: int)
    requires
        laid_out(b, version, es),
        0 <= i < es.len(),
    ensures
        data_offset(es, i) + zlib_deflate_best(es[i].data).len() <= b.len(),
        b.subrange(data_offset(es, i), data_offset(es, i) + zlib_deflate_best(es[i].data).len())
            == zlib_deflate_best(es[i].data),
{
    let z = zlib_deflate_best(es[i].data);
    let before = payload(es.take(i));
    assert(es.take(i + 1).drop_last() =~= es.take(i));
    assert(es.take(i + 1).last() == es[i]);
    lemma_payload_prefix(es, i + 1);
    assert(payload(es.take(i + 1)) == before + z);
    let all = payload(es);
    let offset = data_offset(es, i);
    assert(offset == DATA_START + before.len());
    assert(offset + z.len() <= b.len());
    let got = b.subrange(offset, offset + z.len());
    assert forall|j: int| 0 <= j < z.len() implies #[trigger] got[j] == z[j] by {
        assert(got[j] == b[offset + j]);
        assert(b[DATA_START + (before.len() + j)] == all[before.len() + j]);
        assert(all.subrange(0, (before + z).len() as int)[before.len() + j] == all[before.len() + j]);
        assert((before + z)[before.len() + j] == z[j]);
    }
    assert(got =~= z);
}

/// Row `i` of written bytes reads back as entry `i`.
proof fn lemma_entry_reads_back(b: Seq<u8>, version: u16, es: Seq<EntryView>, i: int)
    requires
        laid_out(b, version, es),
        writable(es),
        0 <= i < es.len(),
        data_offset(es, i) <= u32::MAX,
        zlib_deflate_best(es[i].data).len() <= u32::MAX,
        zlib_inflate(zlib_deflate_best(es[i].data)) == Some(es[i].data),
    ensures
        entry_at(b, i) == Ok::<EntryView, ArcError>(es[i]),
{
    let e = es[i];
    let z = zlib_deflate_best(e.data);
    let offset = data_offset(es, i);
    let rw = row(e, z.len(), offset);
    let at = HEADER + ENTRY * i;
    lemma_row_bytes(b, version, es, i);
    lemma_data_bytes(b, version, es, i);
    lemma_row_len(e, z.len(), offset);
    assert(b.subrange(at, at + NAME) =~= rw.subrange(0, NAME as int));
    assert(rw.subrange(0, NAME as int) =~= name_field(e.name));
    lemma_name_field_reads(e.name);
    let size = e.data.len() as u32;
    lemma_size_word(size, e.flags);
    assert(b.subrange(at + 0x40, at + 0x44) =~= rw.subrange(0x40, 0x44));
    assert(b.subrange(at + 0x44, at + 0x48) =~= rw.subrange(0x44, 0x48));
    assert(b.subrange(at + 0x48, at + 0x4C) =~= rw.subrange(0x48, 0x4C));
    assert(b.subrange(at + 0x4C, at + 0x50) =~= rw.subrange(0x4C, 0x50));
    assert(rw.subrange(0x40, 0x44) =~= u32_bytes(e.extension));
    assert(rw.subrange(0x44, 0x48) =~= u32_bytes(z.len() as u32));
    assert(rw.subrange(0x48, 0x4C) =~= u32_bytes(size | e.flags));
    assert(rw.subrange(0x4C, 0x50) =~= u32_bytes(offset as u32));
    lemma_le_u32_at(b, at + 0x40, e.extension);
    lemma_le_u32_at(b, at + 0x44, z.len() as u32);
    lemma_le_u32_at(b, at + 0x48, size | e.flags);
    lemma_le_u32_at(b, at + 0x4C, offset as u32);
}

proof fn lemma_entries_read_back(b: Seq<u8>, version: u16, es: Seq<EntryView>, k: nat)
    requires
        laid_out(b, version, es),
        writable(es),
        offsets_fit(es),
        k <= es.len(),
        forall|j: int|
            0 <= j < es.len() ==> #[trigger] zlib_inflate(zlib_deflate_best(es[j].data)) == Some(
                es[j].data,
            ),
    ensures
        entries_from(b, k) == Ok::<Seq<EntryView>, ArcError>(es.take(k as int)),
    decreases k,
{
    if k == 0 {
        assert(es.take(0) =~= Seq::<EntryView>::empty());
    } else {
        lemma_entries_read_back(b, version, es, (k - 1) as nat);
        assert(zlib_deflate_best(es[k - 1].data).len() <= u32::MAX);
        lemma_entry_reads_back(b, version, es, k - 1);
        assert(es.take(k - 1).push(es[k - 1]) =~= es.take(k as int));
    }
}

/// What `write` produced reads back as the same version and entries.
proof fn lemma_written_reads_back(version: u16, es: Seq<EntryView>)
    requires
        writable(es),
        offsets_fit(es),
        forall|j: int|
            0 <= j < es.len() ==> #[trigger] zlib_inflate(zlib_deflate_best(es[j].data)) == Some(
                es[j].data,
            ),
    ensures
        read_archive(archive_bytes(version, es)) == Ok::<(u16, Seq<EntryView>), ArcError>((version, es)),
{
    let b = archive_bytes(version, es);
    lemma_written_layout(version, es);
    lemma_read_header(b, version, es);
    lemma_entries_read_back(b, version, es, es.len());
    assert(es.take(es.len() as int) =~= es);
}

proof fn lemma_read_header(b: Seq<u8>, version: u16, es: Seq<EntryView>)
    requires
        laid_out(b, version, es),
    ensures
        b.len() >= HEADER + ENTRY * es.len(),
        b[0] == 0x41 && b[1] == 0x52 && b[2] == 0x43 && b[3] == 0,
        le_u16(b, 4) == version,
        le_u16(b, 6) == es.len(),
{
    let head = written_head(version, es.len());
    assert(b[0] == head[0] && b[1] == head[1] && b[2] == head[2] && b[3] == head[3]);
    assert(b[4] == head[4] && b[5] == head[5] && b[6] == head[6] && b[7] == head[7]);
    crate::bytes::lemma_u16_round_trip(version, u16_bytes(es.len() as u16), seq![0x41u8, 0x52u8, 0x43u8, 0u8]);
    crate::bytes::lemma_u16_round_trip(es.len() as u16, seq![], seq![0x41u8, 0x52u8, 0x43u8, 0u8] + u16_bytes(version));
    assert(head =~= seq![0x41u8, 0x52u8, 0x43u8, 0u8] + u16_bytes(version) + u16_bytes(es.len() as u16) + seq![]);
    assert(le_u16(b, 4) == le_u16(head, 4));
    assert(le_u16(b, 6) == le_u16(head, 6));
}

proof fn lemma_entries_stay_failed(b: Seq<u8>, k: nat, m: nat)
    requires
        k <= m,
        entries_from(b, k) is Err,
    ensures
        entries_from(b, m) == entries_from(b, k),
    decreases m - k,
{
    if k < m {
        lemma_entries_stay_failed(b, k, (m - 1) as nat);
    }
}

} // verus!
