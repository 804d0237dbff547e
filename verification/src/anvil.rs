//! The region container format: a fixed 8192-byte header (a 4096-byte
//! slot table of 1024 four-byte entries, then a 4096-byte table of
//! per-slot write markers) followed by 4096-byte payload sectors. A
//! slot entry is a 3-byte big-endian sector index and a 1-byte sector
//! count; a stored payload is a 4-byte big-endian length, a 1-byte
//! compression-type code, and that many payload bytes.

use vstd::prelude::*;

use crate::binutil::{be24_at, be32_at, buf_write_u24, buf_write_u32, buf_write_u8, parse_u24,
    parse_u32};
use crate::error::Error;
use crate::Blob;

verus! {

/// The marker written into a slot's entry of the second header table
/// whenever its chunk is written.
pub const SLOT_MARKER: u32 = 1653847548;

/// A region container: an owned byte buffer in the format above.
pub struct AnvilData {
    pub data_buffer: Blob,
}

impl View for AnvilData {
    type V = Seq<u8>;

    open spec fn view(&self) -> Seq<u8> {
        self.data_buffer@
    }
}

/// The slot header entry for one chunk coordinate, derived from the
/// slot table rather than stored.
#[derive(Debug)]
pub struct ChunkHeader {
    pub data_offset: u32,
    pub sector_count: u8,
}

/// The slot index addressed by a coordinate pair: coordinates are
/// wrapped into the 32 by 32 grid, never rejected.
pub open spec fn slot_index_spec(x: u32, z: u32) -> int {
    (x % 32) + 32 * (z % 32)
}

/// The sector index stored in the slot entry `idx`.
pub open spec fn entry_sector(s: Seq<u8>, idx: int) -> int {
    be24_at(s, 4 * idx)
}

/// The sector count stored in the slot entry `idx`.
pub open spec fn entry_count(s: Seq<u8>, idx: int) -> int {
    s[4 * idx + 3] as int
}

/// A slot is empty when its sector index and count are both zero.
pub open spec fn slot_empty(s: Seq<u8>, idx: int) -> bool {
    entry_sector(s, idx) == 0 && entry_count(s, idx) == 0
}

/// The stored length of the payload that the slot entry `idx` points at.
pub open spec fn payload_len_at(s: Seq<u8>, idx: int) -> int {
    be32_at(s, entry_sector(s, idx) * 4096)
}

/// Where the payload bytes of slot `idx` begin: just past the 5-byte
/// length-and-code sub-header.
pub open spec fn payload_start(s: Seq<u8>, idx: int) -> int {
    entry_sector(s, idx) * 4096 + 5
}

/// A slot can be read without a bounds violation: it is empty, or its
/// payload start lies inside the buffer. A payload start at or past the
/// buffer end is fatal, and reading it is excluded.
pub open spec fn slot_readable(s: Seq<u8>, idx: int) -> bool {
    s.len() >= 8192 && (slot_empty(s, idx) || payload_start(s, idx) < s.len())
}

/// Every slot of the container can be read.
pub open spec fn all_slots_readable(s: Seq<u8>) -> bool {
    forall|idx: int| 0 <= idx < 1024 ==> slot_readable(s, idx)
}

/// The payload bytes of a non-empty slot. When the computed payload end
/// lies at or past the buffer end, the end is clamped to the last
/// buffer position, silently truncating an overrunning payload rather
/// than failing.
pub open spec fn chunk_payload_spec(s: Seq<u8>, idx: int) -> Seq<u8> {
    let start = payload_start(s, idx);
    let end0 = start + payload_len_at(s, idx);
    let end = if end0 >= s.len() {
        s.len() - 1
    } else {
        end0
    };
    s.subrange(start, end)
}

/// A fresh container: the 8192-byte header, all slots empty.
pub open spec fn empty_container() -> Seq<u8> {
    Seq::new(8192, |i: int| 0u8)
}

/// The buffer after writing the slot entry `idx`: a 3-byte big-endian
/// sector index, the sector count byte, and the 4-byte marker in the
/// second table.
pub open spec fn write_header_spec(s: Seq<u8>, idx: int, offset_val: int, count: u8) -> Seq<u8> {
    s.update(4 * idx, (offset_val / 0x10000 % 0x100) as u8).update(
        4 * idx + 1,
        (offset_val / 0x100 % 0x100) as u8,
    ).update(4 * idx + 2, (offset_val % 0x100) as u8).update(4 * idx + 3, count).update(
        4096 + 4 * idx,
        (SLOT_MARKER / 0x1000000 % 0x100) as u8,
    ).update(4096 + 4 * idx + 1, (SLOT_MARKER / 0x10000 % 0x100) as u8).update(
        4096 + 4 * idx + 2,
        (SLOT_MARKER / 0x100 % 0x100) as u8,
    ).update(4096 + 4 * idx + 3, (SLOT_MARKER % 0x100) as u8)
}

/// The 4-byte big-endian encoding of `v`.
pub open spec fn be32_bytes_of(v: int) -> Seq<u8> {
    seq![
        (v / 0x1000000 % 0x100) as u8,
        (v / 0x10000 % 0x100) as u8,
        (v / 0x100 % 0x100) as u8,
        (v % 0x100) as u8,
    ]
}

/// The buffer after appending a chunk payload for coordinates `(x, z)`:
/// the slot entry points at the first appended sector, the sector count
/// is taken from the decompressed size, the 5-byte sub-header and the
/// payload are appended, and the buffer is padded with zeros past the
/// next sector boundary.
#[verifier::opaque]
pub open spec fn write_chunk_spec(s: Seq<u8>, x: u32, z: u32, data: Seq<u8>, usz: u32) -> Seq<u8> {
    let idx = slot_index_spec(x, z);
    let s1 = write_header_spec(s, idx, s.len() as int / 4096, ((usz >> 12) % 0x100) as u8);
    let s2 = s1 + be32_bytes_of(data.len() as int) + seq![2u8] + data;
    s2 + Seq::new(((s2.len() / 4096 + 1) * 4096 - s2.len()) as nat, |i: int| 0u8)
}

/// Computes the slot index for a coordinate pair, wrapping both
/// coordinates into the grid.
fn slot_index(chunk_x: u32, chunk_z: u32) -> (r: u32)
    ensures
        r == slot_index_spec(chunk_x, chunk_z),
        r < 1024,
{
    proof {
        assert(((chunk_x & 31) | ((chunk_z & 31) << 5)) == (chunk_x % 32) + 32 * (chunk_z % 32)
            && ((chunk_x & 31) | ((chunk_z & 31) << 5)) < 1024) by (bit_vector);
    }
    (chunk_x & 31) | ((chunk_z & 31) << 5)
}

impl AnvilData {
    /// A fresh 8192-byte container of all zero slots, the rebuild
    /// target during a trim pass.
    pub fn new() -> (r: AnvilData)
        ensures
            r@ == empty_container(),
    {
        let mut data_buffer: Vec<u8> = Vec::new();
        while data_buffer.len() < 8192
            invariant
                data_buffer@.len() <= 8192,
                forall|j: int| 0 <= j < data_buffer@.len() ==> data_buffer@[j] == 0u8,
            decreases 8192 - data_buffer@.len(),
        {
            data_buffer.push(0u8);
        }
        proof {
            assert(data_buffer@ =~= empty_container());
        }
        AnvilData { data_buffer }
    }

    /// Takes ownership of a raw byte blob as a container. The blob must
    /// hold at least the 8192-byte header.
    pub fn from_blob(blob: Blob) -> (r: Result<AnvilData, Error>)
        ensures
            blob@.len() >= 8192 ==> r is Ok && r.unwrap()@ == blob@,
            blob@.len() < 8192 ==> r == Err::<AnvilData, Error>(Error::ContainerTooSmall),
    {
        if blob.len() < 8192 {
            return Err(Error::ContainerTooSmall);
        }
        Ok(AnvilData { data_buffer: blob })
    }

    /// Reads the slot header entry at `chunk_idx`.
    pub fn read_header(&self, chunk_idx: u32) -> (h: ChunkHeader)
        requires
            chunk_idx < 1024,
            self@.len() >= 8192,
        ensures
            h.data_offset == entry_sector(self@, chunk_idx as int),
            h.sector_count == entry_count(self@, chunk_idx as int),
    {
        let offset = (chunk_idx as usize) * 4;
        let raw_chunk_header = vstd::slice::slice_subrange(
            self.data_buffer.as_slice(),
            offset,
            offset + 4,
        );
        ChunkHeader { data_offset: parse_u24(raw_chunk_header), sector_count: raw_chunk_header[3] }
    }

    /// Writes the slot header entry at `chunk_idx`, and the marker into
    /// the slot's entry of the second table.
    pub fn write_header(&mut self, chunk_idx: u32, header: &ChunkHeader)
        requires
            chunk_idx < 1024,
            old(self)@.len() >= 8192,
        ensures
            final(self)@ == write_header_spec(
                old(self)@,
                chunk_idx as int,
                header.data_offset as int,
                header.sector_count,
            ),
            final(self)@.len() == old(self)@.len(),
    {
        let offset = (chunk_idx as usize) * 4;
        buf_write_u24(&mut self.data_buffer, offset, header.data_offset);
        buf_write_u8(&mut self.data_buffer, offset + 3, header.sector_count);
        proof {
            let o = offset;
            assert(o < 4096 ==> (o | 0x1000) == o + 4096) by (bit_vector);
        }
        let ts_offset = offset | 0x1000;
        buf_write_u32(&mut self.data_buffer, ts_offset, SLOT_MARKER);
        proof {
            assert(header.data_offset as int % 0x1000000 == be24_at(
                write_header_spec(
                    old(self)@,
                    chunk_idx as int,
                    header.data_offset as int,
                    header.sector_count,
                ),
                4 * chunk_idx as int,
            ));
            assert(final(self)@ =~= write_header_spec(
                old(self)@,
                chunk_idx as int,
                header.data_offset as int,
                header.sector_count,
            ));
        }
    }

    /// Reads the raw, still-compressed payload of the chunk at the
    /// wrapped coordinates, or reports the slot empty. Reading a slot
    /// whose payload start lies at or past the buffer end is a fatal
    /// bounds violation and is excluded; a payload that only ends out
    /// of bounds is clamped, losing its last byte.
    pub fn read_chunk(&self, chunk_x: u32, chunk_z: u32) -> (r: Result<Blob, Error>)
        requires
            slot_readable(self@, slot_index_spec(chunk_x, chunk_z)),
        ensures
            ({
                let idx = slot_index_spec(chunk_x, chunk_z);
                if slot_empty(self@, idx) {
                    r == Err::<Blob, Error>(Error::ChunkAbsent)
                } else {
                    r is Ok && r.unwrap()@ == chunk_payload_spec(self@, idx)
                }
            }),
    {
        let chunk_idx = slot_index(chunk_x, chunk_z);
        let header = self.read_header(chunk_idx);
        proof {
            assert(self@.len() == self.data_buffer.len());
        }
        if header.data_offset > 0 || header.sector_count > 0 {
            let offset = (header.data_offset as usize) * 4096;
            let length_bytes = vstd::slice::slice_subrange(
                self.data_buffer.as_slice(),
                offset,
                offset + 4,
            );
            let length = parse_u32(length_bytes) as usize;
            let chunk_data_start = offset + 5;
            let chunk_data_end = if length >= self.data_buffer.len() - chunk_data_start {
                // the payload would run past the buffer end: clamp it
                self.data_buffer.len() - 1
            } else {
                chunk_data_start + length
            };
            let raw_chunk_data = vstd::slice::slice_subrange(
                self.data_buffer.as_slice(),
                chunk_data_start,
                chunk_data_end,
            );
            Ok(vstd::slice::slice_to_vec(raw_chunk_data))
        } else {
            Err(Error::ChunkAbsent)
        }
    }

    /// Appends a chunk payload at the wrapped coordinates. The sector
    /// count comes from the decompressed size, not from the written
    /// bytes; a chunk of more than 256 sectors is rejected. Allocation
    /// is append-only: freed space is never reused.
    pub fn write_chunk(&mut self, chunk_x: u32, chunk_z: u32, data: &Blob, uncompressed_size: u32)
        -> (r: Result<(), Error>)
        requires
            old(self)@.len() >= 8192,
            old(self)@.len() % 4096 == 0,
            old(self)@.len() + data@.len() + 4101 < 0x100000000,
        ensures
            uncompressed_size >> 12 > 256 ==> r == Err::<(), Error>(Error::SectorLimitExceeded)
                && final(self)@ == old(self)@,
            uncompressed_size >> 12 <= 256 ==> r == Ok::<(), Error>(()) && final(self)@
                == write_chunk_spec(old(self)@, chunk_x, chunk_z, data@, uncompressed_size)
                && final(self)@.len() % 4096 == 0
                && old(self)@.len() + 5 + data@.len() < final(self)@.len()
                && final(self)@.len() <= old(self)@.len() + data@.len() + 4101,
    {
        let data_len = data.len() as u32;
        let sector_count = uncompressed_size >> 12;
        if sector_count > 256 {
            return Err(Error::SectorLimitExceeded);
        }
        let chunk_idx = slot_index(chunk_x, chunk_z);
        proof {
            assert((uncompressed_size >> 12) % 0x100 < 0x100) by (bit_vector);
        }
        let header = ChunkHeader {
            sector_count: (sector_count % 0x100) as u8,
            data_offset: (self.data_buffer.len() / 4096) as u32,
        };
        self.write_header(chunk_idx, &header);
        let ghost s1 = self@;

        let mut data_head: Vec<u8> = Vec::new();
        data_head.push(0);
        data_head.push(0);
        data_head.push(0);
        data_head.push(0);
        data_head.push(0);
        buf_write_u32(&mut data_head, 0, data_len);
        buf_write_u8(&mut data_head, 4, 2);  // zlib compression type code
        proof {
            assert(data_head@ =~= be32_bytes_of(data@.len() as int) + seq![2u8]);
        }
        self.data_buffer.extend_from_slice(data_head.as_slice());
        self.data_buffer.extend_from_slice(data.as_slice());
        let ghost s2 = s1 + be32_bytes_of(data@.len() as int) + seq![2u8] + data@;
        proof {
            assert(self@ =~= s2);
            assert(self@.subrange(0, s2.len() as int) =~= s2);
        }

        let total_bytes = (self.data_buffer.len() / 4096 + 1) * 4096;
        while self.data_buffer.len() < total_bytes
            invariant
                s2.len() <= self.data_buffer@.len() <= total_bytes,
                self.data_buffer@.subrange(0, s2.len() as int) == s2,
                forall|j: int|
                    s2.len() <= j < self.data_buffer@.len() ==> self.data_buffer@[j] == 0u8,
            decreases total_bytes - self.data_buffer@.len(),
        {
            self.data_buffer.push(0u8);
        }
        proof {
            reveal(write_chunk_spec);
            assert(self@ =~= write_chunk_spec(old(self)@, chunk_x, chunk_z, data@,
                uncompressed_size));
        }
        Ok(())
    }

    /// Whether every slot of this container can be read. A container
    /// read from arbitrary bytes must pass this check before its chunks
    /// are read: an unreadable slot is a fatal bounds violation.
    pub fn check_slots_readable(&self) -> (r: bool)
        requires
            self@.len() >= 8192,
        ensures
            r == all_slots_readable(self@),
    {
        let mut idx: u32 = 0;
        while idx < 1024
            invariant
                idx <= 1024,
                self@.len() >= 8192,
                forall|j: int| 0 <= j < idx ==> slot_readable(self@, j),
            decreases 1024 - idx,
        {
            let header = self.read_header(idx);
            if header.data_offset > 0 || header.sector_count > 0 {
                let start = (header.data_offset as u64) * 4096 + 5;
                if start >= self.data_buffer.len() as u64 {
                    proof {
                        assert(!slot_readable(self@, idx as int));
                    }
                    return false;
                }
            }
            idx = idx + 1;
        }
        true
    }
}

/// Coordinate wrap-around: two coordinate pairs that agree modulo 32
/// address the same slot, so reading `(x, z)` and `(x + 32k, z + 32m)`
/// reads the same chunk.
pub proof fn lemma_slot_index_wraps(x1: u32, z1: u32, x2: u32, z2: u32)
    requires
        x1 % 32 == x2 % 32,
        z1 % 32 == z2 % 32,
    ensures
        slot_index_spec(x1, z1) == slot_index_spec(x2, z2),
{
}

/// Header round trip: a written slot header entry reads back as the
/// same sector index and sector count.
pub proof fn lemma_header_round_trip(s: Seq<u8>, idx: int, offset_val: int, count: u8)
    requires
        s.len() >= 8192,
        0 <= idx < 1024,
        0 <= offset_val < 0x1000000,
    ensures
        entry_sector(write_header_spec(s, idx, offset_val, count), idx) == offset_val,
        entry_count(write_header_spec(s, idx, offset_val, count), idx) == count,
{
    let v = offset_val as u32;
    assert((v / 0x10000 % 0x100) * 0x10000 + (v / 0x100 % 0x100) * 0x100 + (v % 0x100) == v
        % 0x1000000 && (v < 0x1000000 ==> v % 0x1000000 == v)) by (bit_vector);
}

/// Region round trip: writing a payload and reading the same
/// coordinates back from the written container yields the payload, byte
/// for byte.
pub proof fn lemma_write_then_read(s: Seq<u8>, x: u32, z: u32, data: Seq<u8>, usz: u32)
    requires
        s.len() >= 8192,
        s.len() % 4096 == 0,
        s.len() + data.len() + 4101 < 0x100000000,
    ensures
        ({
            let s2 = write_chunk_spec(s, x, z, data, usz);
            let idx = slot_index_spec(x, z);
            &&& !slot_empty(s2, idx)
            &&& slot_readable(s2, idx)
            &&& chunk_payload_spec(s2, idx) == data
            &&& entry_sector(s2, idx) == s.len() as int / 4096
            &&& entry_count(s2, idx) == ((usz >> 12) % 0x100) as int
            &&& payload_start(s2, idx) == s.len() + 5
            &&& payload_len_at(s2, idx) == data.len()
            &&& s.len() + 5 + data.len() < s2.len() <= s.len() + data.len() + 4101
            &&& s2.len() % 4096 == 0
        }),
{
    reveal(write_chunk_spec);
    let idx = slot_index_spec(x, z);
    let off_val = s.len() as int / 4096;
    let count = ((usz >> 12) % 0x100) as u8;
    let s1 = write_header_spec(s, idx, off_val, count);
    let sm = s1 + be32_bytes_of(data.len() as int) + seq![2u8] + data;
    let s2 = sm + Seq::new(((sm.len() / 4096 + 1) * 4096 - sm.len()) as nat, |i: int| 0u8);
    vstd::arithmetic::div_mod::lemma_fundamental_div_mod(s.len() as int, 4096);
    vstd::arithmetic::div_mod::lemma_fundamental_div_mod(sm.len() as int, 4096);
    assert(0 <= sm.len() % 4096 < 4096) by {
        vstd::arithmetic::div_mod::lemma_mod_bound(sm.len() as int, 4096);
    }
    lemma_header_round_trip(s, idx, off_val, count);
    assert(entry_sector(s2, idx) == off_val);
    assert(entry_count(s2, idx) == count);
    assert(off_val >= 2);
    assert(payload_start(s2, idx) == s.len() + 5);
    let dl = data.len() as int;
    let v = dl as u32;
    assert((v / 0x1000000 % 0x100) * 0x1000000 + (v / 0x10000 % 0x100) * 0x10000 + (v / 0x100
        % 0x100) * 0x100 + (v % 0x100) == v) by (bit_vector);
    assert(payload_len_at(s2, idx) == dl);
    assert(chunk_payload_spec(s2, idx) =~= data);
}

/// A container built by this library's own writes: the header is
/// intact, the length is a positive multiple of 4096 below what the
/// format can address, and every non-empty slot's sub-header and
/// payload lie strictly inside the buffer, past the header sectors.
pub open spec fn container_built(s: Seq<u8>) -> bool {
    &&& s.len() >= 8192
    &&& s.len() % 4096 == 0
    &&& s.len() < 0x100000000
    &&& forall|idx: int|
        0 <= idx < 1024 ==> slot_empty(s, idx) || (2 <= entry_sector(s, idx) && payload_start(
            s,
            idx,
        ) + payload_len_at(s, idx) < s.len())
}

/// A built container can be read at every slot.
pub proof fn lemma_built_readable(s: Seq<u8>)
    requires
        container_built(s),
    ensures
        all_slots_readable(s),
{
    assert forall|idx: int| 0 <= idx < 1024 implies slot_readable(s, idx) by {
        if !slot_empty(s, idx) {
            assert(payload_len_at(s, idx) >= 0);
        }
    }
}

/// A fresh container is built, with every slot empty.
pub proof fn lemma_empty_container_built()
    ensures
        container_built(empty_container()),
        forall|idx: int| 0 <= idx < 1024 ==> slot_empty(empty_container(), idx),
{
    assert forall|idx: int| 0 <= idx < 1024 implies slot_empty(empty_container(), idx) by {
        assert(empty_container()[4 * idx] == 0);
        assert(empty_container()[4 * idx + 1] == 0);
        assert(empty_container()[4 * idx + 2] == 0);
        assert(empty_container()[4 * idx + 3] == 0);
    }
}

/// The bytes of a written container below the old length change only
/// in the written slot's two 4-byte entry regions.
#[verifier::rlimit(100)]
pub proof fn lemma_write_chunk_spec_bytes(s: Seq<u8>, x: u32, z: u32, data: Seq<u8>, usz: u32)
    requires
        s.len() >= 8192,
        s.len() % 4096 == 0,
        s.len() + data.len() + 4101 < 0x100000000,
    ensures
        ({
            let s2 = write_chunk_spec(s, x, z, data, usz);
            let idx = slot_index_spec(x, z);
            &&& s.len() < s2.len() <= s.len() + data.len() + 4101
            &&& s2.len() % 4096 == 0
            &&& s2.len() < 0x100000000
            &&& forall|p: int|
                0 <= p < s.len() && !(4 * idx <= p < 4 * idx + 4) && !(4096 + 4 * idx <= p < 4096
                    + 4 * idx + 4) ==> s2[p] == s[p]
        }),
{
    reveal(write_chunk_spec);
    let s2 = write_chunk_spec(s, x, z, data, usz);
    let idx = slot_index_spec(x, z);
    let sm = s.len() + 5 + data.len();
    vstd::arithmetic::div_mod::lemma_fundamental_div_mod(sm as int, 4096);
    vstd::arithmetic::div_mod::lemma_mod_bound(sm as int, 4096);
    assert(0 <= idx < 1024);
    assert forall|p: int|
        0 <= p < s.len() && !(4 * idx <= p < 4 * idx + 4) && !(4096 + 4 * idx <= p < 4096 + 4 * idx
            + 4) implies s2[p] == s[p] by {}
}

/// Two containers that agree outside one slot's entry regions agree on
/// every other slot's entry.
pub proof fn lemma_entry_agree(s: Seq<u8>, s2: Seq<u8>, idx: int, j: int)
    requires
        8192 <= s.len() <= s2.len(),
        0 <= idx < 1024,
        0 <= j < 1024,
        j != idx,
        forall|p: int|
            0 <= p < s.len() && !(4 * idx <= p < 4 * idx + 4) && !(4096 + 4 * idx <= p < 4096 + 4
                * idx + 4) ==> s2[p] == s[p],
    ensures
        entry_sector(s2, j) == entry_sector(s, j),
        entry_count(s2, j) == entry_count(s, j),
        slot_empty(s2, j) == slot_empty(s, j),
{
}

/// Two containers that agree outside one slot's entry regions agree on
/// every other slot's stored payload, provided that payload lies
/// inside the shorter container's data sectors.
pub proof fn lemma_payload_agree(s: Seq<u8>, s2: Seq<u8>, idx: int, j: int)
    requires
        8192 <= s.len() <= s2.len(),
        0 <= idx < 1024,
        0 <= j < 1024,
        j != idx,
        forall|p: int|
            0 <= p < s.len() && !(4 * idx <= p < 4 * idx + 4) && !(4096 + 4 * idx <= p < 4096 + 4
                * idx + 4) ==> s2[p] == s[p],
        !slot_empty(s, j),
        2 <= entry_sector(s, j),
        payload_start(s, j) + payload_len_at(s, j) < s.len(),
    ensures
        payload_len_at(s2, j) == payload_len_at(s, j),
        chunk_payload_spec(s2, j) == chunk_payload_spec(s, j),
{
    lemma_entry_agree(s, s2, idx, j);
    assert(payload_len_at(s2, j) == payload_len_at(s, j));
    assert(chunk_payload_spec(s2, j) =~= chunk_payload_spec(s, j));
}

/// Writing a chunk touches only its own slot: the container stays
/// built, the written slot exposes exactly the written payload, and
/// every other slot keeps its entry and its payload.
pub proof fn lemma_write_chunk_preserves(s: Seq<u8>, x: u32, z: u32, data: Seq<u8>, usz: u32)
    requires
        container_built(s),
        s.len() + data.len() + 4101 < 0x100000000,
    ensures
        ({
            let s2 = write_chunk_spec(s, x, z, data, usz);
            let idx = slot_index_spec(x, z);
            &&& container_built(s2)
            &&& s2.len() > s.len()
            &&& !slot_empty(s2, idx)
            &&& chunk_payload_spec(s2, idx) == data
            &&& forall|j: int|
                0 <= j < 1024 && j != idx ==> slot_empty(s2, j) == slot_empty(s, j)
            &&& forall|j: int|
                0 <= j < 1024 && j != idx && !slot_empty(s, j) ==> chunk_payload_spec(s2, j)
                    == chunk_payload_spec(s, j)
        }),
{
    lemma_write_then_read(s, x, z, data, usz);
    lemma_write_chunk_spec_bytes(s, x, z, data, usz);
    let s2 = write_chunk_spec(s, x, z, data, usz);
    let idx = slot_index_spec(x, z);
    let off_val = s.len() as int / 4096;
    vstd::arithmetic::div_mod::lemma_fundamental_div_mod(s.len() as int, 4096);
    assert(0 <= idx < 1024);
    assert forall|j: int| 0 <= j < 1024 && j != idx implies slot_empty(s2, j) == slot_empty(
        s,
        j,
    ) by {
        lemma_entry_agree(s, s2, idx, j);
    }
    assert forall|j: int|
        0 <= j < 1024 && j != idx && !slot_empty(s, j) implies chunk_payload_spec(s2, j)
            == chunk_payload_spec(s, j) by {
        lemma_payload_agree(s, s2, idx, j);
    }
    assert(entry_sector(s2, idx) == off_val);
    assert(off_val >= 2);
    assert(payload_start(s2, idx) + payload_len_at(s2, idx) < s2.len());
    assert forall|j: int|
        0 <= j < 1024 && !slot_empty(s2, j) implies 2 <= entry_sector(s2, j) && payload_start(
        s2,
        j,
    ) + payload_len_at(s2, j) < s2.len() by {
        if j != idx {
            lemma_entry_agree(s, s2, idx, j);
            lemma_payload_agree(s, s2, idx, j);
        }
    }
}

} // verus!
