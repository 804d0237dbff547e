//! The document codec: decodes a byte stream into a tagged tree of
//! typed nodes, recursively over the twelve record kinds.
//!
//! The wire format is: a 1-byte type id, then (except for the end
//! marker, id 0) a 2-byte length-prefixed UTF-8 name, then a payload
//! that depends on the type id. The functions `decode_tag_spec`,
//! `decode_payload_spec`, `decode_compound_children_spec` and
//! `decode_list_elems_spec` are the mathematical statement of that
//! format; the executable decoder is proved to return exactly what
//! they describe.

use vstd::prelude::*;

use crate::binutil::{be16_at, be32_at, be64_at};
use crate::cursor::ByteCursor;
use crate::error::Error;
use crate::node::{node_view, nodes_view, Node, NodeView, TagHeader};
use crate::text::{lossy_string, utf8_lossy_of};

verus! {

/// The signed reading of an unsigned byte, two's complement.
pub open spec fn to_i8(x: int) -> i8
    recommends
        0 <= x < 0x100,
{
    if x < 0x80 {
        x as i8
    } else {
        (x - 0x100) as i8
    }
}

/// The signed reading of an unsigned 16-bit value, two's complement.
pub open spec fn to_i16(x: int) -> i16
    recommends
        0 <= x < 0x10000,
{
    if x < 0x8000 {
        x as i16
    } else {
        (x - 0x10000) as i16
    }
}

/// The signed reading of an unsigned 32-bit value, two's complement.
pub open spec fn to_i32(x: int) -> i32
    recommends
        0 <= x < 0x100000000,
{
    if x < 0x80000000 {
        x as i32
    } else {
        (x - 0x100000000) as i32
    }
}

/// The signed reading of an unsigned 64-bit value, two's complement.
pub open spec fn to_i64(x: int) -> i64
    recommends
        0 <= x < 0x10000000000000000,
{
    if x < 0x8000000000000000 {
        x as i64
    } else {
        (x - 0x10000000000000000) as i64
    }
}

fn i8_from_byte(b: u8) -> (r: i8)
    ensures
        r == to_i8(b as int),
{
    if b < 0x80 {
        b as i8
    } else {
        ((b as i16) - 0x100) as i8
    }
}

fn i16_from_u16(v: u16) -> (r: i16)
    ensures
        r == to_i16(v as int),
{
    if v < 0x8000 {
        v as i16
    } else {
        ((v as i32) - 0x10000) as i16
    }
}

fn i32_from_u32(v: u32) -> (r: i32)
    ensures
        r == to_i32(v as int),
{
    if v < 0x80000000 {
        v as i32
    } else {
        ((v as i64) - 0x100000000) as i32
    }
}

fn i64_from_u64(v: u64) -> (r: i64)
    ensures
        r == to_i64(v as int),
{
    if v < 0x8000000000000000 {
        v as i64
    } else {
        ((v - 0x8000000000000000) as i64) + i64::MIN
    }
}

/// What reading a record header from position `pos` of `d` yields: the
/// type id, the name (empty for the end marker, which carries none on
/// the wire), and the position just past the header.
pub open spec fn decode_header_spec(d: Seq<u8>, pos: int) -> Result<(u8, Seq<char>, int), Error> {
    if pos + 1 > d.len() {
        Err(Error::TruncatedDocument)
    } else {
        let t = d[pos];
        if t == 0 {
            Ok((t, Seq::empty(), pos + 1))
        } else if pos + 3 > d.len() {
            Err(Error::TruncatedDocument)
        } else {
            let nlen = be16_at(d, pos + 1);
            if pos + 3 + nlen > d.len() {
                Err(Error::TruncatedDocument)
            } else {
                Ok((t, utf8_lossy_of(d.subrange(pos + 3, pos + 3 + nlen)), pos + 3 + nlen))
            }
        }
    }
}

/// What decoding one full record (header plus payload) from position
/// `pos` of `d` yields: the node and the position just past it.
pub open spec fn decode_tag_spec(d: Seq<u8>, pos: int) -> Result<(NodeView, int), Error>
    decreases d.len() - pos, 0int, 0int,
{
    match decode_header_spec(d, pos) {
        Err(e) => Err(e),
        Ok(hdr) => decode_payload_spec(d, hdr.2, hdr.0, hdr.1),
    }
}

/// What decoding the payload of a record of type `t` named `name` from
/// position `pos` of `d` yields. The end marker has no payload; unknown
/// type ids fail.
pub open spec fn decode_payload_spec(d: Seq<u8>, pos: int, t: u8, name: Seq<char>) -> Result<
    (NodeView, int),
    Error,
>
    decreases d.len() - pos, 0int, 2int,
{
    if t == 0 {
        Ok((NodeView::End, pos))
    } else if t == 1 {
        if pos + 1 > d.len() {
            Err(Error::TruncatedDocument)
        } else {
            Ok((NodeView::Byte { name, value: to_i8(d[pos] as int) }, pos + 1))
        }
    } else if t == 2 {
        if pos + 2 > d.len() {
            Err(Error::TruncatedDocument)
        } else {
            Ok((NodeView::Short { name, value: to_i16(be16_at(d, pos)) }, pos + 2))
        }
    } else if t == 3 {
        if pos + 4 > d.len() {
            Err(Error::TruncatedDocument)
        } else {
            Ok((NodeView::Int { name, value: to_i32(be32_at(d, pos)) }, pos + 4))
        }
    } else if t == 4 {
        if pos + 8 > d.len() {
            Err(Error::TruncatedDocument)
        } else {
            Ok((NodeView::Long { name, value: to_i64(be64_at(d, pos)) }, pos + 8))
        }
    } else if t == 5 {
        if pos + 4 > d.len() {
            Err(Error::TruncatedDocument)
        } else {
            Ok((NodeView::Float { name, bits: be32_at(d, pos) as u32 }, pos + 4))
        }
    } else if t == 6 {
        if pos + 8 > d.len() {
            Err(Error::TruncatedDocument)
        } else {
            Ok((NodeView::Double { name, bits: be64_at(d, pos) as u64 }, pos + 8))
        }
    } else if t == 7 {
        if pos + 4 > d.len() {
            Err(Error::TruncatedDocument)
        } else {
            let n = be32_at(d, pos);
            if pos + 4 + n > d.len() {
                Err(Error::TruncatedDocument)
            } else {
                Ok(
                    (
                        NodeView::ByteArray {
                            name,
                            values: Seq::new(n as nat, |i: int| to_i8(d[pos + 4 + i] as int)),
                        },
                        pos + 4 + n,
                    ),
                )
            }
        }
    } else if t == 8 {
        if pos + 2 > d.len() {
            Err(Error::TruncatedDocument)
        } else {
            let n = be16_at(d, pos);
            if pos + 2 + n > d.len() {
                Err(Error::TruncatedDocument)
            } else {
                Ok(
                    (
                        NodeView::Text {
                            name,
                            value: utf8_lossy_of(d.subrange(pos + 2, pos + 2 + n)),
                        },
                        pos + 2 + n,
                    ),
                )
            }
        }
    } else if t == 9 {
        if pos + 5 > d.len() {
            Err(Error::TruncatedDocument)
        } else {
            let et = d[pos];
            let n = be32_at(d, pos + 1);
            match decode_list_elems_spec(d, pos + 5, et, n) {
                Err(e) => Err(e),
                Ok(re) => Ok((NodeView::List { name, elem_type: et, children: re.0 }, re.1)),
            }
        }
    } else if t == 10 {
        match decode_compound_children_spec(d, pos) {
            Err(e) => Err(e),
            Ok(re) => Ok((NodeView::Compound { name, children: re.0 }, re.1)),
        }
    } else if t == 11 {
        if pos + 4 > d.len() {
            Err(Error::TruncatedDocument)
        } else {
            let n = be32_at(d, pos);
            if pos + 4 + 4 * n > d.len() {
                Err(Error::TruncatedDocument)
            } else {
                Ok(
                    (
                        NodeView::IntArray {
                            name,
                            values: Seq::new(n as nat, |i: int| to_i32(be32_at(d, pos + 4 + 4 * i))),
                        },
                        pos + 4 + 4 * n,
                    ),
                )
            }
        }
    } else if t == 12 {
        if pos + 4 > d.len() {
            Err(Error::TruncatedDocument)
        } else {
            let n = be32_at(d, pos);
            if pos + 4 + 8 * n > d.len() {
                Err(Error::TruncatedDocument)
            } else {
                Ok(
                    (
                        NodeView::LongArray {
                            name,
                            values: Seq::new(n as nat, |i: int| to_i64(be64_at(d, pos + 4 + 8 * i))),
                        },
                        pos + 4 + 8 * n,
                    ),
                )
            }
        }
    } else {
        Err(Error::UnknownTagType)
    }
}

/// What decoding the children of a compound from position `pos` of `d`
/// yields: full records, in order, up to and consuming the first end
/// marker, which is not kept. The guard on the child's end position can
/// never fail, since decoding a full record always consumes at least
/// its type byte; it bounds the recursion.
pub open spec fn decode_compound_children_spec(d: Seq<u8>, pos: int) -> Result<
    (Seq<NodeView>, int),
    Error,
>
    decreases d.len() - pos, 0int, 1int,
{
    match decode_tag_spec(d, pos) {
        Err(e) => Err(e),
        Ok(ce) => {
            if ce.0 is End {
                Ok((Seq::empty(), ce.1))
            } else if pos < ce.1 <= d.len() {
                match decode_compound_children_spec(d, ce.1) {
                    Err(e) => Err(e),
                    Ok(re) => Ok((seq![ce.0] + re.0, re.1)),
                }
            } else {
                Err(Error::TruncatedDocument)
            }
        },
    }
}

/// What decoding `count` payload-only elements of type `et` from
/// position `pos` of `d` yields. The guard on the element's end
/// position can never fail, since decoding never rewinds; it bounds the
/// recursion.
pub open spec fn decode_list_elems_spec(d: Seq<u8>, pos: int, et: u8, count: int) -> Result<
    (Seq<NodeView>, int),
    Error,
>
    decreases d.len() - pos, count, 1int,
{
    if count <= 0 {
        Ok((Seq::empty(), pos))
    } else {
        match decode_payload_spec(d, pos, et, Seq::empty()) {
            Err(e) => Err(e),
            Ok(ce) => {
                if pos <= ce.1 <= d.len() {
                    match decode_list_elems_spec(d, ce.1, et, count - 1) {
                        Err(e) => Err(e),
                        Ok(re) => Ok((seq![ce.0] + re.0, re.1)),
                    }
                } else {
                    Err(Error::TruncatedDocument)
                }
            },
        }
    }
}

/// Holds when the children already decoded (`acc`, decoded from `pos0`
/// up to `pos`) and whatever compound children remain from `pos`
/// together make up the compound children decoded from `pos0`.
pub open spec fn compound_suffix_matches(
    d: Seq<u8>,
    pos0: int,
    acc: Seq<NodeView>,
    pos: int,
) -> bool {
    match decode_compound_children_spec(d, pos) {
        Ok(re) => decode_compound_children_spec(d, pos0) == Ok::<(Seq<NodeView>, int), Error>(
            (acc + re.0, re.1),
        ),
        Err(e) => decode_compound_children_spec(d, pos0) == Err::<(Seq<NodeView>, int), Error>(e),
    }
}

/// Holds when the list elements already decoded (`acc`) and the `count`
/// elements remaining from `pos` together make up the `count0` elements
/// decoded from `pos0`.
pub open spec fn list_suffix_matches(
    d: Seq<u8>,
    et: u8,
    pos0: int,
    count0: int,
    acc: Seq<NodeView>,
    pos: int,
    count: int,
) -> bool {
    match decode_list_elems_spec(d, pos, et, count) {
        Ok(re) => decode_list_elems_spec(d, pos0, et, count0) == Ok::<(Seq<NodeView>, int), Error>(
            (acc + re.0, re.1),
        ),
        Err(e) => decode_list_elems_spec(d, pos0, et, count0) == Err::<
            (Seq<NodeView>, int),
            Error,
        >(e),
    }
}

/// Reads a record header from the cursor. The end marker never has a
/// name, so its name field is always empty.
pub fn read_header(cursor: &mut ByteCursor) -> (r: Result<TagHeader, Error>)
    ensures
        final(cursor).data@ == old(cursor).data@,
        match r {
            Ok(h) => decode_header_spec(old(cursor).data@, old(cursor).pos as int) == Ok::<
                (u8, Seq<char>, int),
                Error,
            >((h.tag_type, h.name@, final(cursor).pos as int)) && old(cursor).pos < final(cursor).pos <= old(cursor).data@.len(),
            Err(e) => decode_header_spec(old(cursor).data@, old(cursor).pos as int) == Err::<
                (u8, Seq<char>, int),
                Error,
            >(e),
        },
{
    let tag_type = match cursor.read_u8() {
        Ok(t) => t,
        Err(e) => { return Err(e) },
    };
    if tag_type == 0 {
        return Ok(TagHeader { tag_type: 0, name: String::new() });
    }
    let name_len = match cursor.read_u16() {
        Ok(n) => n,
        Err(e) => { return Err(e) },
    };
    let raw_name = match cursor.read_bytes(name_len as usize) {
        Ok(v) => v,
        Err(e) => { return Err(e) },
    };
    let name = lossy_string(raw_name.as_slice());
    Ok(TagHeader { tag_type, name })
}

/// Read a document record from a binary buffer.
/// If the record has children, they are decoded recursively.
/// The cursor is left at the end of the record.
pub fn read_tag(cursor: &mut ByteCursor) -> (r: Result<Node, Error>)
    ensures
        final(cursor).data@ == old(cursor).data@,
        match r {
            Ok(node) => decode_tag_spec(old(cursor).data@, old(cursor).pos as int) == Ok::<
                (NodeView, int),
                Error,
            >((node@, final(cursor).pos as int)) && old(cursor).pos < final(cursor).pos <= old(cursor).data@.len(),
            Err(e) => decode_tag_spec(old(cursor).data@, old(cursor).pos as int) == Err::<
                (NodeView, int),
                Error,
            >(e),
        },
    decreases cursor.data@.len() - cursor.pos, 0int, 0int,
{
    let header = match read_header(cursor) {
        Ok(h) => h,
        Err(e) => { return Err(e) },
    };
    read_tag_data(header, cursor)
}

/// Read the payload of a record whose header was already read.
/// The cursor is left at the end of the record.
#[verifier::loop_isolation(false)]
#[verifier::rlimit(60)]
pub fn read_tag_data(header: TagHeader, cursor: &mut ByteCursor) -> (r: Result<Node, Error>)
    requires
        old(cursor).pos <= old(cursor).data@.len(),
    ensures
        final(cursor).data@ == old(cursor).data@,
        match r {
            Ok(node) => decode_payload_spec(
                old(cursor).data@,
                old(cursor).pos as int,
                header.tag_type,
                header.name@,
            ) == Ok::<(NodeView, int), Error>((node@, final(cursor).pos as int)) && old(cursor).pos <= final(cursor).pos <= old(cursor).data@.len(),
            Err(e) => decode_payload_spec(
                old(cursor).data@,
                old(cursor).pos as int,
                header.tag_type,
                header.name@,
            ) == Err::<(NodeView, int), Error>(e),
        },
    decreases cursor.data@.len() - cursor.pos, 0int, 2int,
{
    let ghost d = cursor.data@;
    let ghost p0 = cursor.pos as int;
    match header.tag_type {
        0 => Ok(Node::End),
        1 => {
            match cursor.read_u8() {
                Ok(b) => Ok(Node::Byte { name: header.name, value: i8_from_byte(b) }),
                Err(e) => Err(e),
            }
        },
        2 => {
            match cursor.read_u16() {
                Ok(v) => Ok(Node::Short { name: header.name, value: i16_from_u16(v) }),
                Err(e) => Err(e),
            }
        },
        3 => {
            match cursor.read_u32() {
                Ok(v) => Ok(Node::Int { name: header.name, value: i32_from_u32(v) }),
                Err(e) => Err(e),
            }
        },
        4 => {
            match cursor.read_u64() {
                Ok(v) => Ok(Node::Long { name: header.name, value: i64_from_u64(v) }),
                Err(e) => Err(e),
            }
        },
        5 => {
            match cursor.read_u32() {
                Ok(v) => Ok(Node::Float { name: header.name, bits: v }),
                Err(e) => Err(e),
            }
        },
        6 => {
            match cursor.read_u64() {
                Ok(v) => Ok(Node::Double { name: header.name, bits: v }),
                Err(e) => Err(e),
            }
        },
        7 => {
            let cnt = match cursor.read_u32() {
                Ok(v) => v,
                Err(e) => { return Err(e) },
            };
            match read_i8_values(cursor, cnt) {
                Ok(values) => Ok(Node::ByteArray { name: header.name, values }),
                Err(e) => Err(e),
            }
        },
        8 => {
            let n = match cursor.read_u16() {
                Ok(v) => v,
                Err(e) => { return Err(e) },
            };
            let raw = match cursor.read_bytes(n as usize) {
                Ok(v) => v,
                Err(e) => { return Err(e) },
            };
            Ok(Node::Text { name: header.name, value: lossy_string(raw.as_slice()) })
        },
        9 => {
            let et = match cursor.read_u8() {
                Ok(v) => v,
                Err(e) => { return Err(e) },
            };
            let cnt = match cursor.read_u32() {
                Ok(v) => v,
                Err(e) => { return Err(e) },
            };
            match read_list_elems(cursor, et, cnt) {
                Ok(children) => Ok(Node::List { name: header.name, elem_type: et, children }),
                Err(e) => Err(e),
            }
        },
        10 => {
            match read_compound_children(cursor) {
                Ok(children) => Ok(Node::Compound { name: header.name, children }),
                Err(e) => Err(e),
            }
        },
        11 => {
            let cnt = match cursor.read_u32() {
                Ok(v) => v,
                Err(e) => { return Err(e) },
            };
            match read_i32_values(cursor, cnt) {
                Ok(values) => Ok(Node::IntArray { name: header.name, values }),
                Err(e) => Err(e),
            }
        },
        12 => {
            let cnt = match cursor.read_u32() {
                Ok(v) => v,
                Err(e) => { return Err(e) },
            };
            match read_i64_values(cursor, cnt) {
                Ok(values) => Ok(Node::LongArray { name: header.name, values }),
                Err(e) => Err(e),
            }
        },
        _ => Err(Error::UnknownTagType),
    }
}


/// Reads `cnt` signed bytes, the elements of a byte-sequence record.
#[verifier::loop_isolation(false)]
fn read_i8_values(cursor: &mut ByteCursor, cnt: u32) -> (r: Result<Vec<i8>, Error>)
    requires
        old(cursor).pos <= old(cursor).data@.len(),
    ensures
        final(cursor).data@ == old(cursor).data@,
        old(cursor).pos + cnt <= old(cursor).data@.len() ==> r is Ok && r.unwrap()@ == Seq::new(
            cnt as nat,
            |j: int| to_i8(old(cursor).data@[old(cursor).pos + j] as int),
        ) && final(cursor).pos == old(cursor).pos + cnt,
        old(cursor).pos + cnt > old(cursor).data@.len() ==> r == Err::<Vec<i8>, Error>(
            Error::TruncatedDocument,
        ),
{
    let ghost d = cursor.data@;
    let ghost p0 = cursor.pos as int;
    let mut values: Vec<i8> = Vec::new();
    let mut i: u32 = 0;
    while i < cnt
        invariant
            cursor.data@ == d,
            cursor.pos == p0 + i,
            cursor.pos <= d.len(),
            i <= cnt,
            values@.len() == i,
            forall|j: int| 0 <= j < i ==> values@[j] == to_i8(d[p0 + j] as int),
        decreases cnt - i,
    {
        let b = match cursor.read_u8() {
            Ok(b) => b,
            Err(e) => { return Err(e) },
        };
        values.push(i8_from_byte(b));
        i = i + 1;
    }
    proof {
        assert(values@ =~= Seq::new(cnt as nat, |j: int| to_i8(d[p0 + j] as int)));
    }
    Ok(values)
}

/// Reads `cnt` signed 32-bit values, the elements of an int-sequence
/// record.
#[verifier::loop_isolation(false)]
fn read_i32_values(cursor: &mut ByteCursor, cnt: u32) -> (r: Result<Vec<i32>, Error>)
    requires
        old(cursor).pos <= old(cursor).data@.len(),
    ensures
        final(cursor).data@ == old(cursor).data@,
        old(cursor).pos + 4 * cnt <= old(cursor).data@.len() ==> r is Ok && r.unwrap()@ == Seq::new(
            cnt as nat,
            |j: int| to_i32(be32_at(old(cursor).data@, old(cursor).pos + 4 * j)),
        ) && final(cursor).pos == old(cursor).pos + 4 * cnt,
        old(cursor).pos + 4 * cnt > old(cursor).data@.len() ==> r == Err::<Vec<i32>, Error>(
            Error::TruncatedDocument,
        ),
{
    let ghost d = cursor.data@;
    let ghost p0 = cursor.pos as int;
    let mut values: Vec<i32> = Vec::new();
    let mut i: u32 = 0;
    while i < cnt
        invariant
            cursor.data@ == d,
            cursor.pos == p0 + 4 * i,
            cursor.pos <= d.len(),
            i <= cnt,
            values@.len() == i,
            forall|j: int| 0 <= j < i ==> values@[j] == to_i32(be32_at(d, p0 + 4 * j)),
        decreases cnt - i,
    {
        let v = match cursor.read_u32() {
            Ok(v) => v,
            Err(e) => { return Err(e) },
        };
        values.push(i32_from_u32(v));
        i = i + 1;
    }
    proof {
        assert(values@ =~= Seq::new(cnt as nat, |j: int| to_i32(be32_at(d, p0 + 4 * j))));
    }
    Ok(values)
}

/// Reads `cnt` signed 64-bit values, the elements of a long-sequence
/// record.
#[verifier::loop_isolation(false)]
fn read_i64_values(cursor: &mut ByteCursor, cnt: u32) -> (r: Result<Vec<i64>, Error>)
    requires
        old(cursor).pos <= old(cursor).data@.len(),
    ensures
        final(cursor).data@ == old(cursor).data@,
        old(cursor).pos + 8 * cnt <= old(cursor).data@.len() ==> r is Ok && r.unwrap()@ == Seq::new(
            cnt as nat,
            |j: int| to_i64(be64_at(old(cursor).data@, old(cursor).pos + 8 * j)),
        ) && final(cursor).pos == old(cursor).pos + 8 * cnt,
        old(cursor).pos + 8 * cnt > old(cursor).data@.len() ==> r == Err::<Vec<i64>, Error>(
            Error::TruncatedDocument,
        ),
{
    let ghost d = cursor.data@;
    let ghost p0 = cursor.pos as int;
    let mut values: Vec<i64> = Vec::new();
    let mut i: u32 = 0;
    while i < cnt
        invariant
            cursor.data@ == d,
            cursor.pos == p0 + 8 * i,
            cursor.pos <= d.len(),
            i <= cnt,
            values@.len() == i,
            forall|j: int| 0 <= j < i ==> values@[j] == to_i64(be64_at(d, p0 + 8 * j)),
        decreases cnt - i,
    {
        let v = match cursor.read_u64() {
            Ok(v) => v,
            Err(e) => { return Err(e) },
        };
        values.push(i64_from_u64(v));
        i = i + 1;
    }
    proof {
        assert(values@ =~= Seq::new(cnt as nat, |j: int| to_i64(be64_at(d, p0 + 8 * j))));
    }
    Ok(values)
}

/// Reads `cnt` payload-only elements of type `et`: the children of a
/// list record, which share one synthetic header with an empty name.
#[verifier::loop_isolation(false)]
fn read_list_elems(cursor: &mut ByteCursor, et: u8, cnt: u32) -> (r: Result<Vec<Node>, Error>)
    requires
        old(cursor).pos <= old(cursor).data@.len(),
    ensures
        final(cursor).data@ == old(cursor).data@,
        match r {
            Ok(children) => decode_list_elems_spec(
                old(cursor).data@,
                old(cursor).pos as int,
                et,
                cnt as int,
            ) == Ok::<(Seq<NodeView>, int), Error>((nodes_view(children@), final(cursor).pos as int))
                && old(cursor).pos <= final(cursor).pos <= old(cursor).data@.len(),
            Err(e) => decode_list_elems_spec(
                old(cursor).data@,
                old(cursor).pos as int,
                et,
                cnt as int,
            ) == Err::<(Seq<NodeView>, int), Error>(e),
        },
    decreases cursor.data@.len() - cursor.pos, cnt, 1int,
{
    let ghost d = cursor.data@;
    let ghost p0 = cursor.pos as int;
    proof {
        match decode_list_elems_spec(d, p0, et, cnt as int) {
            Ok(re) => {
                assert(Seq::<NodeView>::empty() + re.0 =~= re.0);
            },
            Err(_) => {},
        }
    }
    let mut children: Vec<Node> = Vec::new();
    let mut i: u32 = 0;
    while i < cnt
        invariant
            cursor.data@ == d,
            p0 <= cursor.pos,
            cursor.pos <= d.len(),
            i <= cnt,
            nodes_view(children@).len() == i,
            list_suffix_matches(
                d,
                et,
                p0,
                cnt as int,
                nodes_view(children@),
                cursor.pos as int,
                cnt - i,
            ),
        decreases cnt - i,
    {
        let child_header = TagHeader { tag_type: et, name: String::new() };
        let child = match read_tag_data(child_header, cursor) {
            Ok(c) => c,
            Err(e) => { return Err(e) },
        };
        proof {
            crate::node::lemma_nodes_view_elts(children@);
            crate::node::lemma_nodes_view_elts(children@.push(child));
            assert(nodes_view(children@.push(child)) =~= nodes_view(children@) + seq![
                node_view(child),
            ]);
            assert((nodes_view(children@) + seq![node_view(child)]) + (
            match decode_list_elems_spec(d, cursor.pos as int, et, cnt - i - 1) {
                Ok(re) => re.0,
                Err(_) => Seq::empty(),
            }) =~= nodes_view(children@) + (seq![node_view(child)] + (match decode_list_elems_spec(
                d,
                cursor.pos as int,
                et,
                cnt - i - 1,
            ) {
                Ok(re) => re.0,
                Err(_) => Seq::empty(),
            })));
        }
        children.push(child);
        i = i + 1;
    }
    proof {
        assert(nodes_view(children@) + Seq::<NodeView>::empty() =~= nodes_view(children@));
    }
    Ok(children)
}

/// Reads the children of a compound record: full records, up to and
/// consuming the first end marker, which is not kept.
#[verifier::loop_isolation(false)]
fn read_compound_children(cursor: &mut ByteCursor) -> (r: Result<Vec<Node>, Error>)
    ensures
        final(cursor).data@ == old(cursor).data@,
        match r {
            Ok(children) => decode_compound_children_spec(
                old(cursor).data@,
                old(cursor).pos as int,
            ) == Ok::<(Seq<NodeView>, int), Error>((nodes_view(children@), final(cursor).pos as int))
                && old(cursor).pos < final(cursor).pos <= old(cursor).data@.len(),
            Err(e) => decode_compound_children_spec(
                old(cursor).data@,
                old(cursor).pos as int,
            ) == Err::<(Seq<NodeView>, int), Error>(e),
        },
    decreases cursor.data@.len() - cursor.pos, 0int, 1int,
{
    let ghost d = cursor.data@;
    let ghost p0 = cursor.pos as int;
    proof {
        match decode_compound_children_spec(d, p0) {
            Ok(re) => {
                assert(Seq::<NodeView>::empty() + re.0 =~= re.0);
            },
            Err(_) => {},
        }
    }
    let mut children: Vec<Node> = Vec::new();
    let mut done = false;
    while !done
        invariant
            cursor.data@ == d,
            cursor.pos == p0 || p0 < cursor.pos <= d.len(),
            !done ==> compound_suffix_matches(d, p0, nodes_view(children@), cursor.pos as int),
            done ==> p0 < cursor.pos <= d.len() && decode_compound_children_spec(d, p0) == Ok::<
                (Seq<NodeView>, int),
                Error,
            >((nodes_view(children@), cursor.pos as int)),
        decreases d.len() - cursor.pos + (if done { 0int } else { 1int }),
    {
        let child = match read_tag(cursor) {
            Ok(c) => c,
            Err(e) => { return Err(e) },
        };
        if matches!(child, Node::End) {
            proof {
                assert(nodes_view(children@) + Seq::<NodeView>::empty() =~= nodes_view(children@));
            }
            done = true;
        } else {
            proof {
                crate::node::lemma_nodes_view_elts(children@);
                crate::node::lemma_nodes_view_elts(children@.push(child));
                assert(nodes_view(children@.push(child)) =~= nodes_view(children@) + seq![
                    node_view(child),
                ]);
                assert((nodes_view(children@) + seq![node_view(child)]) + (
                match decode_compound_children_spec(d, cursor.pos as int) {
                    Ok(re) => re.0,
                    Err(_) => Seq::empty(),
                }) =~= nodes_view(children@) + (seq![node_view(child)] + (
                match decode_compound_children_spec(d, cursor.pos as int) {
                    Ok(re) => re.0,
                    Err(_) => Seq::empty(),
                })));
            }
            children.push(child);
        }
    }
    Ok(children)
}

/// A decoded header ends past its start and inside the buffer.
proof fn lemma_header_bounds(d: Seq<u8>, pos: int)
    requires
        0 <= pos,
        decode_header_spec(d, pos) is Ok,
    ensures
        pos < decode_header_spec(d, pos).unwrap().2 <= d.len(),
{
}

/// A header that ends at or before the cut decodes identically in the
/// truncated buffer.
proof fn lemma_header_stable(d: Seq<u8>, k: int, pos: int)
    requires
        0 <= pos,
        decode_header_spec(d, pos) is Ok,
        decode_header_spec(d, pos).unwrap().2 <= k <= d.len(),
    ensures
        decode_header_spec(d.subrange(0, k), pos) == decode_header_spec(d, pos),
{
    let t = d.subrange(0, k);
    let hdr = decode_header_spec(d, pos).unwrap();
    if d[pos] != 0 {
        let nlen = be16_at(d, pos + 1);
        assert(t.subrange(pos + 3, pos + 3 + nlen) =~= d.subrange(pos + 3, pos + 3 + nlen));
    }
}

/// A header cut before its end fails as truncated in the truncated
/// buffer.
proof fn lemma_header_trunc(d: Seq<u8>, k: int, pos: int)
    requires
        0 <= pos,
        0 <= k <= d.len(),
        decode_header_spec(d, pos) is Ok,
        k < decode_header_spec(d, pos).unwrap().2,
    ensures
        decode_header_spec(d.subrange(0, k), pos) == Err::<(u8, Seq<char>, int), Error>(
            Error::TruncatedDocument,
        ),
{
}

/// A decoded record ends past its start and inside the buffer.
proof fn lemma_tag_bounds(d: Seq<u8>, pos: int)
    requires
        0 <= pos,
        decode_tag_spec(d, pos) is Ok,
    ensures
        pos < decode_tag_spec(d, pos).unwrap().1 <= d.len(),
    decreases d.len() - pos, 0int, 0int,
{
    lemma_header_bounds(d, pos);
    let hdr = decode_header_spec(d, pos).unwrap();
    lemma_payload_bounds(d, hdr.2, hdr.0, hdr.1);
}

/// A decoded payload never ends before its start; except for the end
/// marker, which has no payload, it ends inside the buffer.
proof fn lemma_payload_bounds(d: Seq<u8>, pos: int, t: u8, name: Seq<char>)
    requires
        0 <= pos,
        decode_payload_spec(d, pos, t, name) is Ok,
    ensures
        pos <= decode_payload_spec(d, pos, t, name).unwrap().1,
        t != 0 ==> decode_payload_spec(d, pos, t, name).unwrap().1 <= d.len(),
    decreases d.len() - pos, 0int, 2int,
{
    if t == 9 {
        lemma_list_elems_bounds(d, pos + 5, d[pos], be32_at(d, pos + 1));
    } else if t == 10 {
        lemma_compound_children_bounds(d, pos);
    }
}

/// Decoded compound children end past their start and inside the
/// buffer: the consumed end marker guarantees progress.
proof fn lemma_compound_children_bounds(d: Seq<u8>, pos: int)
    requires
        0 <= pos,
        decode_compound_children_spec(d, pos) is Ok,
    ensures
        pos < decode_compound_children_spec(d, pos).unwrap().1 <= d.len(),
    decreases d.len() - pos, 0int, 1int,
{
    lemma_tag_bounds(d, pos);
    let ce = decode_tag_spec(d, pos).unwrap();
    if !(ce.0 is End) {
        lemma_compound_children_bounds(d, ce.1);
    }
}

/// Decoded list elements never end before their start; when there is at
/// least one element, they end inside the buffer.
proof fn lemma_list_elems_bounds(d: Seq<u8>, pos: int, et: u8, count: int)
    requires
        0 <= pos,
        decode_list_elems_spec(d, pos, et, count) is Ok,
    ensures
        pos <= decode_list_elems_spec(d, pos, et, count).unwrap().1,
        count > 0 ==> decode_list_elems_spec(d, pos, et, count).unwrap().1 <= d.len(),
    decreases d.len() - pos, count, 1int,
{
    if count > 0 {
        let ce = decode_payload_spec(d, pos, et, Seq::empty()).unwrap();
        lemma_list_elems_bounds(d, ce.1, et, count - 1);
    }
}

/// A record that ends at or before the cut decodes identically in the
/// truncated buffer.
proof fn lemma_tag_stable(d: Seq<u8>, k: int, pos: int)
    requires
        0 <= pos,
        decode_tag_spec(d, pos) is Ok,
        decode_tag_spec(d, pos).unwrap().1 <= k <= d.len(),
    ensures
        decode_tag_spec(d.subrange(0, k), pos) == decode_tag_spec(d, pos),
    decreases d.len() - pos, 0int, 0int,
{
    lemma_header_bounds(d, pos);
    let hdr = decode_header_spec(d, pos).unwrap();
    lemma_payload_bounds(d, hdr.2, hdr.0, hdr.1);
    lemma_header_stable(d, k, pos);
    lemma_payload_stable(d, k, hdr.2, hdr.0, hdr.1);
}

/// A payload that ends at or before the cut decodes identically in the
/// truncated buffer.
proof fn lemma_payload_stable(d: Seq<u8>, k: int, pos: int, t: u8, name: Seq<char>)
    requires
        0 <= pos,
        decode_payload_spec(d, pos, t, name) is Ok,
        decode_payload_spec(d, pos, t, name).unwrap().1 <= k <= d.len(),
        pos <= k,
    ensures
        decode_payload_spec(d.subrange(0, k), pos, t, name) == decode_payload_spec(
            d,
            pos,
            t,
            name,
        ),
    decreases d.len() - pos, 0int, 2int,
{
    let tb = d.subrange(0, k);
    if t == 7 {
        let n = be32_at(d, pos);
        assert(Seq::new(n as nat, |i: int| to_i8(tb[pos + 4 + i] as int)) =~= Seq::new(
            n as nat,
            |i: int| to_i8(d[pos + 4 + i] as int),
        ));
    } else if t == 8 {
        let n = be16_at(d, pos);
        assert(tb.subrange(pos + 2, pos + 2 + n) =~= d.subrange(pos + 2, pos + 2 + n));
    } else if t == 9 {
        lemma_list_elems_bounds(d, pos + 5, d[pos], be32_at(d, pos + 1));
        lemma_list_elems_stable(d, k, pos + 5, d[pos], be32_at(d, pos + 1));
    } else if t == 10 {
        lemma_compound_children_bounds(d, pos);
        lemma_compound_children_stable(d, k, pos);
    } else if t == 11 {
        let n = be32_at(d, pos);
        assert(Seq::new(n as nat, |i: int| to_i32(be32_at(tb, pos + 4 + 4 * i))) =~= Seq::new(
            n as nat,
            |i: int| to_i32(be32_at(d, pos + 4 + 4 * i)),
        ));
    } else if t == 12 {
        let n = be32_at(d, pos);
        assert(Seq::new(n as nat, |i: int| to_i64(be64_at(tb, pos + 4 + 8 * i))) =~= Seq::new(
            n as nat,
            |i: int| to_i64(be64_at(d, pos + 4 + 8 * i)),
        ));
    }
}

/// Compound children that end at or before the cut decode identically
/// in the truncated buffer.
proof fn lemma_compound_children_stable(d: Seq<u8>, k: int, pos: int)
    requires
        0 <= pos,
        decode_compound_children_spec(d, pos) is Ok,
        decode_compound_children_spec(d, pos).unwrap().1 <= k <= d.len(),
    ensures
        decode_compound_children_spec(d.subrange(0, k), pos) == decode_compound_children_spec(
            d,
            pos,
        ),
    decreases d.len() - pos, 0int, 1int,
{
    lemma_tag_bounds(d, pos);
    let ce = decode_tag_spec(d, pos).unwrap();
    if ce.0 is End {
        lemma_tag_stable(d, k, pos);
    } else {
        lemma_compound_children_bounds(d, ce.1);
        lemma_tag_stable(d, k, pos);
        lemma_compound_children_stable(d, k, ce.1);
    }
}

/// List elements that end at or before the cut decode identically in
/// the truncated buffer.
proof fn lemma_list_elems_stable(d: Seq<u8>, k: int, pos: int, et: u8, count: int)
    requires
        0 <= pos,
        decode_list_elems_spec(d, pos, et, count) is Ok,
        decode_list_elems_spec(d, pos, et, count).unwrap().1 <= k <= d.len(),
        pos <= k,
    ensures
        decode_list_elems_spec(d.subrange(0, k), pos, et, count) == decode_list_elems_spec(
            d,
            pos,
            et,
            count,
        ),
    decreases d.len() - pos, count, 1int,
{
    if count > 0 {
        let ce = decode_payload_spec(d, pos, et, Seq::empty()).unwrap();
        lemma_payload_bounds(d, pos, et, Seq::empty());
        lemma_list_elems_bounds(d, ce.1, et, count - 1);
        lemma_payload_stable(d, k, pos, et, Seq::empty());
        lemma_list_elems_stable(d, k, ce.1, et, count - 1);
    }
}

/// Cutting a record before its end makes it fail as truncated.
proof fn lemma_tag_trunc(d: Seq<u8>, k: int, pos: int)
    requires
        0 <= pos,
        0 <= k,
        decode_tag_spec(d, pos) is Ok,
        k < decode_tag_spec(d, pos).unwrap().1,
    ensures
        decode_tag_spec(d.subrange(0, k), pos) == Err::<(NodeView, int), Error>(
            Error::TruncatedDocument,
        ),
    decreases d.len() - pos, 0int, 0int,
{
    lemma_tag_bounds(d, pos);
    lemma_header_bounds(d, pos);
    let hdr = decode_header_spec(d, pos).unwrap();
    if k < hdr.2 {
        lemma_header_trunc(d, k, pos);
    } else {
        lemma_header_stable(d, k, pos);
        lemma_payload_trunc(d, k, hdr.2, hdr.0, hdr.1);
    }
}

/// Cutting a payload before its end makes it fail as truncated.
proof fn lemma_payload_trunc(d: Seq<u8>, k: int, pos: int, t: u8, name: Seq<char>)
    requires
        0 <= pos <= k,
        decode_payload_spec(d, pos, t, name) is Ok,
        k < decode_payload_spec(d, pos, t, name).unwrap().1,
    ensures
        decode_payload_spec(d.subrange(0, k), pos, t, name) == Err::<(NodeView, int), Error>(
            Error::TruncatedDocument,
        ),
    decreases d.len() - pos, 0int, 2int,
{
    let tb = d.subrange(0, k);
    lemma_payload_bounds(d, pos, t, name);
    if t == 9 {
        let et = d[pos];
        let n = be32_at(d, pos + 1);
        if k < pos + 5 {
        } else {
            lemma_list_elems_bounds(d, pos + 5, et, n);
            lemma_list_elems_trunc(d, k, pos + 5, et, n);
        }
    } else if t == 10 {
        lemma_compound_children_bounds(d, pos);
        lemma_compound_children_trunc(d, k, pos);
    }
}

/// Cutting compound children before their end makes them fail as
/// truncated.
proof fn lemma_compound_children_trunc(d: Seq<u8>, k: int, pos: int)
    requires
        0 <= pos <= k,
        decode_compound_children_spec(d, pos) is Ok,
        k < decode_compound_children_spec(d, pos).unwrap().1,
    ensures
        decode_compound_children_spec(d.subrange(0, k), pos) == Err::<(Seq<NodeView>, int), Error>(
            Error::TruncatedDocument,
        ),
    decreases d.len() - pos, 0int, 1int,
{
    lemma_tag_bounds(d, pos);
    let ce = decode_tag_spec(d, pos).unwrap();
    if ce.0 is End {
        lemma_tag_trunc(d, k, pos);
    } else {
        lemma_compound_children_bounds(d, ce.1);
        if k < ce.1 {
            lemma_tag_trunc(d, k, pos);
        } else {
            lemma_tag_stable(d, k, pos);
            lemma_compound_children_trunc(d, k, ce.1);
        }
    }
}

/// Cutting list elements before their end makes them fail as truncated.
proof fn lemma_list_elems_trunc(d: Seq<u8>, k: int, pos: int, et: u8, count: int)
    requires
        0 <= pos <= k,
        decode_list_elems_spec(d, pos, et, count) is Ok,
        k < decode_list_elems_spec(d, pos, et, count).unwrap().1,
    ensures
        decode_list_elems_spec(d.subrange(0, k), pos, et, count) == Err::<
            (Seq<NodeView>, int),
            Error,
        >(Error::TruncatedDocument),
    decreases d.len() - pos, count, 1int,
{
    let ce = decode_payload_spec(d, pos, et, Seq::empty()).unwrap();
    lemma_payload_bounds(d, pos, et, Seq::empty());
    lemma_list_elems_bounds(d, ce.1, et, count - 1);
    if k < ce.1 {
        lemma_payload_trunc(d, k, pos, et, Seq::empty());
    } else {
        lemma_payload_stable(d, k, pos, et, Seq::empty());
        lemma_list_elems_trunc(d, k, ce.1, et, count - 1);
    }
}

/// Malformed input: cutting an encoded document anywhere before its
/// declared contents are fully consumed makes decoding fail as
/// truncated, never yield a silent partial result.
pub proof fn lemma_truncation_detected(d: Seq<u8>, pos: int, k: int)
    requires
        0 <= pos,
        0 <= k,
        decode_tag_spec(d, pos) is Ok,
        k < decode_tag_spec(d, pos).unwrap().1,
    ensures
        k < d.len(),
        decode_tag_spec(d.subrange(0, k), pos) == Err::<(NodeView, int), Error>(
            Error::TruncatedDocument,
        ),
{
    lemma_tag_bounds(d, pos);
    lemma_tag_trunc(d, k, pos);
}

} // verus!
