//! NTFS change-journal records and the file-reference-number tree they describe.
//!
//! Raw volume I/O stays outside; this module decodes the buffers the volume hands back,
//! keeps the id -> (name, parent, is_dir) table, and resolves full paths from it.
use vstd::prelude::*;
use std::collections::HashMap;
use crate::bytes::{le_field, read_le};
use crate::text::{from_utf16_lossy, utf16_lossy};

verus! {

broadcast use vstd::std_specs::hash::group_hash_axioms;

/// Attribute bit that marks a directory.
pub const FILE_ATTRIBUTE_DIRECTORY: u32 = 0x10;
/// Reason bit of a record that reports a deletion.
pub const USN_REASON_FILE_DELETE: u32 = 0x200;

/// One decoded `USN_RECORD_V2`.
pub struct UsnRecord {
    pub len: usize,
    pub frn: u64,
    pub parent: u64,
    pub name: String,
    pub is_dir: bool,
    pub reason: u32,
}

/// The mathematical content of a [`UsnRecord`].
pub struct RecordView {
    pub len: nat,
    pub frn: u64,
    pub parent: u64,
    pub name: Seq<char>,
    pub is_dir: bool,
    pub reason: u32,
}

impl View for UsnRecord {
    type V = RecordView;

    open spec fn view(&self) -> RecordView {
        RecordView {
            len: self.len as nat,
            frn: self.frn,
            parent: self.parent,
            name: self.name@,
            is_dir: self.is_dir,
            reason: self.reason,
        }
    }
}

/// UTF-16 code units read pairwise (little-endian) from a byte run; an odd last byte is dropped.
pub open spec fn units_of(b: Seq<u8>) -> Seq<u16> {
    Seq::new(b.len() / 2, |i: int| (b[2 * i] as nat + 256 * b[2 * i + 1] as nat) as u16)
}

/// What a record buffer that starts at its first byte decodes to.
pub open spec fn parse_spec(rec: Seq<u8>) -> Option<RecordView> {
    if rec.len() < 60 {
        None
    } else {
        let len = le_field(rec, 0, 4);
        if len == 0 || len > rec.len() {
            None
        } else {
            let nlen = le_field(rec, 56, 2);
            let noff = le_field(rec, 58, 2);
            let attrs = le_field(rec, 52, 4) as u32;
            let name = if noff + nlen > len || noff + nlen > rec.len() {
                Seq::<char>::empty()
            } else {
                utf16_lossy(units_of(rec.subrange(noff as int, (noff + nlen) as int)))
            };
            Some(
                RecordView {
                    len,
                    frn: le_field(rec, 8, 8) as u64,
                    parent: le_field(rec, 16, 8) as u64,
                    name,
                    is_dir: attrs & FILE_ATTRIBUTE_DIRECTORY != 0,
                    reason: le_field(rec, 40, 4) as u32,
                },
            )
        }
    }
}

/// The records of a buffer from offset `off` on: decoded one after another while at
/// least a header's worth of bytes is left, stopping at the first that does not decode.
pub open spec fn records_from(buf: Seq<u8>, off: nat) -> Seq<RecordView>
    decreases buf.len() - off,
{
    if off + 60 > buf.len() {
        Seq::empty()
    } else {
        let rest = buf.subrange(off as int, buf.len() as int);
        let len = le_field(rest, 0, 4);
        if len == 0 || len > rest.len() {
            Seq::empty()
        } else {
            seq![parse_spec(rest).unwrap()] + records_from(buf, off + len)
        }
    }
}

fn units_from(buf: &[u8], off: usize, n: usize) -> (r: Vec<u16>)
    requires
        off + n <= buf.len(),
    ensures
        r@ == units_of(buf@.subrange(off as int, off + n)),
{
    let mut r: Vec<u16> = Vec::new();
    let half = n / 2;
    let mut i: usize = 0;
    while i < half
        invariant
            half == n / 2,
            off + n <= buf.len(),
            i <= half,
            r@.len() == i,
            forall|j: int|
                0 <= j < i ==> r@[j] == (buf@[off + 2 * j] as nat + 256 * buf@[off + 2 * j
                    + 1] as nat) as u16,
        decreases half - i,
    {
        let lo = buf[off + 2 * i] as u16;
        let hi = buf[off + 2 * i + 1] as u16;
        r.push(lo + 256 * hi);
        i = i + 1;
    }
    r
}

/// Decodes the record that starts at byte `off` of `buf` (the record runs to the end
/// of `buf` at most).
pub fn parse_record_at(buf: &[u8], off: usize) -> (r: Option<UsnRecord>)
    requires
        off <= buf.len(),
    ensures
        match r {
            Some(rec) => parse_spec(buf@.subrange(off as int, buf@.len() as int)) == Some(rec@),
            None => parse_spec(buf@.subrange(off as int, buf@.len() as int)) is None,
        },
{
    let ghost rec = buf@.subrange(off as int, buf@.len() as int);
    let avail = buf.len() - off;
    if avail < 60 {
        return None;
    }
    proof {
        assert forall|o: int, n: int| 0 <= o && o + n <= rec.len() && 0 <= n implies
            #[trigger] le_field(rec, o, n) == le_field(buf@, off + o, n) by {
            assert(rec.subrange(o, o + n) =~= buf@.subrange(off + o, off + o + n));
        }
    }
    let len = read_le(buf, off, 4) as usize;
    if len == 0 || len > avail {
        return None;
    }
    let frn = read_le(buf, off + 8, 8);
    let parent = read_le(buf, off + 16, 8);
    let reason = read_le(buf, off + 40, 4) as u32;
    let attrs = read_le(buf, off + 52, 4) as u32;
    let nlen = read_le(buf, off + 56, 2) as usize;
    let noff = read_le(buf, off + 58, 2) as usize;
    let is_dir = attrs & FILE_ATTRIBUTE_DIRECTORY != 0;
    let name = if noff + nlen > len || noff + nlen > avail {
        String::new()
    } else {
        let units = units_from(buf, off + noff, nlen);
        proof {
            assert(rec.subrange(noff as int, noff + nlen) =~= buf@.subrange(
                off + noff,
                off + noff + nlen,
            ));
        }
        from_utf16_lossy(units.as_slice())
    };
    Some(UsnRecord { len, frn, parent, name, is_dir, reason })
}

/// Decodes a record buffer from its first byte: `None` when it is shorter than a
/// header or its length field is zero or runs past the buffer.
pub fn parse_record(rec: &[u8]) -> (r: Option<UsnRecord>)
    ensures
        match r {
            Some(x) => parse_spec(rec@) == Some(x@),
            None => parse_spec(rec@) is None,
        },
{
    proof {
        assert(rec@.subrange(0, rec@.len() as int) =~= rec@);
    }
    parse_record_at(rec, 0)
}

/// All records of `buf` from offset `start` on (see [`records_from`]).
pub fn parse_records(buf: &[u8], start: usize) -> (r: Vec<UsnRecord>)
    ensures
        r@.map_values(|x: UsnRecord| x@) == records_from(buf@, start as nat),
{
    let mut out: Vec<UsnRecord> = Vec::new();
    let mut off = start;
    loop
        invariant
            out@.map_values(|x: UsnRecord| x@) + records_from(buf@, off as nat) == records_from(
                buf@,
                start as nat,
            ),
        ensures
            out@.map_values(|x: UsnRecord| x@) == records_from(buf@, start as nat),
        decreases buf.len() - off,
    {
        let ghost before = out@.map_values(|x: UsnRecord| x@);
        if !(off <= buf.len() && buf.len() - off >= 60) {
            proof {
                assert(before + Seq::<RecordView>::empty() =~= before);
            }
            break;
        }
        match parse_record_at(buf, off) {
            Some(rec) => {
                let len = rec.len;
                proof {
                    assert(records_from(buf@, off as nat) == seq![rec@] + records_from(
                        buf@,
                        (off + len) as nat,
                    ));
                }
                out.push(rec);
                proof {
                    assert(out@.map_values(|x: UsnRecord| x@) =~= before.push(
                        out@[out@.len() - 1]@,
                    ));
                    assert(before.push(out@[out@.len() - 1]@) + records_from(
                        buf@,
                        (off + len) as nat,
                    ) =~= before + (seq![out@[out@.len() - 1]@] + records_from(
                        buf@,
                        (off + len) as nat,
                    )));
                }
                off = off + len;
            },
            None => {
                proof {
                    assert(records_from(buf@, off as nat) =~= Seq::<RecordView>::empty());
                    assert(before + Seq::<RecordView>::empty() =~= before);
                    assert(out@.map_values(|x: UsnRecord| x@) == before);
                }
                break ;
            },
        }
    }
    out
}

} // verus!
