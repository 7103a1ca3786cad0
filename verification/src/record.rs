use crate::linker_error::{number_text, LinkerError, Message};
use vstd::prelude::*;
use vstd::slice::*;
use vstd::string::*;
use vstd::utf8::*;

verus! {

/// Known record types.
#[derive(Debug, Eq, PartialEq, Structural, Clone, Copy)]
pub enum RecordType {
    THEADR,
    COMENT,
    MODEND,
    EXTDEF,
    PUBDEF,
    LNAMES,
    SEGDEF,
    GRPDEF,
    FIXUPP,
    LEDATA,
    LIDATA,
    COMDEF,
    LEXTDEF,
    LPUBDEF,
    LCOMDEF,
    LIBHDR,
    LIBEND,
    EXTDCT,
}

impl RecordType {
    /// The type byte that opens a record of this type.
    pub open spec fn code(self) -> u8 {
        match self {
            RecordType::THEADR => 0x80,
            RecordType::COMENT => 0x88,
            RecordType::MODEND => 0x8a,
            RecordType::EXTDEF => 0x8c,
            RecordType::PUBDEF => 0x90,
            RecordType::LNAMES => 0x96,
            RecordType::SEGDEF => 0x98,
            RecordType::GRPDEF => 0x9a,
            RecordType::FIXUPP => 0x9c,
            RecordType::LEDATA => 0xa0,
            RecordType::LIDATA => 0xa2,
            RecordType::COMDEF => 0xb0,
            RecordType::LEXTDEF => 0xb4,
            RecordType::LPUBDEF => 0xb6,
            RecordType::LCOMDEF => 0xb8,
            RecordType::LIBHDR => 0xf0,
            RecordType::LIBEND => 0xf1,
            RecordType::EXTDCT => 0xf2,
        }
    }

    /// The record type that a type byte stands for, if it is a known one.
    pub open spec fn decode(ty: u8) -> Option<RecordType> {
        if ty == 0x80 {
            Some(RecordType::THEADR)
        } else if ty == 0x88 {
            Some(RecordType::COMENT)
        } else if ty == 0x8a {
            Some(RecordType::MODEND)
        } else if ty == 0x8c {
            Some(RecordType::EXTDEF)
        } else if ty == 0x90 {
            Some(RecordType::PUBDEF)
        } else if ty == 0x96 {
            Some(RecordType::LNAMES)
        } else if ty == 0x98 {
            Some(RecordType::SEGDEF)
        } else if ty == 0x9a {
            Some(RecordType::GRPDEF)
        } else if ty == 0x9c {
            Some(RecordType::FIXUPP)
        } else if ty == 0xa0 {
            Some(RecordType::LEDATA)
        } else if ty == 0xa2 {
            Some(RecordType::LIDATA)
        } else if ty == 0xb0 {
            Some(RecordType::COMDEF)
        } else if ty == 0xb4 {
            Some(RecordType::LEXTDEF)
        } else if ty == 0xb6 {
            Some(RecordType::LPUBDEF)
        } else if ty == 0xb8 {
            Some(RecordType::LCOMDEF)
        } else if ty == 0xf0 {
            Some(RecordType::LIBHDR)
        } else if ty == 0xf1 {
            Some(RecordType::LIBEND)
        } else if ty == 0xf2 {
            Some(RecordType::EXTDCT)
        } else {
            None
        }
    }

    /// The name of the record type.
    pub open spec fn name_text(self) -> Seq<char> {
        match self {
            RecordType::THEADR => "THEADR"@,
            RecordType::COMENT => "COMENT"@,
            RecordType::MODEND => "MODEND"@,
            RecordType::EXTDEF => "EXTDEF"@,
            RecordType::PUBDEF => "PUBDEF"@,
            RecordType::LNAMES => "LNAMES"@,
            RecordType::SEGDEF => "SEGDEF"@,
            RecordType::GRPDEF => "GRPDEF"@,
            RecordType::FIXUPP => "FIXUPP"@,
            RecordType::LEDATA => "LEDATA"@,
            RecordType::LIDATA => "LIDATA"@,
            RecordType::COMDEF => "COMDEF"@,
            RecordType::LEXTDEF => "LEXTDEF"@,
            RecordType::LPUBDEF => "LPUBDEF"@,
            RecordType::LCOMDEF => "LCOMDEF"@,
            RecordType::LIBHDR => "LIBHDR"@,
            RecordType::LIBEND => "LIBEND"@,
            RecordType::EXTDCT => "EXTDCT"@,
        }
    }

    /// The name of the record type, for messages.
    pub fn name(self) -> (n: &'static str)
        ensures
            n@ == self.name_text(),
    {
        match self {
            RecordType::THEADR => "THEADR",
            RecordType::COMENT => "COMENT",
            RecordType::MODEND => "MODEND",
            RecordType::EXTDEF => "EXTDEF",
            RecordType::PUBDEF => "PUBDEF",
            RecordType::LNAMES => "LNAMES",
            RecordType::SEGDEF => "SEGDEF",
            RecordType::GRPDEF => "GRPDEF",
            RecordType::FIXUPP => "FIXUPP",
            RecordType::LEDATA => "LEDATA",
            RecordType::LIDATA => "LIDATA",
            RecordType::COMDEF => "COMDEF",
            RecordType::LEXTDEF => "LEXTDEF",
            RecordType::LPUBDEF => "LPUBDEF",
            RecordType::LCOMDEF => "LCOMDEF",
            RecordType::LIBHDR => "LIBHDR",
            RecordType::LIBEND => "LIBEND",
            RecordType::EXTDCT => "EXTDCT",
        }
    }

    pub fn from_data(ty: u8) -> (r: Result<RecordType, LinkerError>)
        ensures
            match r {
                Ok(t) => Self::decode(ty) == Some(t),
                Err(e) => Self::decode(ty) is None && e.message() == unhandled_text(
                    number_text(ty as nat, true, 2),
                ),
            },
    {
        if ty == 0x80 {
            Ok(RecordType::THEADR)
        } else if ty == 0x88 {
            Ok(RecordType::COMENT)
        } else if ty == 0x8a {
            Ok(RecordType::MODEND)
        } else if ty == 0x8c {
            Ok(RecordType::EXTDEF)
        } else if ty == 0x90 {
            Ok(RecordType::PUBDEF)
        } else if ty == 0x96 {
            Ok(RecordType::LNAMES)
        } else if ty == 0x98 {
            Ok(RecordType::SEGDEF)
        } else if ty == 0x9a {
            Ok(RecordType::GRPDEF)
        } else if ty == 0x9c {
            Ok(RecordType::FIXUPP)
        } else if ty == 0xa0 {
            Ok(RecordType::LEDATA)
        } else if ty == 0xa2 {
            Ok(RecordType::LIDATA)
        } else if ty == 0xb0 {
            Ok(RecordType::COMDEF)
        } else if ty == 0xb4 {
            Ok(RecordType::LEXTDEF)
        } else if ty == 0xb6 {
            Ok(RecordType::LPUBDEF)
        } else if ty == 0xb8 {
            Ok(RecordType::LCOMDEF)
        } else if ty == 0xf0 {
            Ok(RecordType::LIBHDR)
        } else if ty == 0xf1 {
            Ok(RecordType::LIBEND)
        } else if ty == 0xf2 {
            Ok(RecordType::EXTDCT)
        } else {
            Err(Message::new("unhandled record ").hex(ty as usize, 2).error())
        }
    }
}

/// The largest payload a record can carry: the 16-bit length field counts the
/// payload and the checksum byte.
pub const MAX_PAYLOAD: usize = 0xfffe;

/// The 16-bit value whose little-endian encoding is `b0, b1`.
pub open spec fn le16(b0: u8, b1: u8) -> u16 {
    (b0 as int + 256 * b1 as int) as u16
}

/// The 32-bit value whose little-endian encoding is `b0, b1, b2, b3`.
pub open spec fn le32(b0: u8, b1: u8, b2: u8, b3: u8) -> u32 {
    (b0 as int + 256 * b1 as int + 65536 * b2 as int + 16777216 * b3 as int) as u32
}

/// The value of the length field of the record that opens `bytes`.
pub open spec fn frame_length(bytes: Seq<u8>) -> int {
    le16(bytes[1], bytes[2]) as int
}

/// Whether `bytes` opens with a complete record of a known type: a type
/// byte, a length of at least 1 (the checksum), and that many bytes.
pub open spec fn frame_ok(bytes: Seq<u8>) -> bool {
    &&& bytes.len() >= 4
    &&& RecordType::decode(bytes[0]) is Some
    &&& frame_length(bytes) >= 1
    &&& 3 + frame_length(bytes) <= bytes.len()
}

/// The text of the error for a record that cannot be handled: `what` is the
/// name of its type or, where that has none, its number.
pub open spec fn unhandled_text(what: Seq<char>) -> Seq<char> {
    "unhandled record "@ + what
}

/// What is wrong with bytes that do not open with a complete record of a
/// known type: they are too short for a record, or for the record that they
/// announce; the type of the record is none that can be handled; or the
/// length of the record leaves no room for the checksum.
pub open spec fn frame_error(bytes: Seq<u8>) -> Seq<char> {
    if bytes.len() < 4 {
        "Truncated OMF record."@
    } else if RecordType::decode(bytes[0]) is None {
        unhandled_text(number_text(bytes[0] as nat, true, 2))
    } else if 3 + frame_length(bytes) > bytes.len() {
        "Truncated OMF record."@
    } else {
        "Invalid OMF record length."@
    }
}

/// The payload of the record that opens `bytes`: what lies between the
/// length field and the checksum byte.
pub open spec fn frame_payload(bytes: Seq<u8>) -> Seq<u8> {
    bytes.subrange(3, 3 + frame_length(bytes) - 1)
}

/// Reads one byte at `pos`; the result pairs the value with the position
/// after it.
pub open spec fn read_byte(s: Seq<u8>, pos: int) -> Option<(u8, int)> {
    if 0 <= pos < s.len() {
        Some((s[pos], pos + 1))
    } else {
        None
    }
}

/// Reads a little-endian word at `pos`.
pub open spec fn read_word(s: Seq<u8>, pos: int) -> Option<(u16, int)> {
    if 0 <= pos && pos + 2 <= s.len() {
        Some((le16(s[pos], s[pos + 1]), pos + 2))
    } else {
        None
    }
}

/// Reads a little-endian double word at `pos`.
pub open spec fn read_dword(s: Seq<u8>, pos: int) -> Option<(u32, int)> {
    if 0 <= pos && pos + 4 <= s.len() {
        Some((le32(s[pos], s[pos + 1], s[pos + 2], s[pos + 3]), pos + 4))
    } else {
        None
    }
}

/// Reads a packed index at `pos`: one byte below 0x80 is the index itself;
/// otherwise its low seven bits are the high byte of the index and the next
/// byte is the low byte.
pub open spec fn read_index(s: Seq<u8>, pos: int) -> Option<(usize, int)> {
    if 0 <= pos < s.len() {
        if s[pos] < 0x80 {
            Some((s[pos] as usize, pos + 1))
        } else if pos + 1 < s.len() {
            Some((((s[pos] - 0x80) * 256 + s[pos + 1]) as usize, pos + 2))
        } else {
            None
        }
    } else {
        None
    }
}

/// Reads a COMDEF length at `pos`: a lead byte of at most 0x80 is the length
/// itself; 0x81, 0x84 and 0x88 announce a length of 2, 3 and 4 bytes.
pub open spec fn read_comdef_length(s: Seq<u8>, pos: int) -> Option<(usize, int)> {
    if 0 <= pos < s.len() {
        let lead = s[pos];
        if lead <= 0x80 {
            Some((lead as usize, pos + 1))
        } else if lead == 0x81 && pos + 3 <= s.len() {
            Some((le16(s[pos + 1], s[pos + 2]) as usize, pos + 3))
        } else if lead == 0x84 && pos + 4 <= s.len() {
            Some((le32(s[pos + 1], s[pos + 2], s[pos + 3], 0) as usize, pos + 4))
        } else if lead == 0x88 && pos + 5 <= s.len() {
            Some((le32(s[pos + 1], s[pos + 2], s[pos + 3], s[pos + 4]) as usize, pos + 5))
        } else {
            None
        }
    } else {
        None
    }
}

/// Reads a counted byte array at `pos`: one byte of length, then that many
/// bytes.
pub open spec fn read_counted_bytes(s: Seq<u8>, pos: int) -> Option<(Seq<u8>, int)> {
    if 0 <= pos < s.len() && pos + 1 + s[pos] <= s.len() {
        Some((s.subrange(pos + 1, pos + 1 + s[pos]), pos + 1 + s[pos]))
    } else {
        None
    }
}

/// Reads a counted string at `pos`: a counted byte array that holds text.
pub open spec fn read_counted_string(s: Seq<u8>, pos: int) -> Option<(Seq<char>, int)> {
    match read_counted_bytes(s, pos) {
        Some((bytes, next)) => if valid_utf8(bytes) {
            Some((decode_utf8(bytes), next))
        } else {
            None
        },
        None => None,
    }
}

/// `std::str::from_utf8`: the bytes are accepted exactly when they are
/// well-formed UTF-8, and the text returned is made of the very same bytes.
#[verifier::external_body]
fn str_from_utf8(bytes: &[u8]) -> (r: Option<&str>)
    ensures
        match r {
            Some(text) => valid_utf8(bytes@) && text.spec_bytes() == bytes@,
            None => !valid_utf8(bytes@),
        },
{
    std::str::from_utf8(bytes).ok()
}

/// Decodes `bytes` as text, if they hold any.
pub fn text_of(bytes: &[u8]) -> (r: Option<String>)
    ensures
        match r {
            Some(text) => valid_utf8(bytes@) && text@ == decode_utf8(bytes@),
            None => !valid_utf8(bytes@),
        },
{
    match str_from_utf8(bytes) {
        Some(text) => {
            proof {
                encode_utf8_decode_utf8(text@);
            }
            Some(text.to_owned())
        },
        None => None,
    }
}

/// One OMF record and a cursor into its payload. The general format of a
/// record is
///
/// +00 u8  record type
/// +01 u16 record length, not including the type and length fields
/// +03     start of record proper, length-1 bytes
/// +XX     checksum byte
///
/// `data` is the record proper; `next` is the offset in it of the first byte
/// not yet read.
pub struct Record<'a> {
    pub data: &'a [u8],
    pub rectype: RecordType,
    pub next: usize,
}

impl<'a> Record<'a> {
    pub open spec fn wf(&self) -> bool {
        self.next <= self.data@.len() <= MAX_PAYLOAD
    }

    /// Whether `self` is `old` with the cursor moved to `next`.
    pub open spec fn advanced(&self, old: &Record<'a>, next: int) -> bool {
        &&& self.data@ == old.data@
        &&& self.rectype == old.rectype
        &&& self.next == next
    }

    /// Parses the framing of the record at the start of `data`. The checksum
    /// byte is not verified.
    pub fn new(data: &'a [u8]) -> (r: Result<Record<'a>, LinkerError>)
        ensures
            match r {
                Ok(rec) => {
                    &&& frame_ok(data@)
                    &&& rec.wf()
                    &&& Some(rec.rectype) == RecordType::decode(data@[0])
                    &&& rec.data@ == frame_payload(data@)
                    &&& rec.next == 0
                },
                Err(e) => !frame_ok(data@) && e.message() == frame_error(data@),
            },
    {
        if data.len() < 4 {
            Err(LinkerError::new("Truncated OMF record."))
        } else {
            let rectype = RecordType::from_data(data[0])?;
            let len = (data[1] as usize) + (data[2] as usize) * 256;
            if 3 + len > data.len() {
                Err(LinkerError::new("Truncated OMF record."))
            } else if len == 0 {
                Err(LinkerError::new("Invalid OMF record length."))
            } else {
                Ok(Record { data: slice_subrange(data, 3, 3 + len - 1), rectype, next: 0 })
            }
        }
    }

    /// Takes the next `expected` bytes from the record.
    pub fn get(&mut self, expected: usize) -> (r: Result<&'a [u8], LinkerError>)
        requires
            old(self).wf(),
        ensures
            final(self).wf(),
            match r {
                Ok(bytes) => {
                    &&& old(self).next + expected <= old(self).data@.len()
                    &&& bytes@ == old(self).data@.subrange(
                        old(self).next as int,
                        old(self).next + expected,
                    )
                    &&& final(self).advanced(old(self), old(self).next + expected)
                },
                Err(_) => old(self).next + expected > old(self).data@.len() && *final(self)
                    == *old(self),
            },
    {
        if expected > self.data.len() - self.next {
            Err(LinkerError::new("record is truncated."))
        } else {
            let offset = self.next;
            self.next += expected;
            Ok(slice_subrange(self.data, offset, self.next))
        }
    }

    /// Extracts the next byte from the record.
    pub fn byte(&mut self) -> (r: Result<u8, LinkerError>)
        requires
            old(self).wf(),
        ensures
            final(self).wf(),
            match r {
                Ok(b) => {
                    &&& read_byte(old(self).data@, old(self).next as int) == Some(
                        (b, final(self).next as int),
                    )
                    &&& final(self).advanced(old(self), old(self).next + 1)
                },
                Err(_) => read_byte(old(self).data@, old(self).next as int) is None && *final(self) == *old(self),
            },
    {
        if self.next == self.data.len() {
            Err(
                Message::new("OMF record truncated; expected byte at offset ").hex(
                    self.next,
                    1,
                ).error(),
            )
        } else {
            self.next += 1;
            Ok(self.data[self.next - 1])
        }
    }

    /// Extracts the next little-endian word from the record.
    pub fn word(&mut self) -> (r: Result<u16, LinkerError>)
        requires
            old(self).wf(),
        ensures
            final(self).wf(),
            match r {
                Ok(w) => {
                    &&& read_word(old(self).data@, old(self).next as int) == Some(
                        (w, final(self).next as int),
                    )
                    &&& final(self).advanced(old(self), old(self).next + 2)
                },
                Err(_) => read_word(old(self).data@, old(self).next as int) is None && *final(self) == *old(self),
            },
    {
        let bytes = self.get(2)?;
        Ok((bytes[0] as u16) + (bytes[1] as u16) * 256)
    }

    /// Extracts the next little-endian double word from the record.
    pub fn dword(&mut self) -> (r: Result<u32, LinkerError>)
        requires
            old(self).wf(),
        ensures
            final(self).wf(),
            match r {
                Ok(d) => {
                    &&& read_dword(old(self).data@, old(self).next as int) == Some(
                        (d, final(self).next as int),
                    )
                    &&& final(self).advanced(old(self), old(self).next + 4)
                },
                Err(_) => read_dword(old(self).data@, old(self).next as int) is None && *final(self) == *old(self),
            },
    {
        let bytes = self.get(4)?;
        Ok(
            (bytes[0] as u32) + (bytes[1] as u32) * 256 + (bytes[2] as u32) * 65536 + (
            bytes[3] as u32) * 16777216,
        )
    }

    /// Extracts the next packed index from the record. Where the second byte
    /// of a two-byte index is missing, the first has been consumed.
    pub fn index(&mut self) -> (r: Result<usize, LinkerError>)
        requires
            old(self).wf(),
        ensures
            final(self).wf(),
            match r {
                Ok(i) => {
                    &&& read_index(old(self).data@, old(self).next as int) == Some(
                        (i, final(self).next as int),
                    )
                    &&& i <= 0x7fff
                    &&& final(self).advanced(old(self), final(self).next as int)
                },
                Err(_) => {
                    &&& read_index(old(self).data@, old(self).next as int) is None
                    &&& final(self).advanced(
                        old(self),
                        if old(self).next < old(self).data@.len() {
                            old(self).next + 1
                        } else {
                            old(self).next as int
                        },
                    )
                },
            },
    {
        let byte0 = self.byte()? as usize;
        if byte0 < 0x80 {
            Ok(byte0)
        } else {
            let byte1 = self.byte()? as usize;
            Ok((byte0 - 0x80) * 256 + byte1)
        }
    }

    /// Extracts the next COMDEF-format length field from the record. Where
    /// the bytes after the lead byte are missing or the lead byte is not a
    /// valid one, the lead byte has been consumed.
    pub fn comdef_length(&mut self) -> (r: Result<usize, LinkerError>)
        requires
            old(self).wf(),
        ensures
            final(self).wf(),
            match r {
                Ok(n) => {
                    &&& read_comdef_length(old(self).data@, old(self).next as int) == Some(
                        (n, final(self).next as int),
                    )
                    &&& final(self).advanced(old(self), final(self).next as int)
                },
                Err(_) => {
                    &&& read_comdef_length(old(self).data@, old(self).next as int) is None
                    &&& final(self).advanced(
                        old(self),
                        if old(self).next < old(self).data@.len() {
                            old(self).next + 1
                        } else {
                            old(self).next as int
                        },
                    )
                },
            },
    {
        let b0 = self.byte()?;
        if b0 <= 0x80 {
            Ok(b0 as usize)
        } else if b0 == 0x81 {
            let data = self.get(2)?;
            Ok((data[0] as usize) + (data[1] as usize) * 256)
        } else if b0 == 0x84 {
            let data = self.get(3)?;
            Ok((data[0] as usize) + (data[1] as usize) * 256 + (data[2] as usize) * 65536)
        } else if b0 == 0x88 {
            let data = self.get(4)?;
            Ok(
                (data[0] as usize) + (data[1] as usize) * 256 + (data[2] as usize) * 65536 + (
                data[3] as usize) * 16777216,
            )
        } else {
            Err(
                Message::new("invalid comdef length lead byte ").hex(b0 as usize, 2).str(
                    "H",
                ).error(),
            )
        }
    }

    /// Extracts a counted byte array: one byte of length, then that many
    /// bytes. Where the bytes are missing, the length byte has been consumed.
    pub fn counted_bytes(&mut self) -> (r: Result<&'a [u8], LinkerError>)
        requires
            old(self).wf(),
        ensures
            final(self).wf(),
            match r {
                Ok(bytes) => {
                    &&& read_counted_bytes(old(self).data@, old(self).next as int) == Some(
                        (bytes@, final(self).next as int),
                    )
                    &&& final(self).advanced(old(self), final(self).next as int)
                },
                Err(_) => {
                    &&& read_counted_bytes(old(self).data@, old(self).next as int) is None
                    &&& final(self).advanced(
                        old(self),
                        if old(self).next < old(self).data@.len() {
                            old(self).next + 1
                        } else {
                            old(self).next as int
                        },
                    )
                },
            },
    {
        let count = self.byte()? as usize;
        self.get(count)
    }

    /// Extracts a counted string: one byte of length, then that many bytes
    /// of text. Bytes that were read stay consumed when the string is
    /// rejected.
    pub fn counted_string(&mut self) -> (r: Result<String, LinkerError>)
        requires
            old(self).wf(),
        ensures
            final(self).wf(),
            match r {
                Ok(text) => {
                    &&& read_counted_string(old(self).data@, old(self).next as int) == Some(
                        (text@, final(self).next as int),
                    )
                    &&& final(self).advanced(old(self), final(self).next as int)
                },
                Err(_) => {
                    &&& read_counted_string(old(self).data@, old(self).next as int) is None
                    &&& final(self).advanced(
                        old(self),
                        match read_counted_bytes(old(self).data@, old(self).next as int) {
                            Some((_, next)) => next,
                            None => if old(self).next < old(self).data@.len() {
                                old(self).next + 1
                            } else {
                                old(self).next as int
                            },
                        },
                    )
                },
            },
    {
        let text = self.counted_bytes()?;
        match text_of(text) {
            Some(text) => Ok(text),
            None => Err(LinkerError::new("invalid counted string")),
        }
    }

    /// Hands out every byte not yet read and moves the cursor to the end.
    pub fn rest(&mut self) -> (bytes: &'a [u8])
        requires
            old(self).wf(),
        ensures
            final(self).wf(),
            bytes@ == old(self).data@.subrange(
                old(self).next as int,
                old(self).data@.len() as int,
            ),
            final(self).advanced(old(self), old(self).data@.len() as int),
    {
        let offset = self.next;
        self.next = self.data.len();
        slice_subrange(self.data, offset, self.next)
    }

    /// Whether all data in the record has been read.
    pub fn end(&self) -> (b: bool)
        requires
            self.wf(),
        ensures
            b == (self.next == self.data@.len()),
    {
        self.next == self.data.len()
    }

    /// The total length of the record, including the header and the checksum
    /// byte.
    pub fn total_length(&self) -> (n: usize)
        requires
            self.wf(),
        ensures
            n == self.data@.len() + 4,
    {
        self.data.len() + 4
    }
}

/// The bytes of a record of type `ty` that carries `payload`.
pub open spec fn encode_frame(ty: RecordType, payload: Seq<u8>, checksum: u8) -> Seq<u8> {
    seq![ty.code(), ((payload.len() + 1) % 256) as u8, ((payload.len() + 1) / 256) as u8]
        + payload + seq![checksum]
}

/// The little-endian encoding of a word.
pub open spec fn encode_word(w: u16) -> Seq<u8> {
    seq![(w % 256) as u8, (w / 256) as u8]
}

/// The little-endian encoding of a double word.
pub open spec fn encode_dword(d: u32) -> Seq<u8> {
    seq![
        (d % 256) as u8,
        ((d / 256) % 256) as u8,
        ((d / 65536) % 256) as u8,
        (d / 16777216) as u8,
    ]
}

/// The packed encoding of an index of at most 0x7fff.
pub open spec fn encode_index(n: usize) -> Seq<u8> {
    if n < 0x80 {
        seq![n as u8]
    } else {
        seq![(0x80 + n / 256) as u8, (n % 256) as u8]
    }
}

/// The shortest COMDEF encoding of a length below 2^32.
pub open spec fn encode_comdef_length(n: usize) -> Seq<u8> {
    if n <= 0x80 {
        seq![n as u8]
    } else if n <= 0xffff {
        seq![0x81u8] + encode_word(n as u16)
    } else if n <= 0xffffff {
        seq![0x84u8, (n % 256) as u8, ((n / 256) % 256) as u8, (n / 65536) as u8]
    } else {
        seq![0x88u8] + encode_dword(n as u32)
    }
}

/// The encoding of a byte array of at most 255 bytes: its length, then the
/// bytes.
pub open spec fn encode_counted_bytes(bytes: Seq<u8>) -> Seq<u8> {
    seq![bytes.len() as u8] + bytes
}

/// Framing a payload and parsing the frame gives back the type and the
/// payload, whatever follows the record; the record is four bytes longer than
/// its payload.
pub proof fn lemma_frame_round_trip(ty: RecordType, payload: Seq<u8>, checksum: u8, tail: Seq<u8>)
    requires
        payload.len() <= MAX_PAYLOAD,
    ensures
        frame_ok(encode_frame(ty, payload, checksum) + tail),
        RecordType::decode((encode_frame(ty, payload, checksum) + tail)[0]) == Some(ty),
        frame_payload(encode_frame(ty, payload, checksum) + tail) == payload,
        encode_frame(ty, payload, checksum).len() == payload.len() + 4,
{
    let bytes = encode_frame(ty, payload, checksum) + tail;
    assert(bytes[0] == ty.code());
    assert(bytes[1] == ((payload.len() + 1) % 256) as u8);
    assert(bytes[2] == ((payload.len() + 1) / 256) as u8);
    assert(frame_length(bytes) == payload.len() + 1);
    assert(frame_payload(bytes) =~= payload);
}

/// Reading a byte or a word that was written at `prefix.len()` gives back
/// the value written and stops right after it, whatever surrounds the field.
pub proof fn lemma_word_round_trip(prefix: Seq<u8>, suffix: Seq<u8>, b: u8, w: u16)
    ensures
        read_byte(prefix + seq![b] + suffix, prefix.len() as int) == Some(
            (b, prefix.len() as int + 1),
        ),
        read_word(prefix + encode_word(w) + suffix, prefix.len() as int) == Some(
            (w, prefix.len() as int + 2),
        ),
{
    let p = prefix.len() as int;
    assert((prefix + seq![b] + suffix)[p] == b);
    let sw = prefix + encode_word(w) + suffix;
    assert(sw[p] == (w % 256) as u8 && sw[p + 1] == (w / 256) as u8);
}

/// Reading a double word that was written at `prefix.len()` gives back the
/// value written and stops right after it.
pub proof fn lemma_dword_round_trip(prefix: Seq<u8>, suffix: Seq<u8>, d: u32)
    ensures
        read_dword(prefix + encode_dword(d) + suffix, prefix.len() as int) == Some(
            (d, prefix.len() as int + 4),
        ),
{
    let p = prefix.len() as int;
    let sd = prefix + encode_dword(d) + suffix;
    assert(sd[p] == (d % 256) as u8);
    assert(sd[p + 1] == ((d / 256) % 256) as u8);
    assert(sd[p + 2] == ((d / 65536) % 256) as u8);
    assert(sd[p + 3] == (d / 16777216) as u8);
}

/// Reading a COMDEF length that was written at `prefix.len()` gives back the
/// length written and stops right after it.
pub proof fn lemma_comdef_length_round_trip(prefix: Seq<u8>, suffix: Seq<u8>, n: usize)
    requires
        n <= u32::MAX,
    ensures
        read_comdef_length(prefix + encode_comdef_length(n) + suffix, prefix.len() as int) == Some(
            (n, prefix.len() as int + encode_comdef_length(n).len()),
        ),
{
    let p = prefix.len() as int;
    let sc = prefix + encode_comdef_length(n) + suffix;
    if n <= 0x80 {
        assert(sc[p] == n as u8);
    } else if n <= 0xffff {
        assert(sc[p] == 0x81u8);
        assert(sc[p + 1] == ((n as u16) % 256) as u8);
        assert(sc[p + 2] == ((n as u16) / 256) as u8);
    } else if n <= 0xffffff {
        assert(sc[p] == 0x84u8);
        assert(sc[p + 1] == (n % 256) as u8);
        assert(sc[p + 2] == ((n / 256) % 256) as u8);
        assert(sc[p + 3] == (n / 65536) as u8);
    } else {
        let e = n as u32;
        assert(sc[p] == 0x88u8);
        assert(sc[p + 1] == (e % 256) as u8);
        assert(sc[p + 2] == ((e / 256) % 256) as u8);
        assert(sc[p + 3] == ((e / 65536) % 256) as u8);
        assert(sc[p + 4] == (e / 16777216) as u8);
    }
}

/// Reading a counted byte array that was written at `prefix.len()` gives
/// back the bytes written and stops right after them.
pub proof fn lemma_counted_bytes_round_trip(prefix: Seq<u8>, suffix: Seq<u8>, bytes: Seq<u8>)
    requires
        bytes.len() <= 255,
    ensures
        read_counted_bytes(prefix + encode_counted_bytes(bytes) + suffix, prefix.len() as int)
            == Some((bytes, prefix.len() as int + 1 + bytes.len())),
{
    let p = prefix.len() as int;
    let s = prefix + encode_counted_bytes(bytes) + suffix;
    assert(s[p] == bytes.len() as u8);
    assert(s.subrange(p + 1, p + 1 + bytes.len()) =~= bytes);
}

/// Reading a counted string that was written at `prefix.len()` gives back
/// the text written and stops right after it.
pub proof fn lemma_counted_string_round_trip(prefix: Seq<u8>, suffix: Seq<u8>, text: Seq<char>)
    requires
        encode_utf8(text).len() <= 255,
    ensures
        read_counted_string(
            prefix + encode_counted_bytes(encode_utf8(text)) + suffix,
            prefix.len() as int,
        ) == Some((text, prefix.len() as int + 1 + encode_utf8(text).len())),
{
    lemma_counted_bytes_round_trip(prefix, suffix, encode_utf8(text));
    encode_utf8_valid_utf8(text);
    encode_utf8_decode_utf8(text);
}

/// Encoding an index of at most 0x7fff and reading it gives back the index.
pub proof fn lemma_index_round_trip(prefix: Seq<u8>, suffix: Seq<u8>, n: usize)
    requires
        n <= 0x7fff,
    ensures
        read_index(prefix + encode_index(n) + suffix, prefix.len() as int) == Some(
            (n, prefix.len() as int + encode_index(n).len()),
        ),
{
    let p = prefix.len() as int;
    let s = prefix + encode_index(n) + suffix;
    if n < 0x80 {
        assert(s[p] == n as u8);
    } else {
        assert(s[p] == (0x80 + n / 256) as u8);
        assert(s[p + 1] == (n % 256) as u8);
    }
}

/// No field can be read at the end of a payload.
pub proof fn lemma_read_at_end(s: Seq<u8>)
    ensures
        read_byte(s, s.len() as int) is None,
        read_word(s, s.len() as int) is None,
        read_dword(s, s.len() as int) is None,
        read_index(s, s.len() as int) is None,
        read_comdef_length(s, s.len() as int) is None,
        read_counted_bytes(s, s.len() as int) is None,
        read_counted_string(s, s.len() as int) is None,
{
}

} // verus!
