use crate::linker_error::{LinkerError, Message};
use vstd::arithmetic::div_mod::{
    lemma_fundamental_div_mod, lemma_mod_bound, lemma_mod_multiples_basic,
};
use vstd::prelude::*;

verus! {

/// Segment alignments, as coded in the ACBP byte of a SEGDEF. The variants
/// are ordered so that a later variant is a stricter alignment.
#[derive(PartialEq, Eq, Structural, Debug, Copy, Clone, PartialOrd, Ord)]
pub enum Align {
    Absolute,
    Byte,
    Word,
    Dword,
    Para,
    Page,
}

impl Align {
    /// The alignment field of an ACBP byte: its top three bits.
    pub open spec fn acbp_field(acbp: u8) -> int {
        acbp as int / 32
    }

    /// The alignment that an ACBP byte encodes, if its field is valid.
    pub open spec fn decode(acbp: u8) -> Option<Align> {
        let field = Self::acbp_field(acbp);
        if field == 0 {
            Some(Align::Absolute)
        } else if field == 1 {
            Some(Align::Byte)
        } else if field == 2 {
            Some(Align::Word)
        } else if field == 3 {
            Some(Align::Para)
        } else if field == 4 {
            Some(Align::Page)
        } else if field == 5 {
            Some(Align::Dword)
        } else {
            None
        }
    }

    /// The position of the alignment in the strictness order.
    pub open spec fn rank(self) -> int {
        match self {
            Align::Absolute => 0,
            Align::Byte => 1,
            Align::Word => 2,
            Align::Dword => 3,
            Align::Para => 4,
            Align::Page => 5,
        }
    }

    /// The number of bytes whose multiples the alignment admits.
    pub open spec fn unit(self) -> int {
        match self {
            Align::Absolute => 1,
            Align::Byte => 1,
            Align::Word => 2,
            Align::Dword => 4,
            Align::Para => 16,
            Align::Page => 256,
        }
    }

    /// `offset` rounded up to the next multiple of the alignment's unit.
    pub open spec fn align_up(self, offset: int) -> int {
        ((offset + self.unit() - 1) / self.unit()) * self.unit()
    }

    /// The stricter of two alignments.
    pub open spec fn stricter(a: Align, b: Align) -> Align {
        if a.rank() >= b.rank() {
            a
        } else {
            b
        }
    }

    /// Extracts the alignment from an ACBP byte. Field values 6 and 7 are
    /// rejected.
    pub fn from_acbp(acbp: u8) -> (r: Result<Align, LinkerError>)
        ensures
            match r {
                Ok(a) => Self::decode(acbp) == Some(a),
                Err(_) => Self::decode(acbp) is None,
            },
    {
        let align = acbp / 32;
        if align == 0 {
            Ok(Align::Absolute)
        } else if align == 1 {
            Ok(Align::Byte)
        } else if align == 2 {
            Ok(Align::Word)
        } else if align == 3 {
            Ok(Align::Para)
        } else if align == 4 {
            Ok(Align::Page)
        } else if align == 5 {
            Ok(Align::Dword)
        } else {
            Err(Message::new("invalid align in SEGDEF ").hex(align as usize, 2).error())
        }
    }

    fn unit_bytes(self) -> (u: usize)
        ensures
            u == self.unit(),
    {
        match self {
            Align::Absolute => 1,
            Align::Byte => 1,
            Align::Word => 2,
            Align::Dword => 4,
            Align::Para => 16,
            Align::Page => 256,
        }
    }

    fn rank_of(self) -> (r: u8)
        ensures
            r == self.rank(),
    {
        match self {
            Align::Absolute => 0,
            Align::Byte => 1,
            Align::Word => 2,
            Align::Dword => 3,
            Align::Para => 4,
            Align::Page => 5,
        }
    }

    /// Adjusts `offset` upwards to the next boundary of the alignment.
    pub fn align_by(self, offset: usize) -> (r: usize)
        requires
            self.align_up(offset as int) <= usize::MAX,
        ensures
            r == self.align_up(offset as int),
    {
        let unit = self.unit_bytes();
        let over = offset % unit;
        proof {
            lemma_rounded_up(offset as int, unit as int);
        }
        if over == 0 {
            offset
        } else {
            offset + (unit - over)
        }
    }

    /// Adjusts `offset` upwards to the next boundary of the alignment, if the
    /// machine can hold the result.
    pub fn checked_align_by(self, offset: usize) -> (r: Option<usize>)
        ensures
            match r {
                Some(aligned) => aligned == self.align_up(offset as int),
                None => self.align_up(offset as int) > usize::MAX,
            },
    {
        let unit = self.unit_bytes();
        let over = offset % unit;
        proof {
            lemma_rounded_up(offset as int, unit as int);
        }
        if over == 0 {
            Some(offset)
        } else {
            offset.checked_add(unit - over)
        }
    }

    /// The stricter of `self` and `other`.
    pub fn max(self, other: Align) -> (r: Align)
        ensures
            r == Self::stricter(self, other),
    {
        if self.rank_of() >= other.rank_of() {
            self
        } else {
            other
        }
    }
}

/// `offset` rounded up to a multiple of `unit` is `offset` itself where that
/// is a multiple, and else `offset` with what it lacks to the next one.
pub proof fn lemma_rounded_up(offset: int, unit: int)
    requires
        offset >= 0,
        unit > 0,
    ensures
        ((offset + unit - 1) / unit) * unit == if offset % unit == 0 {
            offset
        } else {
            offset + unit - offset % unit
        },
        (((offset + unit - 1) / unit) * unit) % unit == 0,
{
    let x = offset + unit - 1;
    let q = offset / unit;
    let r = offset % unit;
    lemma_fundamental_div_mod(offset, unit);
    lemma_mod_bound(offset, unit);
    // offset == unit * q + r, with 0 <= r < unit
    if r == 0 {
        // x == unit * q + (unit - 1)
        vstd::arithmetic::div_mod::lemma_fundamental_div_mod_converse(x, unit, q, unit - 1);
    } else {
        // x == unit * (q + 1) + (r - 1)
        assert(x == unit * (q + 1) + (r - 1)) by (nonlinear_arith)
            requires
                x == offset + unit - 1,
                offset == unit * q + r,
        ;
        vstd::arithmetic::div_mod::lemma_fundamental_div_mod_converse(x, unit, q + 1, r - 1);
        assert((q + 1) * unit == offset + unit - r) by (nonlinear_arith)
            requires
                offset == unit * q + r,
        ;
    }
    assert(q * unit == unit * q) by (nonlinear_arith);
    lemma_mod_multiples_basic(x / unit, unit);
}

/// Rounding up reaches the one multiple of the unit that is at least the
/// offset and less than a unit above it.
pub proof fn lemma_align_up(a: Align, offset: int)
    requires
        offset >= 0,
    ensures
        a.align_up(offset) >= offset,
        a.align_up(offset) < offset + a.unit(),
        a.align_up(offset) % a.unit() == 0,
{
    lemma_rounded_up(offset, a.unit());
    lemma_mod_bound(offset, a.unit());
}

/// Segment combine methods, as coded in the ACBP byte of a SEGDEF.
#[derive(PartialEq, Eq, Structural, Debug, Copy, Clone)]
pub enum Combine {
    Private,
    Public,
    Stack,
    Common,
}

impl Combine {
    /// The combine field of an ACBP byte: bits 2 to 4.
    pub open spec fn acbp_field(acbp: u8) -> int {
        (acbp as int / 4) % 8
    }

    /// The combine method that an ACBP byte encodes, if its field is valid.
    pub open spec fn decode(acbp: u8) -> Option<Combine> {
        let field = Self::acbp_field(acbp);
        if field == 0 {
            Some(Combine::Private)
        } else if field == 2 || field == 4 || field == 7 {
            Some(Combine::Public)
        } else if field == 5 {
            Some(Combine::Stack)
        } else if field == 6 {
            Some(Combine::Common)
        } else {
            None
        }
    }

    /// The name of the combine method.
    pub open spec fn name_text(self) -> Seq<char> {
        match self {
            Combine::Private => "Private"@,
            Combine::Public => "Public"@,
            Combine::Stack => "Stack"@,
            Combine::Common => "Common"@,
        }
    }

    /// The name of the combine method, for messages.
    pub fn name(self) -> (n: &'static str)
        ensures
            n@ == self.name_text(),
    {
        match self {
            Combine::Private => "Private",
            Combine::Public => "Public",
            Combine::Stack => "Stack",
            Combine::Common => "Common",
        }
    }

    /// Extracts the combine method from an ACBP byte. Field values 1 and 3
    /// are rejected.
    pub fn from_acbp(acbp: u8) -> (r: Result<Combine, LinkerError>)
        ensures
            match r {
                Ok(c) => Self::decode(acbp) == Some(c),
                Err(_) => Self::decode(acbp) is None,
            },
    {
        let combine = (acbp / 4) % 8;
        if combine == 0 {
            Ok(Combine::Private)
        } else if combine == 2 || combine == 4 || combine == 7 {
            Ok(Combine::Public)
        } else if combine == 5 {
            Ok(Combine::Stack)
        } else if combine == 6 {
            Ok(Combine::Common)
        } else {
            Err(Message::new("invalid combine in SEGDEF ").hex(combine as usize, 2).error())
        }
    }
}

/// One object module's contribution to a segment: which linker-level segment
/// it belongs to, and where in that segment the module's part begins.
#[derive(Debug, Copy, Clone)]
pub struct SegDef {
    pub segidx: usize,
    pub base: usize,
    pub length: usize,
    pub acbp: u8,
    pub align: Align,
    pub combine: Combine,
}

impl SegDef {
    pub fn new(segidx: usize, length: usize, acbp: u8, align: Align, combine: Combine) -> (s:
        SegDef)
        ensures
            s == (SegDef { segidx, base: 0, length, acbp, align, combine }),
    {
        SegDef { segidx, base: 0, length, acbp, align, combine }
    }
}

/// The name of a segment: the triple of its name, class and overlay, each an
/// index into the global name table. Two segments are the same segment
/// exactly when their triples are equal.
#[derive(Clone, Copy, Debug, PartialEq, Eq, Structural)]
pub struct SegName {
    pub nameidx: usize,
    pub classidx: usize,
    pub ovlyidx: usize,
}

impl SegName {
    pub fn new(nameidx: usize, classidx: usize, ovlyidx: usize) -> (n: SegName)
        ensures
            n == (SegName { nameidx, classidx, ovlyidx }),
    {
        SegName { nameidx, classidx, ovlyidx }
    }
}

/// The combination of every `SegDef` of one name: a contiguous region of at
/// most 64 KiB in the address space of the executable.
#[derive(Clone, Copy, Debug)]
pub struct Segment {
    pub name: SegName,
    pub length: usize,
    pub align: Align,
    pub combine: Combine,
    pub base: usize,
    pub group: usize,
}

/// The largest size of a segment.
pub const MAX_SEGMENT_SIZE: usize = 0x10000;

impl Segment {
    /// A segment never exceeds 64 KiB.
    pub open spec fn wf(&self) -> bool {
        self.length <= MAX_SEGMENT_SIZE
    }

    /// Whether `segdef` may be combined into `self`.
    pub open spec fn accepts(&self, segdef: SegDef) -> bool {
        &&& segdef.combine != Combine::Private
        &&& self.combine != Combine::Private
        &&& segdef.combine == self.combine
        &&& segdef.length <= MAX_SEGMENT_SIZE
        &&& self.combined_length(segdef) <= MAX_SEGMENT_SIZE
    }

    /// The offset in `self` at which the part described by `segdef` begins:
    /// public parts follow each other at the part's alignment, stack parts
    /// follow each other byte by byte, common parts overlay each other.
    pub open spec fn combined_offset(&self, segdef: SegDef) -> int {
        match self.combine {
            Combine::Public => segdef.align.align_up(self.length as int),
            Combine::Stack => self.length as int,
            _ => 0,
        }
    }

    /// The length of `self` once `segdef` is part of it.
    pub open spec fn combined_length(&self, segdef: SegDef) -> int {
        match self.combine {
            Combine::Common => if self.length >= segdef.length {
                self.length as int
            } else {
                segdef.length as int
            },
            _ => self.combined_offset(segdef) + segdef.length,
        }
    }

    pub fn new(name: SegName, length: usize, align: Align, combine: Combine) -> (s: Segment)
        ensures
            s == (Segment { name, length, align, combine, base: 0, group: 0 }),
    {
        Segment { name, length, align, combine, base: 0, group: 0 }
    }

    /// Adds a SEGDEF to the segment, checking the combine types and the total
    /// size, and returns the offset of the SEGDEF in the segment. A rejected
    /// SEGDEF leaves the segment as it was.
    pub fn add_segdef(&mut self, segdef: &SegDef) -> (r: Result<usize, LinkerError>)
        requires
            old(self).wf(),
        ensures
            final(self).wf(),
            match r {
                Ok(offset) => {
                    &&& old(self).accepts(*segdef)
                    &&& offset == old(self).combined_offset(*segdef)
                    &&& *final(self) == (Segment {
                        length: old(self).combined_length(*segdef) as usize,
                        align: Align::stricter(old(self).align, segdef.align),
                        ..*old(self)
                    })
                },
                Err(_) => !old(self).accepts(*segdef) && *final(self) == *old(self),
            },
            r is Ok && old(self).combine == Combine::Public ==> final(self).length
                == segdef.align.align_up(old(self).length as int) + segdef.length,
    {
        if segdef.combine == Combine::Private {
            Err(LinkerError::new("cannot combine private segdef into existing segment."))
        } else if self.combine == Combine::Private {
            Err(LinkerError::new("cannot combine segdef into private segment."))
        } else if segdef.combine != self.combine {
            Err(
                Message::new("cannot combine `").str(segdef.combine.name()).str(
                    "` segdef into `",
                ).str(self.combine.name()).str("` segment.").error(),
            )
        } else if segdef.length > MAX_SEGMENT_SIZE {
            Err(
                Message::new("segment length ").hex(segdef.length, 1).str(
                    "H is larger than the maximum size of 64k.",
                ).error(),
            )
        } else {
            proof {
                lemma_align_up(segdef.align, self.length as int);
            }
            let offset = match self.combine {
                Combine::Public => {
                    let offset = segdef.align.align_by(self.length);
                    let new_length = offset + segdef.length;
                    if new_length > MAX_SEGMENT_SIZE {
                        return Err(LinkerError::new("segment overflow."));
                    }
                    self.length = new_length;
                    offset
                },
                Combine::Stack => {
                    let offset = self.length;
                    let new_length = offset + segdef.length;
                    if new_length > MAX_SEGMENT_SIZE {
                        return Err(LinkerError::new("segment overflow."));
                    }
                    self.length = new_length;
                    offset
                },
                _ => {
                    if segdef.length > self.length {
                        self.length = segdef.length;
                    }
                    0
                },
            };
            self.align = self.align.max(segdef.align);
            Ok(offset)
        }
    }
}

} // verus!
