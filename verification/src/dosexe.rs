use crate::linker_error::{LinkerError, Message};
use crate::linkstate::FarPtr;
use vstd::prelude::*;

verus! {

/// A relocation table entry: the place of a segment word that the loader
/// adjusts by the load address.
#[derive(Clone, Copy, Debug, PartialEq, Eq, Structural)]
pub struct Relocation {
    pub seg: u16,
    pub offset: u16,
}

/// A DOS executable as a mathematical value.
#[verifier::ext_equal]
pub struct DosExeView {
    pub relocs: Seq<Relocation>,
    pub min_alloc: u16,
    pub max_alloc: u16,
    pub entry_point: FarPtr,
    pub init_stack: FarPtr,
    pub data: Seq<u8>,
}

/// A DOS executable: the load image and what the header says of it.
pub struct DosExe<'a> {
    relocs: Vec<Relocation>,
    min_alloc: u16,
    max_alloc: u16,
    entry_point: FarPtr,
    init_stack: FarPtr,
    data: &'a [u8],
}

impl<'a> View for DosExe<'a> {
    type V = DosExeView;

    closed spec fn view(&self) -> DosExeView {
        DosExeView {
            relocs: self.relocs@,
            min_alloc: self.min_alloc,
            max_alloc: self.max_alloc,
            entry_point: self.entry_point,
            init_stack: self.init_stack,
            data: self.data@,
        }
    }
}

/// The size of a page of the executable file.
pub const PAGE_SIZE: usize = 512;

/// The offset in the header at which the relocation table starts.
pub const RELOC_START: usize = 0x3e;

/// The low byte of a word.
pub open spec fn low_byte(w: u16) -> u8 {
    (w % 256) as u8
}

/// The high byte of a word.
pub open spec fn high_byte(w: u16) -> u8 {
    (w / 256) as u8
}

impl DosExeView {
    /// Whether an object of `size` bytes at `ptr` lies within the image.
    pub open spec fn in_range(self, ptr: FarPtr, size: int) -> bool {
        ptr.linear() + size <= self.data.len()
    }

    /// The number of pages that the header takes: the fixed part and the
    /// relocation table, rounded up to whole pages.
    pub open spec fn header_pages(self) -> int {
        (RELOC_START + 4 * self.relocs.len() + PAGE_SIZE - 1) / (PAGE_SIZE as int)
    }

    /// The number of pages that the image takes.
    pub open spec fn image_pages(self) -> int {
        (self.data.len() + PAGE_SIZE - 1) / (PAGE_SIZE as int)
    }

    /// Whether the executable can be written: its relocations and its pages
    /// can be counted in 16 bits.
    pub open spec fn encodable(self) -> bool {
        self.relocs.len() <= 0xffff && self.image_pages() <= 0xffff
    }

    /// The word at the even offset `at` of the fixed part of the header.
    pub open spec fn header_word(self, at: int) -> u16 {
        if at == 0x00 {
            0x5a4d
        } else if at == 0x02 {
            (self.data.len() % PAGE_SIZE as nat) as u16
        } else if at == 0x04 {
            ((self.header_pages() + self.image_pages()) % 0x10000) as u16
        } else if at == 0x06 {
            self.relocs.len() as u16
        } else if at == 0x08 {
            (self.header_pages() * 32) as u16
        } else if at == 0x0a {
            self.min_alloc
        } else if at == 0x0c {
            self.max_alloc
        } else if at == 0x0e {
            self.init_stack.seg
        } else if at == 0x10 {
            self.init_stack.offset
        } else if at == 0x14 {
            self.entry_point.offset
        } else if at == 0x16 {
            self.entry_point.seg
        } else if at == 0x18 {
            RELOC_START as u16
        } else if at == 0x1c {
            1
        } else {
            0
        }
    }

    /// The byte at offset `i` of the header: the signature "MZ", the count of
    /// bytes in the last page, the count of pages, the count of relocations,
    /// the header size in paragraphs, the minimum and maximum allocation,
    /// SS, SP, the checksum (0), IP, CS, the offset of the relocation table,
    /// the overlay number (0) and a word that holds 1; from `RELOC_START` on
    /// the relocations, each as offset and segment; all words little-endian,
    /// all other bytes 0.
    pub open spec fn header_byte(self, i: int) -> u8 {
        if i < 0x1e {
            if i % 2 == 0 {
                low_byte(self.header_word(i))
            } else {
                high_byte(self.header_word(i - 1))
            }
        } else if RELOC_START <= i < RELOC_START + 4 * self.relocs.len() {
            let reloc = self.relocs[(i - RELOC_START) / 4];
            let part = (i - RELOC_START) % 4;
            if part == 0 {
                low_byte(reloc.offset)
            } else if part == 1 {
                high_byte(reloc.offset)
            } else if part == 2 {
                low_byte(reloc.seg)
            } else {
                high_byte(reloc.seg)
            }
        } else {
            0
        }
    }

    /// The bytes of the executable file: the header, padded to whole pages,
    /// and the image.
    pub open spec fn file(self) -> Seq<u8> {
        Seq::new((self.header_pages() * PAGE_SIZE) as nat, |i: int| self.header_byte(i))
            + self.data
    }
}

impl<'a> DosExe<'a> {
    /// An executable around the image `data`, without relocations, with the
    /// entry point and the stack at 0:0, that asks for no memory beyond the
    /// image and would like all there is.
    pub fn new(data: &'a [u8]) -> (exe: DosExe<'a>)
        ensures
            exe@ == (DosExeView {
                relocs: Seq::empty(),
                min_alloc: 0,
                max_alloc: 0xffff,
                entry_point: FarPtr { seg: 0, offset: 0 },
                init_stack: FarPtr { seg: 0, offset: 0 },
                data: data@,
            }),
    {
        DosExe {
            relocs: Vec::new(),
            min_alloc: 0,
            max_alloc: 0xffff,
            entry_point: FarPtr::null(),
            init_stack: FarPtr::null(),
            data,
        }
    }

    /// Checks that an object of `size` bytes pointed to by `ptr` is totally
    /// inside the executable image.
    pub fn far_ptr_in_range(&self, ptr: &FarPtr, size: usize) -> (b: bool)
        ensures
            b == self@.in_range(*ptr, size as int),
    {
        let len = self.data.len();
        size <= len && ptr.to_linear() <= len - size
    }

    /// Sets the entry point of the executable, which must lie within the
    /// image. `seg` will be added to the executable's load address.
    pub fn set_entry_point(&mut self, entry: &FarPtr) -> (r: Result<(), LinkerError>)
        ensures
            match r {
                Ok(_) => old(self)@.in_range(*entry, 1) && final(self)@ == (DosExeView {
                    entry_point: *entry,
                    ..old(self)@
                }),
                Err(_) => !old(self)@.in_range(*entry, 1) && final(self)@ == old(self)@,
            },
    {
        if !self.far_ptr_in_range(entry, 1) {
            Err(
                Message::new("Entry point ").hex(entry.seg as usize, 4).str(":").hex(
                    entry.offset as usize,
                    4,
                ).str(" is outside of the executable").error(),
            )
        } else {
            self.entry_point = *entry;
            Ok(())
        }
    }

    /// Sets the initial stack pointer. It is not held to the image, as the
    /// stack usually lives beyond the initialized data.
    pub fn set_stack(&mut self, seg: u16, offset: u16)
        ensures
            final(self)@ == (DosExeView { init_stack: FarPtr { seg, offset }, ..old(self)@ }),
    {
        self.init_stack = FarPtr::new(seg, offset);
    }

    /// Sets the minimum allocation, in paragraphs, needed to load the
    /// executable.
    pub fn set_min_alloc(&mut self, min_alloc: u16)
        ensures
            final(self)@ == (DosExeView { min_alloc, ..old(self)@ }),
    {
        self.min_alloc = min_alloc;
    }

    /// Sets the maximum amount of memory, in paragraphs, the program would
    /// like.
    pub fn set_max_alloc(&mut self, max_alloc: u16)
        ensures
            final(self)@ == (DosExeView { max_alloc, ..old(self)@ }),
    {
        self.max_alloc = max_alloc;
    }

    /// Adds an entry to the relocation table.
    pub fn add_relocation(&mut self, reloc: Relocation)
        ensures
            final(self)@ == (DosExeView { relocs: old(self)@.relocs.push(reloc), ..old(self)@ }),
    {
        self.relocs.push(reloc);
    }

    /// The word at the even offset `at` of the fixed part of the header.
    fn word_at(&self, at: usize, header_pages: usize, image_pages: usize) -> (w: u16)
        requires
            self@.encodable(),
            header_pages == self@.header_pages(),
            image_pages == self@.image_pages(),
        ensures
            w == self@.header_word(at as int),
    {
        if at == 0x00 {
            0x5a4d
        } else if at == 0x02 {
            (self.data.len() % PAGE_SIZE) as u16
        } else if at == 0x04 {
            ((header_pages + image_pages) % 0x10000) as u16
        } else if at == 0x06 {
            self.relocs.len() as u16
        } else if at == 0x08 {
            (header_pages * 32) as u16
        } else if at == 0x0a {
            self.min_alloc
        } else if at == 0x0c {
            self.max_alloc
        } else if at == 0x0e {
            self.init_stack.seg
        } else if at == 0x10 {
            self.init_stack.offset
        } else if at == 0x14 {
            self.entry_point.offset
        } else if at == 0x16 {
            self.entry_point.seg
        } else if at == 0x18 {
            RELOC_START as u16
        } else if at == 0x1c {
            1
        } else {
            0
        }
    }

    /// The byte at offset `i` of the header.
    fn byte_at(&self, i: usize, header_pages: usize, image_pages: usize) -> (b: u8)
        requires
            self@.encodable(),
            header_pages == self@.header_pages(),
            image_pages == self@.image_pages(),
        ensures
            b == self@.header_byte(i as int),
    {
        if i < 0x1e {
            if i % 2 == 0 {
                (self.word_at(i, header_pages, image_pages) % 256) as u8
            } else {
                (self.word_at(i - 1, header_pages, image_pages) / 256) as u8
            }
        } else if i >= RELOC_START && (i - RELOC_START) / 4 < self.relocs.len() {
            let reloc = self.relocs[(i - RELOC_START) / 4];
            let part = (i - RELOC_START) % 4;
            if part == 0 {
                (reloc.offset % 256) as u8
            } else if part == 1 {
                (reloc.offset / 256) as u8
            } else if part == 2 {
                (reloc.seg % 256) as u8
            } else {
                (reloc.seg / 256) as u8
            }
        } else {
            0
        }
    }

    /// The bytes of the executable file.
    pub fn encode(&self) -> (r: Result<Vec<u8>, LinkerError>)
        ensures
            match r {
                Ok(bytes) => self@.encodable() && bytes@ == self@.file(),
                Err(_) => !self@.encodable(),
            },
    {
        let nrelocs = self.relocs.len();
        if nrelocs > 0xffff {
            return Err(LinkerError::new("Too many relocations (max 65535)"));
        }
        let len = self.data.len();
        let header_size = RELOC_START + nrelocs * 4;
        let header_pages = (header_size + PAGE_SIZE - 1) / PAGE_SIZE;
        let image_pages = len / PAGE_SIZE + if len % PAGE_SIZE != 0 {
            1
        } else {
            0
        };
        if image_pages > 0xffff {
            return Err(LinkerError::new("Executable image is too large."));
        }
        let header_len = header_pages * PAGE_SIZE;
        let mut file: Vec<u8> = Vec::new();
        let mut i: usize = 0;
        while i < header_len
            invariant
                self@.encodable(),
                header_pages == self@.header_pages(),
                image_pages == self@.image_pages(),
                i <= header_len,
                file@.len() == i,
                forall|j: int| 0 <= j < i ==> file@[j] == self@.header_byte(j),
            decreases header_len - i,
        {
            file.push(self.byte_at(i, header_pages, image_pages));
            i += 1;
        }
        assert(file@ =~= Seq::new(
            (self@.header_pages() * PAGE_SIZE) as nat,
            |i: int| self@.header_byte(i),
        ));
        let mut image = vstd::slice::slice_to_vec(self.data);
        file.append(&mut image);
        Ok(file)
    }
}

} // verus!
