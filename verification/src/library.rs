//! Operations on an OMF library file.
//!
//! A library file is a collection of object modules, plus some metadata:
//!
//! - Every library has a page size, which is the length of the library
//!   header record. All object modules start on a page boundary, and the
//!   other metadata refer to a module by its page number.
//!
//! - The optional dictionary maps symbol names to modules. It is a two-level
//!   hash table that starts after the last object module.
//!
//! - The extended dictionary is a graph. The nodes are object modules, and
//!   each node has edges to the modules it needs.

use crate::linker_error::{LinkerError, Message};
use crate::object::{Object, ObjectView};
use crate::record::{
    frame_length, frame_ok, frame_payload, le16, le32, text_of, Record, RecordType,
};
use vstd::arithmetic::div_mod::{
    lemma_add_mod_noop_right, lemma_mod_equivalence, lemma_mod_multiples_vanish, lemma_small_mod,
};
use vstd::prelude::*;
use vstd::slice::*;
use vstd::string::*;

verus! {

/// The size of one block of the dictionary.
pub const DICT_BLOCK_SIZE: usize = 512;

/// The number of buckets in one block of the dictionary.
pub const BLOCK_BUCKETS: usize = 37;

/// The bounds of the dictionary in the library file: where it starts, and how
/// many blocks it has.
#[derive(Copy, Clone, Debug, PartialEq, Eq, Structural)]
pub struct Dictionary {
    pub offset: usize,
    pub block: usize,
}

/// The location of the node table of the extended dictionary, and the number
/// of nodes in it.
#[derive(Copy, Clone, Debug, PartialEq, Eq, Structural)]
pub struct ExtDict {
    pub offset: usize,
    pub nodecount: usize,
}

/// An OMF library file.
pub struct Library {
    pub name: String,
    pub page_size: usize,
    pub dictionary: Option<Dictionary>,
    pub extdict: Option<ExtDict>,
    pub case_sensitive: bool,
    pub data: Vec<u8>,
}

/// Whether `data` opens with a library header: a LIBHDR record that holds at
/// least the offset and the size of the dictionary.
pub open spec fn header_ok(data: Seq<u8>) -> bool {
    &&& frame_ok(data)
    &&& RecordType::decode(data[0]) == Some(RecordType::LIBHDR)
    &&& frame_payload(data).len() >= 6
}

/// The dictionary that the library header announces; an offset of 0 means
/// that there is none.
pub open spec fn header_dictionary(data: Seq<u8>) -> Option<Dictionary> {
    let offset = le32(data[3], data[4], data[5], data[6]);
    let blocks = le16(data[7], data[8]);
    if offset != 0 {
        Some(Dictionary { offset: offset as usize, block: blocks as usize })
    } else {
        None
    }
}

/// The extended dictionary of the library, if one follows the dictionary: an
/// EXTDCT record of more than two bytes that lies within the file. Its node
/// table starts after the node count.
pub open spec fn header_extdict(data: Seq<u8>) -> Option<ExtDict> {
    match header_dictionary(data) {
        Some(dict) => {
            let offset = dict.offset + dict.block * DICT_BLOCK_SIZE;
            if offset + 3 <= data.len() && data[offset] == 0xF2 {
                let extlen = le16(data[offset + 1], data[offset + 2]);
                if offset + 3 + extlen <= data.len() && extlen > 2 {
                    Some(
                        ExtDict {
                            offset: (offset + 5) as usize,
                            nodecount: le16(data[offset + 3], data[offset + 4]) as usize,
                        },
                    )
                } else {
                    None
                }
            } else {
                None
            }
        },
        None => None,
    }
}

/// The position after the MODEND record of the module whose records start at
/// `pos`, if well-framed records lead up to one.
pub open spec fn module_end(data: Seq<u8>, pos: int) -> Option<int>
    decreases data.len() - pos,
{
    if 0 <= pos <= data.len() && frame_ok(data.skip(pos)) {
        let next = pos + frame_length(data.skip(pos)) + 3;
        if RecordType::decode(data[pos]) == Some(RecordType::MODEND) {
            Some(next)
        } else {
            module_end(data, next)
        }
    } else {
        None
    }
}

/// The position after the module that starts at `start`: a THEADR record
/// that holds a name, then records up to a MODEND.
pub open spec fn module_extent(data: Seq<u8>, start: int) -> Option<int> {
    if 0 <= start <= data.len() && frame_ok(data.skip(start)) && RecordType::decode(data[start])
        == Some(RecordType::THEADR) && crate::record::read_counted_string(
        frame_payload(data.skip(start)),
        0,
    ) is Some {
        module_end(data, start + frame_length(data.skip(start)) + 3)
    } else {
        None
    }
}

/// The results of hashing a symbol name: the block and the bucket at which
/// the search starts, and the steps by which it moves on.
#[derive(Copy, Clone, Debug, PartialEq, Eq, Structural)]
pub struct DictHash {
    pub block: usize,
    pub bucket: usize,
    pub block_delta: usize,
    pub bucket_delta: usize,
}

/// `x` rotated left by two bits.
pub open spec fn rotl2(x: u16) -> u16 {
    (x << 2) | (x >> 14)
}

/// `x` rotated right by two bits.
pub open spec fn rotr2(x: u16) -> u16 {
    (x >> 2) | (x << 14)
}

/// A byte of a name as it enters the hash: with bit 5 set, which folds the
/// ASCII letters to lower case.
pub open spec fn folded(b: u8) -> u16 {
    (b as u16) | 0x20
}

/// The accumulator that starts at `seed` and, for each byte of `s` in turn,
/// is rotated left and XORed with the folded byte.
pub open spec fn mix_left(seed: u16, s: Seq<u8>) -> u16
    decreases s.len(),
{
    if s.len() == 0 {
        seed
    } else {
        rotl2(mix_left(seed, s.drop_last())) ^ folded(s.last())
    }
}

/// The accumulator that starts at `seed` and, for each byte of `s` in turn,
/// is rotated right and XORed with the folded byte.
pub open spec fn mix_right(seed: u16, s: Seq<u8>) -> u16
    decreases s.len(),
{
    if s.len() == 0 {
        seed
    } else {
        rotr2(mix_right(seed, s.drop_last())) ^ folded(s.last())
    }
}

/// The bytes of `s` from the last to the first.
pub open spec fn backwards(s: Seq<u8>) -> Seq<u8> {
    Seq::new(s.len(), |j: int| s[s.len() - 1 - j])
}

/// A step of a probe sequence is never 0.
pub open spec fn step_of(delta: int) -> int {
    if delta == 0 {
        1
    } else {
        delta
    }
}

/// The part of a name that is hashed: the name itself, unless it is longer
/// than a 16-bit length can tell.
pub open spec fn hashed_part(name: Seq<u8>) -> Seq<u8> {
    name.take((name.len() % 0x10000) as int)
}

/// The hash of the non-empty name `s` in a dictionary of `nblocks` blocks.
/// The name is scanned from both ends at once: the bytes from the back feed
/// the bucket (rotating right) and the block step (rotating left), both
/// starting at 0; all bytes but the last, from the front, feed the block
/// (rotating left) and the bucket step (rotating right), both starting at
/// the length of the name with bit 5 set. Each result is reduced modulo the
/// number of blocks or of buckets.
pub open spec fn hash_of(s: Seq<u8>, nblocks: u16) -> DictHash {
    let seed = (s.len() as u16) | 0x20;
    DictHash {
        block: (mix_left(seed, s.drop_last()) % nblocks) as usize,
        bucket: (mix_right(0, backwards(s)) % 37) as usize,
        block_delta: step_of(mix_left(0, backwards(s)) as int % nblocks as int) as usize,
        bucket_delta: step_of(mix_right(seed, s.drop_last()) as int % 37) as usize,
    }
}

/// What one bucket of a dictionary block holds.
pub enum Slot {
    Empty,
    /// The bucket points at an entry that does not fit in the block, or
    /// whose name is not text.
    Invalid,
    Entry { key: Seq<char>, page: usize },
}

/// What bucket `bucket` of the block at `base` holds. A bucket holds half
/// the offset, within the block, of an entry: a counted name and the page of
/// the module that defines it. 0 marks an empty bucket.
pub open spec fn slot_at(data: Seq<u8>, base: int, bucket: int) -> Slot {
    let index = data[base + bucket] as int * 2;
    if index == 0 {
        Slot::Empty
    } else {
        let count = data[base + index] as int;
        let text = data.subrange(base + index + 1, base + index + 1 + count);
        if index + 1 + count + 2 > DICT_BLOCK_SIZE {
            Slot::Invalid
        } else if !vstd::utf8::valid_utf8(text) {
            Slot::Invalid
        } else {
            Slot::Entry {
                key: vstd::utf8::decode_utf8(text),
                page: le16(data[base + index + 1 + count], data[base + index + 2 + count])
                    as usize,
            }
        }
    }
}

/// The outcome of a search in the dictionary.
pub enum Lookup {
    Found(usize),
    Absent,
    Invalid,
}

/// The text that `str::to_lowercase` returns for a text.
pub uninterp spec fn lowercase(s: Seq<char>) -> Seq<char>;

/// `str::to_lowercase`: the lower-case form of a text.
#[verifier::external_body]
fn to_lowercase(s: &str) -> (r: String)
    ensures
        r@ == lowercase(s@),
{
    s.to_lowercase()
}

/// Whether a dictionary key names the symbol that is looked for, given the
/// lower-case forms of both.
pub fn names_match(
    case_sensitive: bool,
    key: &String,
    symbol: &String,
    key_lower: &String,
    symbol_lower: &String,
) -> (b: bool)
    ensures
        b == if case_sensitive {
            key@ == symbol@
        } else {
            key_lower@ == symbol_lower@
        },
{
    if case_sensitive {
        *key == *symbol
    } else {
        *key_lower == *symbol_lower
    }
}

/// Stepping from the `j`-th member of a probe sequence gives the next
/// member, and after `m` steps the sequence is back at its start.
pub proof fn lemma_probe_step(start: int, delta: int, m: int, j: int)
    requires
        0 < m,
        0 <= start < m,
        0 <= delta,
        0 <= j,
    ensures
        ((start + j * delta) % m + delta) % m == (start + (j + 1) * delta) % m,
        (start + m * delta) % m == start,
        0 <= (start + j * delta) % m < m,
{
    assert((j + 1) * delta == j * delta + delta) by (nonlinear_arith);
    assert(j * delta >= 0) by (nonlinear_arith)
        requires
            j >= 0,
            delta >= 0,
    ;
    lemma_add_mod_noop_right(delta, start + j * delta, m);
    assert(delta + (start + j * delta) == start + j * delta + delta);
    lemma_mod_multiples_vanish(delta, start, m);
    lemma_small_mod(start as nat, m as nat);
}

/// No multiple of a step below 37, by less than 37, is a multiple of 37:
/// 37 is prime.
proof fn lemma_steps_of_37(k: int, d: int)
    requires
        0 < k < 37,
        0 < d < 37,
    ensures
        (k * d) % 37 != 0,
{
    let a = k as u16;
    let b = d as u16;
    assert(0 < a < 37 && 0 < b < 37 ==> (a * b) % 37 != 0) by (bit_vector);
    assert(k * d < 37 * 37) by (nonlinear_arith)
        requires
            0 < k < 37,
            0 < d < 37,
    ;
    assert(k * d > 0) by (nonlinear_arith)
        requires
            0 < k < 37,
            0 < d < 37,
    ;
    assert((a * b) as int == k * d);
}

impl Library {
    /// The probes within a block look at 37 different buckets: the walk
    /// comes by every bucket of the block before it returns to the first.
    pub proof fn lemma_probes_differ(h: DictHash, j1: int, j2: int)
        requires
            h.bucket < BLOCK_BUCKETS,
            1 <= h.bucket_delta < BLOCK_BUCKETS,
            0 <= j1 < j2 < BLOCK_BUCKETS,
        ensures
            Self::probe_bucket(h, j1) != Self::probe_bucket(h, j2),
    {
        let d = h.bucket_delta as int;
        let x = h.bucket + j2 * d;
        let y = h.bucket + j1 * d;
        lemma_steps_of_37(j2 - j1, d);
        assert(x - y == (j2 - j1) * d) by (nonlinear_arith)
            requires
                x == h.bucket + j2 * d,
                y == h.bucket + j1 * d,
        ;
        lemma_mod_equivalence(x, y, 37);
    }
}

fn rotl(x: u16) -> (r: u16)
    ensures
        r == rotl2(x),
{
    (x << 2) | (x >> 14)
}

fn rotr(x: u16) -> (r: u16)
    ensures
        r == rotr2(x),
{
    (x >> 2) | (x << 14)
}

fn u16_at(data: &Vec<u8>, at: usize) -> (w: u16)
    requires
        at + 2 <= data.len(),
    ensures
        w == le16(data@[at as int], data@[at + 1]),
{
    (data[at] as u16) + (data[at + 1] as u16) * 256
}

impl Library {
    /// The number of blocks as the hash sees it: in 16 bits.
    pub open spec fn hash_blocks(&self) -> int {
        self.dictionary->0.block as int % 0x10000
    }

    /// The hash of `name` in the dictionary of the library. There is none
    /// without a dictionary, with a dictionary of no blocks, or for a name of
    /// which no byte is hashed.
    pub open spec fn hash(&self, name: Seq<u8>) -> Option<DictHash> {
        if self.dictionary is None || self.hash_blocks() == 0 || hashed_part(name).len() == 0 {
            None
        } else {
            Some(hash_of(hashed_part(name), self.hash_blocks() as u16))
        }
    }

    /// Whether a dictionary key names `symbol`: by default the comparison
    /// ignores case.
    pub open spec fn key_matches(&self, key: Seq<char>, symbol: Seq<char>) -> bool {
        if self.case_sensitive {
            key == symbol
        } else {
            lowercase(key) == lowercase(symbol)
        }
    }

    /// The bucket that the `j`-th probe within a block looks at.
    pub open spec fn probe_bucket(h: DictHash, j: int) -> int {
        (h.bucket + j * h.bucket_delta) % (BLOCK_BUCKETS as int)
    }

    /// The block that the `i`-th round of the search looks at.
    pub open spec fn probe_block(&self, h: DictHash, i: int) -> int {
        (h.block + i * h.block_delta) % (self.dictionary->0.block as int)
    }

    /// Where block `block` of the dictionary starts in the file.
    pub open spec fn block_base(&self, block: int) -> int {
        self.dictionary->0.offset + block * DICT_BLOCK_SIZE
    }

    /// The search within the block at `base`, from the `j`-th probe on: the
    /// first bucket on the probe path that is invalid or holds the symbol
    /// decides; the search of the block ends without a find when the path
    /// returns to the bucket it started at.
    pub open spec fn scan_block(&self, symbol: Seq<char>, h: DictHash, base: int, j: int) -> Lookup
        decreases BLOCK_BUCKETS - j,
    {
        match slot_at(self.data@, base, Self::probe_bucket(h, j)) {
            Slot::Invalid => Lookup::Invalid,
            Slot::Entry { key, page } if self.key_matches(key, symbol) => Lookup::Found(page),
            _ => if j + 1 >= BLOCK_BUCKETS || Self::probe_bucket(h, j + 1) == h.bucket {
                Lookup::Absent
            } else {
                self.scan_block(symbol, h, base, j + 1)
            },
        }
    }

    /// The search from the `i`-th round on: a block that does not lie within
    /// the file makes the dictionary invalid; a block without the symbol
    /// ends the search unless it is marked as full (0xFF in the byte after
    /// the buckets), in which case the search moves on by the block step,
    /// until it returns to the block it started at.
    pub open spec fn scan_blocks(&self, symbol: Seq<char>, h: DictHash, i: int) -> Lookup
        decreases self.dictionary->0.block - i,
    {
        let base = self.block_base(self.probe_block(h, i));
        if base + DICT_BLOCK_SIZE > self.data@.len() {
            Lookup::Invalid
        } else {
            match self.scan_block(symbol, h, base, 0) {
                Lookup::Found(page) => Lookup::Found(page),
                Lookup::Invalid => Lookup::Invalid,
                Lookup::Absent => if self.data@[base + BLOCK_BUCKETS] != 0xff {
                    Lookup::Absent
                } else if i + 1 >= self.dictionary->0.block || self.probe_block(h, i + 1)
                    == h.block {
                    Lookup::Absent
                } else {
                    self.scan_blocks(symbol, h, i + 1)
                },
            }
        }
    }

    /// The outcome of looking `symbol` up in the dictionary. A library
    /// without a dictionary, or with one of no blocks, cannot be searched; a
    /// name that has no hash is in no dictionary.
    pub open spec fn lookup(&self, symbol: Seq<char>) -> Lookup {
        if self.dictionary is None || self.hash_blocks() == 0 {
            Lookup::Invalid
        } else {
            match self.hash(vstd::utf8::encode_utf8(symbol)) {
                None => Lookup::Absent,
                Some(h) => self.scan_blocks(symbol, h, 0),
            }
        }
    }

    /// The hash of a usable dictionary stays within the dictionary, and its
    /// steps are not 0.
    pub proof fn lemma_hash_bounds(&self, name: Seq<u8>)
        requires
            self.hash(name) is Some,
        ensures
            self.hash(name)->0.block < self.hash_blocks() <= self.dictionary->0.block,
            self.hash(name)->0.bucket < BLOCK_BUCKETS,
            1 <= self.hash(name)->0.block_delta <= 0xffff,
            1 <= self.hash(name)->0.bucket_delta < BLOCK_BUCKETS,
    {
    }

    /// Whether the bucket `bucket` of the block at `base` holds an entry that
    /// names `symbol` and sends it to `page`.
    pub open spec fn holds(&self, symbol: Seq<char>, page: usize, base: int, bucket: int) -> bool {
        match slot_at(self.data@, base, bucket) {
            Slot::Entry { key, page: p } => p == page && self.key_matches(key, symbol),
            _ => false,
        }
    }

    /// Whether the probe path of `symbol` comes, in round `i` and at probe
    /// `j` of that round, to an entry that names `symbol` and sends it to
    /// `page`.
    pub open spec fn found_at(&self, symbol: Seq<char>, page: usize, i: int, j: int) -> bool {
        let h = self.hash(vstd::utf8::encode_utf8(symbol))->0;
        self.holds(symbol, page, self.block_base(self.probe_block(h, i)), Self::probe_bucket(h, j))
    }

    proof fn lemma_scan_block_found(
        &self,
        symbol: Seq<char>,
        h: DictHash,
        base: int,
        j0: int,
        page: usize,
    ) -> (j: int)
        requires
            0 <= j0 < BLOCK_BUCKETS,
            self.scan_block(symbol, h, base, j0) == Lookup::Found(page),
        ensures
            j0 <= j < BLOCK_BUCKETS,
            self.holds(symbol, page, base, Self::probe_bucket(h, j)),
        decreases BLOCK_BUCKETS - j0,
    {
        if self.holds(symbol, page, base, Self::probe_bucket(h, j0)) {
            j0
        } else {
            self.lemma_scan_block_found(symbol, h, base, j0 + 1, page)
        }
    }

    proof fn lemma_scan_blocks_found(&self, symbol: Seq<char>, h: DictHash, i0: int, page: usize)
        -> (at: (int, int))
        requires
            0 <= i0 < self.dictionary->0.block,
            self.scan_blocks(symbol, h, i0) == Lookup::Found(page),
        ensures
            i0 <= at.0 < self.dictionary->0.block,
            0 <= at.1 < BLOCK_BUCKETS,
            self.holds(
                symbol,
                page,
                self.block_base(self.probe_block(h, at.0)),
                Self::probe_bucket(h, at.1),
            ),
        decreases self.dictionary->0.block - i0,
    {
        let base = self.block_base(self.probe_block(h, i0));
        if self.scan_block(symbol, h, base, 0) == Lookup::Found(page) {
            let j = self.lemma_scan_block_found(symbol, h, base, 0, page);
            (i0, j)
        } else {
            self.lemma_scan_blocks_found(symbol, h, i0 + 1, page)
        }
    }

    /// Whether no bucket of the block at `base` is invalid.
    pub open spec fn block_valid(&self, base: int) -> bool {
        forall|b: int|
            0 <= b < BLOCK_BUCKETS ==> !(#[trigger] slot_at(self.data@, base, b) is Invalid)
    }

    /// In a block without invalid buckets the search from probe `j0` on
    /// finds the symbol if a later probe comes to a bucket that holds it,
    /// and does not fail otherwise.
    proof fn lemma_scan_block_complete(
        &self,
        symbol: Seq<char>,
        h: DictHash,
        base: int,
        j0: int,
        j: int,
        page: usize,
    )
        requires
            h.bucket < BLOCK_BUCKETS,
            1 <= h.bucket_delta < BLOCK_BUCKETS,
            0 <= j0 <= j < BLOCK_BUCKETS,
            self.block_valid(base),
            self.holds(symbol, page, base, Self::probe_bucket(h, j)),
        ensures
            self.scan_block(symbol, h, base, j0) is Found,
        decreases j - j0,
    {
        lemma_probe_step(h.bucket as int, h.bucket_delta as int, BLOCK_BUCKETS as int, j0);
        assert(!(slot_at(self.data@, base, Self::probe_bucket(h, j0)) is Invalid));
        if j0 < j {
            assert(Self::probe_bucket(h, 0) == h.bucket);
            Self::lemma_probes_differ(h, 0, j0 + 1);
            self.lemma_scan_block_complete(symbol, h, base, j0 + 1, j, page);
        }
    }

    /// In a block without invalid buckets the search does not fail.
    proof fn lemma_scan_block_valid(&self, symbol: Seq<char>, h: DictHash, base: int, j0: int)
        requires
            h.bucket < BLOCK_BUCKETS,
            1 <= h.bucket_delta < BLOCK_BUCKETS,
            0 <= j0 < BLOCK_BUCKETS,
            self.block_valid(base),
        ensures
            !(self.scan_block(symbol, h, base, j0) is Invalid),
        decreases BLOCK_BUCKETS - j0,
    {
        lemma_probe_step(h.bucket as int, h.bucket_delta as int, BLOCK_BUCKETS as int, j0);
        assert(!(slot_at(self.data@, base, Self::probe_bucket(h, j0)) is Invalid));
        if j0 + 1 < BLOCK_BUCKETS {
            self.lemma_scan_block_valid(symbol, h, base, j0 + 1);
        }
    }

    /// A symbol that any bucket of a block without invalid buckets holds is
    /// found in that block: the walk comes by every bucket.
    pub proof fn lemma_block_search_complete(
        &self,
        symbol: Seq<char>,
        h: DictHash,
        base: int,
        bucket: int,
        page: usize,
    )
        requires
            h.bucket < BLOCK_BUCKETS,
            1 <= h.bucket_delta < BLOCK_BUCKETS,
            0 <= bucket < BLOCK_BUCKETS,
            self.block_valid(base),
            self.holds(symbol, page, base, bucket),
        ensures
            self.scan_block(symbol, h, base, 0) is Found,
    {
        let probe = |j: int| Self::probe_bucket(h, j);
        assert forall|a: int| 0 <= a < BLOCK_BUCKETS implies 0 <= #[trigger] probe(a)
            < BLOCK_BUCKETS by {
            lemma_probe_step(h.bucket as int, h.bucket_delta as int, BLOCK_BUCKETS as int, a);
        }
        assert forall|a: int, b: int| 0 <= a < b < BLOCK_BUCKETS implies #[trigger] probe(a)
            != #[trigger] probe(b) by {
            Self::lemma_probes_differ(h, a, b);
        }
        let j = crate::seq_search::lemma_injective_covers(probe, BLOCK_BUCKETS as int, bucket);
        self.lemma_scan_block_complete(symbol, h, base, 0, j, page);
    }

    /// Whether the walk for the hash `h` gets to its round `i` without
    /// harm: the blocks of the rounds up to `i` lie in the file and have no
    /// invalid bucket, and those of the rounds before `i` are marked as
    /// full and are not followed by the block that the walk started at.
    pub open spec fn walk_reaches(&self, h: DictHash, i: int) -> bool {
        &&& forall|r: int|
            0 <= r <= i ==> (#[trigger] self.block_base(self.probe_block(h, r))) + DICT_BLOCK_SIZE
                <= self.data@.len() && self.block_valid(self.block_base(self.probe_block(h, r)))
        &&& forall|r: int|
            0 <= r < i ==> self.data@[(#[trigger] self.block_base(self.probe_block(h, r)))
                + BLOCK_BUCKETS] == 0xff && self.probe_block(h, r + 1) != h.block
    }

    proof fn lemma_scan_blocks_complete(
        &self,
        symbol: Seq<char>,
        h: DictHash,
        i0: int,
        i: int,
        bucket: int,
        page: usize,
    )
        requires
            h.bucket < BLOCK_BUCKETS,
            1 <= h.bucket_delta < BLOCK_BUCKETS,
            0 <= i0 <= i < self.dictionary->0.block,
            0 <= bucket < BLOCK_BUCKETS,
            self.walk_reaches(h, i),
            self.holds(symbol, page, self.block_base(self.probe_block(h, i)), bucket),
        ensures
            self.scan_blocks(symbol, h, i0) is Found,
        decreases i - i0,
    {
        let base = self.block_base(self.probe_block(h, i0));
        assert(base + DICT_BLOCK_SIZE <= self.data@.len() && self.block_valid(base));
        if i0 == i {
            self.lemma_block_search_complete(symbol, h, base, bucket, page);
        } else {
            self.lemma_scan_block_valid(symbol, h, base, 0);
            assert(self.data@[base + BLOCK_BUCKETS] == 0xff && self.probe_block(h, i0 + 1)
                != h.block);
            self.lemma_scan_blocks_complete(symbol, h, i0 + 1, i, bucket, page);
        }
    }

    /// A symbol that is present in the dictionary is found: where some
    /// bucket of the block of a round of its walk holds the symbol, and the
    /// walk gets to that round without harm, the search finds the symbol,
    /// at that place or before.
    pub proof fn lemma_present_is_found(
        &self,
        symbol: Seq<char>,
        i: int,
        bucket: int,
        page: usize,
    )
        requires
            self.hash(vstd::utf8::encode_utf8(symbol)) is Some,
            0 <= i < self.dictionary->0.block,
            0 <= bucket < BLOCK_BUCKETS,
            self.walk_reaches(self.hash(vstd::utf8::encode_utf8(symbol))->0, i),
            self.holds(
                symbol,
                page,
                self.block_base(
                    self.probe_block(self.hash(vstd::utf8::encode_utf8(symbol))->0, i),
                ),
                bucket,
            ),
        ensures
            self.lookup(symbol) is Found,
    {
        let name = vstd::utf8::encode_utf8(symbol);
        let h = self.hash(name)->0;
        self.lemma_hash_bounds(name);
        self.lemma_scan_blocks_complete(symbol, h, 0, i, bucket, page);
    }

    /// A symbol that the search finds is found within as many probes as the
    /// dictionary has buckets: in one of its rounds, each of which looks at
    /// one block, and by one of the 37 probes of that round.
    pub proof fn lemma_found_within_bound(&self, symbol: Seq<char>, page: usize)
        requires
            self.lookup(symbol) == Lookup::Found(page),
        ensures
            exists|i: int, j: int|
                0 <= i < self.dictionary->0.block && 0 <= j < BLOCK_BUCKETS && self.found_at(
                    symbol,
                    page,
                    i,
                    j,
                ),
    {
        let name = vstd::utf8::encode_utf8(symbol);
        let h = self.hash(name)->0;
        self.lemma_hash_bounds(name);
        let at = self.lemma_scan_blocks_found(symbol, h, 0, page);
        assert(self.found_at(symbol, page, at.0, at.1));
    }

    /// Computes the hash for a symbol. Libraries use a two-level hashing
    /// scheme: one level selects the block, and another selects the bucket
    /// within the block. So the hash has four values: a starting block and
    /// bucket, and a step for each.
    pub fn hash_symbol(&self, symbol: &str) -> (r: Option<DictHash>)
        ensures
            r == self.hash(vstd::utf8::encode_utf8(symbol@)),
    {
        let dict = match self.dictionary {
            None => {
                return None;
            },
            Some(dict) => dict,
        };
        let nblocks = (dict.block % 0x10000) as u16;
        let bytes = symbol.as_bytes();
        let n = bytes.len() % 0x10000;
        if nblocks == 0 || n == 0 {
            return None;
        }
        let ghost name = hashed_part(bytes@);
        let seed = (n as u16) | 0x20;
        let mut block: u16 = seed;
        let mut bucket_delta: u16 = seed;
        let mut block_delta: u16 = 0;
        let mut bucket: u16 = 0;
        let mut k: usize = 0;
        while k < n
            invariant
                0 < n < 0x10000,
                n <= bytes@.len(),
                name == bytes@.take(n as int),
                k <= n,
                seed == (n as u16) | 0x20,
                bucket == mix_right(0, backwards(name).take(k as int)),
                block_delta == mix_left(0, backwards(name).take(k as int)),
                block == mix_left(seed, name.take(if k < n { k as int } else { n - 1 })),
                bucket_delta == mix_right(seed, name.take(if k < n { k as int } else { n - 1 })),
            decreases n - k,
        {
            let cback = (bytes[n - 1 - k] as u16) | 0x20;
            proof {
                let b = backwards(name);
                assert(b.take(k + 1).drop_last() =~= b.take(k as int));
                assert(b.take(k + 1).last() == bytes@[n - 1 - k]);
            }
            bucket = rotr(bucket) ^ cback;
            block_delta = rotl(block_delta) ^ cback;
            if k + 1 < n {
                let cfront = (bytes[k] as u16) | 0x20;
                proof {
                    assert(name.take(k + 1).drop_last() =~= name.take(k as int));
                    assert(name.take(k + 1).last() == bytes@[k as int]);
                }
                block = rotl(block) ^ cfront;
                bucket_delta = rotr(bucket_delta) ^ cfront;
            }
            k += 1;
        }
        proof {
            assert(backwards(name).take(n as int) =~= backwards(name));
            assert(name.take(n - 1) =~= name.drop_last());
        }
        let block_step = block_delta % nblocks;
        let bucket_step = bucket_delta % 37;
        Some(
            DictHash {
                block: (block % nblocks) as usize,
                bucket: (bucket % 37) as usize,
                block_delta: if block_step == 0 {
                    1
                } else {
                    block_step as usize
                },
                bucket_delta: if bucket_step == 0 {
                    1
                } else {
                    bucket_step as usize
                },
            },
        )
    }

    /// Finds a symbol, by name, in the dictionary of the library. On success
    /// returns the page number of the module which provides the symbol.
    pub fn find_symbol_in_dictionary(&self, symbol: &str) -> (r: Result<
        Option<usize>,
        LinkerError,
    >)
        ensures
            match r {
                Ok(Some(page)) => self.lookup(symbol@) == Lookup::Found(page),
                Ok(None) => self.lookup(symbol@) == Lookup::Absent,
                Err(_) => self.lookup(symbol@) == Lookup::Invalid,
            },
    {
        let dict = match self.dictionary {
            None => {
                return Err(
                    Message::new("library ").str(self.name.as_str()).str(
                        " does not have a dictionary",
                    ).error(),
                );
            },
            Some(dict) => dict,
        };
        if dict.block % 0x10000 == 0 {
            return Err(LinkerError::new("invalid linker dict: no blocks"));
        }
        let hash = match self.hash_symbol(symbol) {
            None => {
                return Ok(None);
            },
            Some(hash) => hash,
        };
        proof {
            self.lemma_hash_bounds(vstd::utf8::encode_utf8(symbol@));
        }
        let wanted = symbol.to_owned();
        let wanted_lower = to_lowercase(symbol);
        let len = self.data.len();
        let mut block = hash.block;
        let mut i: usize = 0;
        proof {
            assert(0 * hash.block_delta == 0);
            lemma_small_mod(hash.block as nat, dict.block as nat);
        }
        loop
            invariant
                self.dictionary == Some(dict),
                self.hash_blocks() != 0,
                self.hash(vstd::utf8::encode_utf8(symbol@)) == Some(hash),
                hash.block < dict.block,
                hash.bucket < BLOCK_BUCKETS,
                1 <= hash.block_delta <= 0xffff,
                1 <= hash.bucket_delta < BLOCK_BUCKETS,
                wanted@ == symbol@,
                wanted_lower@ == lowercase(symbol@),
                len == self.data@.len(),
                i < dict.block,
                block == self.probe_block(hash, i as int),
                block < dict.block,
                self.lookup(symbol@) == self.scan_blocks(symbol@, hash, i as int),
            decreases dict.block - i,
        {
            let base = match block.checked_mul(DICT_BLOCK_SIZE) {
                None => {
                    return Err(LinkerError::new("invalid linker dict block: out of bounds"));
                },
                Some(at) => match dict.offset.checked_add(at) {
                    None => {
                        return Err(LinkerError::new("invalid linker dict block: out of bounds"));
                    },
                    Some(base) => base,
                },
            };
            if base > len || len - base < DICT_BLOCK_SIZE {
                return Err(LinkerError::new("invalid linker dict block: out of bounds"));
            }
            let mut bucket = hash.bucket;
            let mut j: usize = 0;
            loop
                invariant_except_break
                    self.scan_block(symbol@, hash, base as int, 0) == self.scan_block(
                        symbol@,
                        hash,
                        base as int,
                        j as int,
                    ),
                    bucket == Self::probe_bucket(hash, j as int),
                invariant
                    self.dictionary == Some(dict),
                    self.hash_blocks() != 0,
                    self.hash(vstd::utf8::encode_utf8(symbol@)) == Some(hash),
                    hash.bucket < BLOCK_BUCKETS,
                    1 <= hash.bucket_delta < BLOCK_BUCKETS,
                    wanted@ == symbol@,
                    wanted_lower@ == lowercase(symbol@),
                    len == self.data@.len(),
                    base == self.block_base(self.probe_block(hash, i as int)),
                    base + DICT_BLOCK_SIZE <= len,
                    j < BLOCK_BUCKETS,
                    bucket < BLOCK_BUCKETS,
                    self.lookup(symbol@) == self.scan_blocks(symbol@, hash, i as int),
                ensures
                    self.scan_block(symbol@, hash, base as int, 0) == Lookup::Absent,
                decreases BLOCK_BUCKETS - j,
            {
                let index = (self.data[base + bucket] as usize) * 2;
                if index != 0 {
                    let count = self.data[base + index] as usize;
                    if index + 1 + count + 2 > DICT_BLOCK_SIZE {
                        return Err(
                            LinkerError::new("invalid linker dict block: index out of bounds"),
                        );
                    }
                    let text = slice_subrange(
                        self.data.as_slice(),
                        base + index + 1,
                        base + index + 1 + count,
                    );
                    let key = match text_of(text) {
                        Some(key) => key,
                        None => {
                            return Err(
                                LinkerError::new("invalid counted string in linker dict"),
                            );
                        },
                    };
                    let key_lower = to_lowercase(key.as_str());
                    if names_match(self.case_sensitive, &key, &wanted, &key_lower, &wanted_lower) {
                        let page = u16_at(&self.data, base + index + 1 + count) as usize;
                        return Ok(Some(page));
                    }
                }
                proof {
                    lemma_probe_step(
                        hash.bucket as int,
                        hash.bucket_delta as int,
                        BLOCK_BUCKETS as int,
                        j as int,
                    );
                }
                bucket = (bucket + hash.bucket_delta) % BLOCK_BUCKETS;
                if bucket == hash.bucket {
                    break ;
                }
                j += 1;
            }
            let next_free = self.data[base + BLOCK_BUCKETS];
            if next_free != 0xff {
                return Ok(None);
            }
            proof {
                lemma_probe_step(
                    hash.block as int,
                    hash.block_delta as int,
                    dict.block as int,
                    i as int,
                );
            }
            block = (block + hash.block_delta) % dict.block;
            if block == hash.block {
                return Ok(None);
            }
            i += 1;
        }
    }
}

impl Library {
    /// Parses the header of a library held in memory.
    pub fn from_data(data: Vec<u8>, name: &str) -> (r: Result<Library, LinkerError>)
        ensures
            match r {
                Ok(lib) => {
                    &&& header_ok(data@)
                    &&& lib.name@ == name@
                    &&& lib.data@ == data@
                    &&& lib.page_size == frame_length(data@) + 3
                    &&& lib.dictionary == header_dictionary(data@)
                    &&& lib.extdict == header_extdict(data@)
                    &&& !lib.case_sensitive
                },
                Err(_) => !header_ok(data@),
            },
    {
        let mut rec = Record::new(data.as_slice())?;
        if rec.rectype != RecordType::LIBHDR {
            return Err(Message::new("`").str(name).str("` is not a library file.").error());
        }
        let page_size = rec.total_length();
        let dict_offset = rec.dword()? as usize;
        let dict_blocks = rec.word()? as usize;
        proof {
            let p = frame_payload(data@);
            assert(p[0] == data@[3] && p[1] == data@[4] && p[2] == data@[5] && p[3] == data@[6]);
            assert(p[4] == data@[7] && p[5] == data@[8]);
        }
        let dictionary = if dict_offset != 0 {
            Some(Dictionary { offset: dict_offset, block: dict_blocks })
        } else {
            None
        };
        let mut extdict = None;
        if dict_offset != 0 {
            let offset = dict_offset as u64 + (dict_blocks as u64) * 512;
            let len = data.len() as u64;
            if offset + 3 <= len && data[offset as usize] == 0xF2 {
                let at = offset as usize;
                let extlen = u16_at(&data, at + 1) as u64;
                if offset + 3 + extlen <= len && extlen > 2 {
                    let nodecount = u16_at(&data, at + 3) as usize;
                    extdict = Some(ExtDict { offset: at + 5, nodecount });
                }
            }
        }
        Ok(
            Library {
                name: name.to_owned(),
                page_size,
                dictionary,
                extdict,
                case_sensitive: false,
                data,
            },
        )
    }

    /// Extracts an object module, by module page, from the library: the
    /// bytes from the start of the page to the end of the module's MODEND
    /// record.
    pub fn extract_module(&self, modpage: usize) -> (r: Result<Object, LinkerError>)
        ensures
            match r {
                Ok(obj) => {
                    &&& module_extent(self.data@, modpage * self.page_size) is Some
                    &&& obj.wf()
                    &&& obj@ == ObjectView::empty(
                        Some(
                            self.data@.subrange(
                                modpage * self.page_size,
                                module_extent(self.data@, modpage * self.page_size)->0,
                            ),
                        ),
                    )
                },
                Err(_) => module_extent(self.data@, modpage * self.page_size) is None,
            },
    {
        let len = self.data.len();
        let modstart = match modpage.checked_mul(self.page_size) {
            Some(start) => start,
            None => {
                return Err(
                    Message::new("page ").dec(modpage).str(" in library ").str(
                        self.name.as_str(),
                    ).str(" is not a module").error(),
                );
            },
        };
        if modstart > len {
            return Err(
                Message::new("page ").dec(modpage).str(" in library ").str(
                    self.name.as_str(),
                ).str(" is not a module").error(),
            );
        }
        let mut header = match Record::new(slice_subrange(self.data.as_slice(), modstart, len)) {
            Ok(header) => header,
            Err(err) => {
                return Err(
                    Message::new("page ").dec(modpage).str(" in library ").str(
                        self.name.as_str(),
                    ).str(" is not a module: ").cause(&err).error(),
                );
            },
        };
        if header.rectype != RecordType::THEADR {
            return Err(
                Message::new("page ").dec(modpage).str(" in library ").str(
                    self.name.as_str(),
                ).str(" is not a module (missing THEADR)").error(),
            );
        }
        let reclen = header.total_length();
        match header.counted_string() {
            Ok(_) => {},
            Err(err) => {
                return Err(
                    Message::new("page ").dec(modpage).str(" in library ").str(
                        self.name.as_str(),
                    ).str(" is not a module: ").cause(&err).error(),
                );
            },
        };
        let mut modend = modstart + reclen;
        loop
            invariant_except_break
                module_extent(self.data@, modstart as int) == module_end(self.data@, modend as int),
            invariant
                len == self.data@.len(),
                modstart == modpage * self.page_size,
                modstart <= modend <= len,
            ensures
                modstart <= modend <= len,
                module_extent(self.data@, modstart as int) == Some(modend as int),
            decreases len - modend,
        {
            let rec = match Record::new(slice_subrange(self.data.as_slice(), modend, len)) {
                Ok(rec) => rec,
                Err(err) => {
                    return Err(
                        Message::new("page ").dec(modpage).str(" in library ").str(
                            self.name.as_str(),
                        ).str(" is not a module: ").cause(&err).error(),
                    );
                },
            };
            modend += rec.total_length();
            if rec.rectype == RecordType::MODEND {
                break ;
            }
        }
        let contents = slice_to_vec(slice_subrange(self.data.as_slice(), modstart, modend));
        Ok(Object::from_bytes(contents))
    }
}

impl Library {
    /// The module page of node `k` of the extended dictionary.
    pub open spec fn node_page(&self, k: int) -> usize {
        let at = self.extdict->0.offset + 4 * k;
        le16(self.data@[at], self.data@[at + 1]) as usize
    }

    /// Where, counted from the node table, the dependency list of node `k`
    /// starts.
    pub open spec fn node_list(&self, k: int) -> int {
        let at = self.extdict->0.offset + 4 * k;
        le16(self.data@[at + 2], self.data@[at + 3]) as int
    }

    /// Whether the node table lies within the file.
    pub open spec fn nodes_ok(&self) -> bool {
        self.extdict->0.offset + 4 * self.extdict->0.nodecount <= self.data@.len()
    }

    /// The node for `modpage` that a binary search of the nodes from `low` up
    /// to, but not including, `high` comes to.
    pub open spec fn search_node(&self, modpage: usize, low: int, high: int) -> Option<int>
        decreases high - low,
    {
        if low >= high {
            None
        } else {
            let mid = low + (high - low) / 2;
            if self.node_page(mid) == modpage {
                Some(mid)
            } else if modpage > self.node_page(mid) {
                self.search_node(modpage, mid + 1, high)
            } else {
                self.search_node(modpage, low, mid)
            }
        }
    }

    /// The number of entries of the dependency list at `at`.
    pub open spec fn list_count(&self, at: int) -> int {
        le16(self.data@[at], self.data@[at + 1]) as int
    }

    /// The node that entry `i` of the dependency list at `at` names.
    pub open spec fn list_node(&self, at: int, i: int) -> int {
        le16(self.data@[at + 2 + 2 * i], self.data@[at + 3 + 2 * i]) as int
    }

    /// Whether the dependency list at `at` lies within the file and names
    /// nodes of the table only.
    pub open spec fn list_ok(&self, at: int) -> bool {
        &&& at + 2 <= self.data@.len()
        &&& at + 2 + 2 * self.list_count(at) <= self.data@.len()
        &&& forall|i: int|
            0 <= i < self.list_count(at) ==> #[trigger] self.list_node(at, i)
                < self.extdict->0.nodecount
    }

    /// The module pages of the modules that the module at `modpage` needs
    /// directly, in the order of its dependency list; `None` where the
    /// extended dictionary is broken. A library without an extended
    /// dictionary and a module without a node have no dependencies.
    pub open spec fn dependencies(&self, modpage: usize) -> Option<Seq<usize>> {
        match self.extdict {
            None => Some(Seq::empty()),
            Some(ext) => if !self.nodes_ok() {
                None
            } else {
                match self.search_node(modpage, 0, ext.nodecount as int) {
                    None => Some(Seq::empty()),
                    Some(k) => {
                        let at = ext.offset + self.node_list(k);
                        if self.list_ok(at) {
                            Some(
                                Seq::new(
                                    self.list_count(at) as nat,
                                    |i: int| self.node_page(self.list_node(at, i)),
                                ),
                            )
                        } else {
                            None
                        }
                    },
                }
            },
        }
    }

    /// Where the node pages increase strictly, the binary search finds the
    /// node of a page exactly when there is one.
    pub proof fn lemma_search_node(&self, modpage: usize, low: int, high: int)
        requires
            0 <= low <= high <= self.extdict->0.nodecount,
            forall|a: int, b: int|
                0 <= a < b < self.extdict->0.nodecount ==> self.node_page(a) < self.node_page(b),
        ensures
            match self.search_node(modpage, low, high) {
                Some(k) => low <= k < high && self.node_page(k) == modpage,
                None => forall|k: int| low <= k < high ==> self.node_page(k) != modpage,
            },
        decreases high - low,
    {
        if low < high {
            let mid = low + (high - low) / 2;
            if self.node_page(mid) == modpage {
            } else if modpage > self.node_page(mid) {
                self.lemma_search_node(modpage, mid + 1, high);
            } else {
                self.lemma_search_node(modpage, low, mid);
            }
        }
    }

    /// Retrieves the list of the modules that a module depends on directly.
    /// Both `modpage` and the returned modules are module page numbers.
    pub fn get_module_dependencies(&self, modpage: usize) -> (r: Result<Vec<usize>, LinkerError>)
        ensures
            match r {
                Ok(deps) => self.dependencies(modpage) == Some(deps@),
                Err(_) => self.dependencies(modpage) is None,
            },
    {
        let mut dependencies: Vec<usize> = Vec::new();
        let ext = match self.extdict {
            None => {
                return Ok(dependencies);
            },
            Some(ext) => ext,
        };
        let len = self.data.len();
        let table_ok = match ext.nodecount.checked_mul(4) {
            None => false,
            Some(size) => match ext.offset.checked_add(size) {
                None => false,
                Some(end) => end <= len,
            },
        };
        if !table_ok {
            return Err(LinkerError::new("invalid linker extdict: index out of bounds"));
        }
        let mut low: usize = 0;
        let mut high: usize = ext.nodecount;
        let mut found: Option<usize> = None;
        while low < high
            invariant_except_break
                found is None,
                self.search_node(modpage, 0, ext.nodecount as int) == self.search_node(
                    modpage,
                    low as int,
                    high as int,
                ),
            invariant
                self.extdict == Some(ext),
                self.nodes_ok(),
                len == self.data@.len(),
                low <= high <= ext.nodecount,
            ensures
                match found {
                    Some(k) => k < ext.nodecount,
                    None => true,
                },
                self.search_node(modpage, 0, ext.nodecount as int) == match found {
                    Some(k) => Some(k as int),
                    None => None,
                },
            decreases high - low,
        {
            let mid = low + (high - low) / 2;
            let midmodpage = u16_at(&self.data, ext.offset + mid * 4) as usize;
            if midmodpage == modpage {
                found = Some(mid);
                break ;
            }
            if modpage > midmodpage {
                low = mid + 1;
            } else {
                high = mid;
            }
        }
        let k = match found {
            None => {
                return Ok(dependencies);
            },
            Some(k) => k,
        };
        let list = u16_at(&self.data, ext.offset + k * 4 + 2) as usize;
        let at = match ext.offset.checked_add(list) {
            None => {
                return Err(LinkerError::new("invalid linker extdict: index out of bounds"));
            },
            Some(at) => at,
        };
        if at > len || len - at < 2 {
            return Err(LinkerError::new("invalid linker extdict: index out of bounds"));
        }
        let count = u16_at(&self.data, at) as usize;
        if len - at - 2 < count * 2 {
            return Err(LinkerError::new("invalid linker extdict: index out of bounds"));
        }
        let mut i: usize = 0;
        while i < count
            invariant
                self.extdict == Some(ext),
                self.nodes_ok(),
                len == self.data@.len(),
                at + 2 + 2 * count <= len,
                count == self.list_count(at as int),
                self.search_node(modpage, 0, ext.nodecount as int) == Some(k as int),
                at == ext.offset + self.node_list(k as int),
                i <= count <= 0xffff,
                dependencies@.len() == i,
                forall|j: int|
                    0 <= j < i ==> #[trigger] self.list_node(at as int, j) < ext.nodecount,
                forall|j: int|
                    0 <= j < i ==> #[trigger] dependencies@[j] == self.node_page(
                        self.list_node(at as int, j),
                    ),
            decreases count - i,
        {
            let depsnode = u16_at(&self.data, at + 2 + i * 2) as usize;
            if depsnode >= ext.nodecount {
                assert(self.list_node(at as int, i as int) == depsnode);
                return Err(LinkerError::new("invalid linker extdict: node out of bounds"));
            }
            let page = u16_at(&self.data, ext.offset + depsnode * 4) as usize;
            dependencies.push(page);
            i += 1;
        }
        assert(dependencies@ =~= Seq::new(
            self.list_count(at as int) as nat,
            |i: int| self.node_page(self.list_node(at as int, i)),
        ));
        Ok(dependencies)
    }
}

/// Whether the members of `s` increase strictly.
pub open spec fn increasing(s: Seq<usize>) -> bool {
    forall|i: int, j: int| 0 <= i < j < s.len() ==> s[i] < s[j]
}

proof fn lemma_increasing_bound(s: Seq<usize>, i: int)
    requires
        increasing(s),
        0 <= i < s.len(),
    ensures
        s[i] >= i,
    decreases i,
{
    if i > 0 {
        lemma_increasing_bound(s, i - 1);
    }
}

impl Library {
    /// Whether the module at page `a` needs the module at page `b` directly.
    pub open spec fn needs(&self, a: usize, b: usize) -> bool {
        match self.dependencies(a) {
            Some(deps) => deps.contains(b),
            None => false,
        }
    }

    /// Whether a chain of `n` direct dependencies leads from `start` to `p`.
    pub open spec fn reaches(&self, start: usize, p: usize, n: nat) -> bool
        decreases n,
    {
        if n == 0 {
            p == start
        } else {
            exists|q: usize| self.reaches(start, q, (n - 1) as nat) && #[trigger] self.needs(q, p)
        }
    }

    /// Whether `p` is `start` or a direct or indirect dependency of it.
    pub open spec fn reachable(&self, start: usize, p: usize) -> bool {
        exists|n: nat| self.reaches(start, p, n)
    }

    /// Whether the dependency list of `start` and of every module it
    /// depends on, directly or indirectly, can be read.
    pub open spec fn closure_ok(&self, start: usize) -> bool {
        forall|p: usize| #[trigger] self.reachable(start, p) ==> self.dependencies(p) is Some
    }

    /// What holds while the dependencies of `start` are collected: whatever
    /// was collected or awaits a visit depends on `start`; `start` is among
    /// them; and the dependencies of what was collected are among them, too.
    spec fn collecting(&self, start: usize, visited: Seq<usize>, pending: Seq<usize>) -> bool {
        &&& forall|a: usize| #[trigger] visited.contains(a) ==> self.reachable(start, a)
        &&& forall|a: usize| #[trigger] pending.contains(a) ==> self.reachable(start, a)
        &&& forall|a: usize| #[trigger] visited.contains(a) ==> self.dependencies(a) is Some
        &&& visited.contains(start) || pending.contains(start)
        &&& forall|a: usize, b: usize|
            visited.contains(a) && #[trigger] self.needs(a, b) ==> visited.contains(b)
                || pending.contains(b)
        &&& forall|a: usize| #[trigger] visited.contains(a) ==> a == start || a <= 0xffff
        &&& forall|a: usize| #[trigger] pending.contains(a) ==> a == start || a <= 0xffff
    }

    proof fn lemma_reach_step(&self, start: usize, q: usize, p: usize)
        requires
            self.reachable(start, q),
            self.needs(q, p),
        ensures
            self.reachable(start, p),
    {
        let n = choose|n: nat| self.reaches(start, q, n);
        assert(self.reaches(start, p, n + 1));
    }

    proof fn lemma_collect_skip(&self, start: usize, visited: Seq<usize>, pending: Seq<usize>)
        requires
            self.collecting(start, visited, pending),
            pending.len() > 0,
            visited.contains(pending.last()),
        ensures
            self.collecting(start, visited, pending.drop_last()),
    {
        let rest = pending.drop_last();
        assert forall|a: usize| pending.contains(a) implies rest.contains(a) || a
            == pending.last() by {
            let i = choose|i: int| 0 <= i < pending.len() && pending[i] == a;
            if i < rest.len() {
                assert(rest[i] == a);
            }
        }
        assert forall|a: usize| rest.contains(a) implies pending.contains(a) by {
            let i = choose|i: int| 0 <= i < rest.len() && rest[i] == a;
            assert(pending[i] == a);
        }
    }

    proof fn lemma_collect_visit(
        &self,
        start: usize,
        visited: Seq<usize>,
        pending: Seq<usize>,
        grown: Seq<usize>,
        deps: Seq<usize>,
    )
        requires
            self.collecting(start, visited, pending),
            pending.len() > 0,
            !visited.contains(pending.last()),
            self.dependencies(pending.last()) == Some(deps),
            forall|a: usize| grown.contains(a) <==> visited.contains(a) || a == pending.last(),
        ensures
            self.collecting(start, grown, pending.drop_last() + deps),
    {
        let dep = pending.last();
        let rest = pending.drop_last();
        let next = rest + deps;
        assert(pending.contains(dep)) by {
            assert(pending[pending.len() - 1] == dep);
        }
        assert forall|a: usize| pending.contains(a) implies next.contains(a) || a == dep by {
            let i = choose|i: int| 0 <= i < pending.len() && pending[i] == a;
            if i < rest.len() {
                assert(next[i] == a);
            }
        }
        assert forall|a: usize| next.contains(a) implies pending.contains(a) || deps.contains(
            a,
        ) by {
            let i = choose|i: int| 0 <= i < next.len() && next[i] == a;
            if i < rest.len() {
                assert(pending[i] == a);
            } else {
                assert(deps[i - rest.len()] == a);
            }
        }
        assert forall|a: usize| deps.contains(a) implies next.contains(a) by {
            let i = choose|i: int| 0 <= i < deps.len() && deps[i] == a;
            assert(next[rest.len() + i] == a);
        }
        assert forall|a: usize| deps.contains(a) implies self.reachable(start, a) && a
            <= 0xffff by {
            assert(self.needs(dep, a));
            self.lemma_reach_step(start, dep, a);
            let i = choose|i: int| 0 <= i < deps.len() && deps[i] == a;
        }
        assert forall|a: usize, b: usize| grown.contains(a) && #[trigger] self.needs(
            a,
            b,
        ) implies grown.contains(b) || next.contains(b) by {
            if a == dep {
                assert(deps.contains(b));
            } else {
                assert(visited.contains(a));
            }
        }
    }

    /// What contains `start` and the direct dependencies of its members
    /// contains every module that `start` depends on.
    proof fn lemma_closed(&self, start: usize, s: Seq<usize>, p: usize, n: nat)
        requires
            s.contains(start),
            forall|a: usize, b: usize|
                s.contains(a) && #[trigger] self.needs(a, b) ==> s.contains(b),
            self.reaches(start, p, n),
        ensures
            s.contains(p),
        decreases n,
    {
        if n > 0 {
            let q = choose|q: usize|
                self.reaches(start, q, (n - 1) as nat) && #[trigger] self.needs(q, p);
            self.lemma_closed(start, s, q, (n - 1) as nat);
        }
    }

    /// Retrieves the list of all modules that a module depends on.
    /// `get_module_dependencies` fetches the direct dependencies of a module
    /// from the extended dictionary; this routine searches the graph to find
    /// all, even indirect, dependencies. The module itself is among them.
    /// The pages are returned in increasing order.
    pub fn get_all_module_dependencies(&self, modstart: usize) -> (r: Result<
        Vec<usize>,
        LinkerError,
    >)
        ensures
            match r {
                Ok(all) => {
                    &&& self.closure_ok(modstart)
                    &&& increasing(all@)
                    &&& forall|p: usize| all@.contains(p) <==> self.reachable(modstart, p)
                },
                Err(_) => !self.closure_ok(modstart),
            },
    {
        let mut visited: Vec<usize> = Vec::new();
        let mut pending: Vec<usize> = Vec::new();
        pending.push(modstart);
        proof {
            assert(pending@[0] == modstart);
            assert(self.reaches(modstart, modstart, 0));
        }
        while pending.len() > 0
            invariant
                self.collecting(modstart, visited@, pending@),
                increasing(visited@),
            decreases 0x10002 - visited@.len(), pending@.len(),
        {
            proof {
                let v = visited@;
                if v.len() >= 0x10002 {
                    lemma_increasing_bound(v, 0x10000);
                    lemma_increasing_bound(v, 0x10001);
                    assert(v.contains(v[0x10000]));
                    assert(v.contains(v[0x10001]));
                }
            }
            let ghost before = pending@;
            let dep = pending.pop().unwrap();
            let mut at: usize = 0;
            while at < visited.len() && visited[at] < dep
                invariant
                    at <= visited@.len(),
                    forall|j: int| 0 <= j < at ==> visited@[j] < dep,
                decreases visited@.len() - at,
            {
                at += 1;
            }
            if at < visited.len() && visited[at] == dep {
                proof {
                    assert(visited@.contains(before.last()));
                    self.lemma_collect_skip(modstart, visited@, before);
                }
            } else {
                proof {
                    assert(before.contains(dep)) by {
                        assert(before[before.len() - 1] == dep);
                    }
                    if visited@.contains(dep) {
                        let i = choose|i: int| 0 <= i < visited@.len() && visited@[i] == dep;
                    }
                }
                let mut deps = match self.get_module_dependencies(dep) {
                    Ok(deps) => deps,
                    Err(err) => {
                        return Err(err);
                    },
                };
                let ghost old_visited = visited@;
                let ghost listed = deps@;
                visited.insert(at, dep);
                pending.append(&mut deps);
                proof {
                    let grown = visited@;
                    assert forall|a: usize| grown.contains(a) <==> old_visited.contains(a) || a
                        == dep by {
                        if grown.contains(a) {
                            let i = choose|i: int| 0 <= i < grown.len() && grown[i] == a;
                            if i < at {
                                assert(old_visited[i] == a);
                            } else if i > at {
                                assert(old_visited[i - 1] == a);
                            }
                        }
                        if old_visited.contains(a) {
                            let i = choose|i: int|
                                0 <= i < old_visited.len() && old_visited[i] == a;
                            if i < at {
                                assert(grown[i] == a);
                            } else {
                                assert(grown[i + 1] == a);
                            }
                        }
                        if a == dep {
                            assert(grown[at as int] == a);
                        }
                    }
                    self.lemma_collect_visit(modstart, old_visited, before, grown, listed);
                    assert forall|i: int, j: int| 0 <= i < j < grown.len() implies grown[i]
                        < grown[j] by {
                        if j < at {
                        } else if i > at {
                            assert(old_visited[i - 1] < old_visited[j - 1]);
                        } else if i == at {
                            assert(grown[j] == old_visited[j - 1]);
                        } else if j == at {
                        } else {
                            assert(grown[j] == old_visited[j - 1]);
                        }
                    }
                }
            }
        }
        proof {
            let v = visited@;
            assert(pending@ =~= Seq::<usize>::empty());
            assert forall|a: usize| !pending@.contains(a) by {}
            assert(v.contains(modstart));
            assert forall|p: usize| self.reachable(modstart, p) implies v.contains(p) by {
                let n = choose|n: nat| self.reaches(modstart, p, n);
                self.lemma_closed(modstart, v, p, n);
            }
            assert forall|p: usize| #[trigger] self.reachable(modstart, p) implies self.dependencies(
                p,
            ) is Some by {
                assert(v.contains(p));
            }
            assert forall|p: usize| v.contains(p) <==> self.reachable(modstart, p) by {}
        }
        Ok(visited)
    }
}

} // verus!
