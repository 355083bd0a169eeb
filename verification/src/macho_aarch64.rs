//! Relocations and branch thunks of AArch64 code in Mach-O files.

use vstd::arithmetic::div_mod::lemma_mod_multiples_vanish;
use vstd::arithmetic::power2::lemma2_to64;
use vstd::arithmetic::power2::pow2;
use vstd::bytes::lemma_auto_spec_u32_to_from_le_bytes;
use vstd::bytes::spec_u32_from_le_bytes;
use vstd::bytes::spec_u32_to_le_bytes;
use vstd::bytes::u32_to_le_bytes;
use vstd::prelude::*;

verus! {

pub const ARM64_RELOC_UNSIGNED: u8 = 0;

pub const ARM64_RELOC_BRANCH26: u8 = 2;

pub const ARM64_RELOC_PAGE21: u8 = 3;

pub const ARM64_RELOC_PAGEOFF12: u8 = 4;

pub const ARM64_RELOC_GOT_LOAD_PAGE21: u8 = 5;

pub const ARM64_RELOC_GOT_LOAD_PAGEOFF12: u8 = 6;

pub const ARM64_RELOC_POINTER_TO_GOT: u8 = 7;

pub const ARM64_RELOC_TLVP_LOAD_PAGE21: u8 = 8;

pub const ARM64_RELOC_TLVP_LOAD_PAGEOFF12: u8 = 9;

/// The bits of an address within its page.
pub const PAGE_MASK_4KB: u64 = 0xfff;

/// How far a branch reaches at least.
pub const MIN_BRANCH_RANGE: u64 = 0x800_0000;

/// The length of a thunk.
pub const THUNK_SIZE: usize = 12;

/// `adrp x16, 0`
pub const ADRP_X16: u32 = 0x9000_0010;

/// `add x16, x16, #0`
pub const ADD_X16: u32 = 0x9100_0210;

/// `br x16`
pub const BR_X16: u32 = 0xd61f_0200;

/// A relocation entry.
#[derive(Clone, Copy, Debug, PartialEq, Eq, Structural)]
pub struct RelocationInfo {
    /// Whether the value is relative to the place.
    pub r_pcrel: bool,
    /// The logarithm of the number of bytes. It is two bits wide.
    pub r_length: u8,
    pub r_type: u8,
}

/// What a relocation computes.
#[derive(Clone, Copy, Debug, PartialEq, Eq, Structural)]
pub enum RelocationKind {
    Absolute,
    AbsoluteLowPart,
    Relative,
    Got,
    GotRelative,
}

/// An instruction that holds a relocated value.
#[derive(Clone, Copy, Debug, PartialEq, Eq, Structural)]
pub enum Instruction {
    Adr,
    Add,
    JumpCall,
    MachOLow12,
}

/// Where a relocated value goes.
#[derive(Clone, Copy, Debug, PartialEq, Eq, Structural)]
pub enum RelocationSize {
    /// It takes whole bytes.
    ByteSize(usize),
    /// Bits `start` to `end` of it go into an instruction.
    BitMasking { start: u32, end: u32, instruction: Instruction },
}

/// The values that a relocation allows: `min` and above, below `max`.
#[derive(Clone, Copy, Debug, PartialEq, Eq, Structural)]
pub struct AllowedRange {
    pub min: i64,
    pub max: i64,
}

/// How a relocation is applied.
#[derive(Clone, Copy, Debug, PartialEq, Eq, Structural)]
pub struct RelocationKindInfo {
    pub kind: RelocationKind,
    pub size: RelocationSize,
    /// The bits that are cleared in the symbol with its addend and in the place.
    pub page_mask: Option<u64>,
    pub range: AllowedRange,
    pub alignment: usize,
    pub bias: u64,
    /// Whether a thunk can extend its reach.
    pub thunkable: bool,
}

/// A type of relocation that is not known.
#[derive(Clone, Copy, Debug, PartialEq, Eq, Structural)]
pub struct UnknownRelocation {
    pub r_type: u8,
}

/// Calls `linker_utils::elf::AllowedRange::from_bit_size` for signed values:
/// those of `bits` bits are allowed. The outside function accepts up to 64 bits,
/// with no check at 0 and 64.
#[verifier::external_body]
fn signed_range(bits: usize) -> (range: AllowedRange)
    requires
        1 <= bits < 64,
    ensures
        range.min == -pow2((bits - 1) as nat),
        range.max == pow2((bits - 1) as nat),
{
    let range = linker_utils::elf::AllowedRange::from_bit_size(
        bits,
        linker_utils::elf::Sign::Signed,
    );
    AllowedRange { min: range.min, max: range.max }
}

/// Whether every value is allowed.
pub open spec fn is_unchecked(range: AllowedRange) -> bool {
    range.min == i64::MIN && range.max == i64::MAX
}

/// Whether the signed values of `bits` bits are allowed.
pub open spec fn is_signed(range: AllowedRange, bits: nat) -> bool {
    range.min == -pow2((bits - 1) as nat) && range.max == pow2((bits - 1) as nat)
}

/// The number of bytes that a relocation entry has.
pub open spec fn byte_size(length: u8) -> usize {
    if length == 0 {
        1
    } else if length == 1 {
        2
    } else if length == 2 {
        4
    } else {
        8
    }
}

/// What an entry says of its kind.
pub open spec fn entry_kind(rel: RelocationInfo) -> RelocationKind {
    if rel.r_pcrel {
        RelocationKind::Relative
    } else {
        RelocationKind::Absolute
    }
}

/// Whether a relocation fills a page number into an instruction.
pub open spec fn is_page(info: RelocationKindInfo, kind: RelocationKind) -> bool {
    &&& info.kind == kind
    &&& info.size == (RelocationSize::BitMasking {
        start: 12,
        end: 33,
        instruction: Instruction::Adr,
    })
    &&& info.page_mask == Some(PAGE_MASK_4KB)
    &&& is_signed(info.range, 33)
    &&& info.alignment == 1
}

/// Whether a relocation fills an offset within a page into an instruction.
pub open spec fn is_page_offset(info: RelocationKindInfo, kind: RelocationKind) -> bool {
    &&& info.kind == kind
    &&& info.size == (RelocationSize::BitMasking {
        start: 0,
        end: 12,
        instruction: Instruction::MachOLow12,
    })
    &&& info.page_mask is None
    &&& is_unchecked(info.range)
    &&& info.alignment == 1
}

/// Whether a type of relocation is known.
pub open spec fn is_known(r_type: u8) -> bool {
    r_type == ARM64_RELOC_UNSIGNED || (ARM64_RELOC_BRANCH26 <= r_type
        <= ARM64_RELOC_TLVP_LOAD_PAGEOFF12)
}

/// How an entry of a known type is applied.
pub open spec fn applies(rel: RelocationInfo, info: RelocationKindInfo) -> bool {
    &&& info.bias == 0
    &&& info.thunkable == (rel.r_type == ARM64_RELOC_BRANCH26)
    &&& if rel.r_type == ARM64_RELOC_UNSIGNED {
        &&& info.kind == entry_kind(rel)
        &&& info.size == RelocationSize::ByteSize(byte_size(rel.r_length))
        &&& info.page_mask is None
        &&& is_unchecked(info.range)
        &&& info.alignment == 1
    } else if rel.r_type == ARM64_RELOC_BRANCH26 {
        &&& info.kind == entry_kind(rel)
        &&& info.size == (RelocationSize::BitMasking {
            start: 2,
            end: 28,
            instruction: Instruction::JumpCall,
        })
        &&& info.page_mask is None
        &&& is_signed(info.range, 28)
        &&& info.alignment == 4
    } else if rel.r_type == ARM64_RELOC_POINTER_TO_GOT {
        &&& info.kind == RelocationKind::GotRelative
        &&& info.size == RelocationSize::ByteSize(byte_size(rel.r_length))
        &&& info.page_mask is None
        &&& is_signed(info.range, 32)
        &&& info.alignment == 1
    } else if rel.r_type == ARM64_RELOC_PAGE21 {
        is_page(info, entry_kind(rel))
    } else if rel.r_type == ARM64_RELOC_GOT_LOAD_PAGE21 {
        is_page(info, RelocationKind::GotRelative)
    } else if rel.r_type == ARM64_RELOC_TLVP_LOAD_PAGE21 {
        is_page(info, RelocationKind::Relative)
    } else if rel.r_type == ARM64_RELOC_GOT_LOAD_PAGEOFF12 {
        is_page_offset(info, RelocationKind::Got)
    } else {
        is_page_offset(info, RelocationKind::AbsoluteLowPart)
    }
}

/// Relocations and thunks of AArch64 code.
pub struct MachOAArch64;

/// Where thunks are needed and how long they are.
#[derive(Clone, Copy, Debug, PartialEq, Eq, Structural)]
pub struct ThunkConfig {
    /// The logarithm of the alignment of the code that thunks serve.
    pub primary_alignment_exponent: u8,
    pub min_branch_range: u64,
    pub thunk_size: u64,
}

/// Calls `linker_utils::elf::AArch64Instruction::write_to_value`, which sets the
/// bits of an instruction that hold a value. For `adr` these are two bits from
/// bit 29 on and thirty from bit 5 on, for `add` those from bit 10 on. The
/// instruction is a word with its lowest byte first.
#[verifier::external_body]
fn write_to_value(instruction: Instruction, value: u64, word: u32) -> (result: u32)
    requires
        instruction == Instruction::Adr || instruction == Instruction::Add,
    ensures
        instruction == Instruction::Adr ==> result == word | (((value & 3) as u32) << 29) | (((
        value >> 2) & 0x3fff_ffff) as u32) << 5,
        instruction == Instruction::Add ==> result == word | (value as u32) << 10,
{
    let mut bytes = word.to_le_bytes();
    let outside = match instruction {
        Instruction::Adr => linker_utils::elf::AArch64Instruction::Adr,
        Instruction::Add => linker_utils::elf::AArch64Instruction::Add,
        Instruction::JumpCall => linker_utils::elf::AArch64Instruction::JumpCall,
        Instruction::MachOLow12 => linker_utils::elf::AArch64Instruction::MachOLow12,
    };
    outside.write_to_value(value, false, &mut bytes);
    u32::from_le_bytes(bytes)
}

/// The pages between a thunk and its target, as the instruction holds them.
pub open spec fn page_count(thunk_address: u64, target_address: u64) -> int {
    (target_address / 4096 - thunk_address / 4096) % 0x20_0000
}

/// The word that an `adrp` instruction becomes with a number of pages.
pub open spec fn adrp_word(pages: u64) -> u32 {
    ADRP_X16 | (((pages & 3) as u32) << 29) | (((pages >> 2) & 0x3fff_ffff) as u32) << 5
}

/// The word that an `add` instruction becomes with an offset.
pub open spec fn add_word(offset: u64) -> u32 {
    ADD_X16 | (offset as u32) << 10
}

/// The bytes of a thunk.
pub open spec fn thunk_bytes(thunk_address: u64, target_address: u64) -> Seq<u8> {
    spec_u32_to_le_bytes(adrp_word(page_count(thunk_address, target_address) as u64))
        + spec_u32_to_le_bytes(add_word(target_address & PAGE_MASK_4KB)) + spec_u32_to_le_bytes(
        BR_X16,
    )
}

impl MachOAArch64 {
    /// How a relocation entry is applied. An entry of an unknown type is an
    /// error.
    pub fn relocation_from_raw(rel: RelocationInfo) -> (info: Result<
        RelocationKindInfo,
        UnknownRelocation,
    >)
        requires
            rel.r_length <= 3,
        ensures
            match info {
                Ok(info) => is_known(rel.r_type) && applies(rel, info),
                Err(error) => !is_known(rel.r_type) && error.r_type == rel.r_type,
            },
    {
        let bytes: usize = match rel.r_length {
            0 => 1,
            1 => 2,
            2 => 4,
            _ => 8,
        };
        let rel_size = RelocationSize::ByteSize(bytes);
        let rel_kind = if rel.r_pcrel {
            RelocationKind::Relative
        } else {
            RelocationKind::Absolute
        };
        let unchecked = AllowedRange { min: i64::MIN, max: i64::MAX };
        let page = RelocationSize::BitMasking {
            start: 12,
            end: 33,
            instruction: Instruction::Adr,
        };
        let offset = RelocationSize::BitMasking {
            start: 0,
            end: 12,
            instruction: Instruction::MachOLow12,
        };
        let (kind, size, page_mask, range, alignment) = match rel.r_type {
            ARM64_RELOC_UNSIGNED => (rel_kind, rel_size, None, unchecked, 1),
            ARM64_RELOC_BRANCH26 => (
                rel_kind,
                RelocationSize::BitMasking { start: 2, end: 28, instruction: Instruction::JumpCall },
                None,
                signed_range(28),
                4,
            ),
            ARM64_RELOC_GOT_LOAD_PAGE21 => (
                RelocationKind::GotRelative,
                page,
                Some(PAGE_MASK_4KB),
                signed_range(33),
                1,
            ),
            ARM64_RELOC_TLVP_LOAD_PAGE21 => (
                RelocationKind::Relative,
                page,
                Some(PAGE_MASK_4KB),
                signed_range(33),
                1,
            ),
            ARM64_RELOC_GOT_LOAD_PAGEOFF12 => (RelocationKind::Got, offset, None, unchecked, 1),
            ARM64_RELOC_TLVP_LOAD_PAGEOFF12 => (
                RelocationKind::AbsoluteLowPart,
                offset,
                None,
                unchecked,
                1,
            ),
            ARM64_RELOC_POINTER_TO_GOT => (
                RelocationKind::GotRelative,
                rel_size,
                None,
                signed_range(32),
                1,
            ),
            ARM64_RELOC_PAGE21 => (rel_kind, page, Some(PAGE_MASK_4KB), signed_range(33), 1),
            ARM64_RELOC_PAGEOFF12 => (RelocationKind::AbsoluteLowPart, offset, None, unchecked, 1),
            _ => {
                return Err(UnknownRelocation { r_type: rel.r_type });
            },
        };
        Ok(
            RelocationKindInfo {
                kind,
                size,
                page_mask,
                range,
                alignment,
                bias: 0,
                thunkable: rel.r_type == ARM64_RELOC_BRANCH26,
            },
        )
    }

    /// Where thunks are needed and how long they are.
    pub fn thunk_config() -> (config: Option<ThunkConfig>)
        ensures
            config == Some(
                (ThunkConfig {
                    primary_alignment_exponent: 2,
                    min_branch_range: MIN_BRANCH_RANGE,
                    thunk_size: THUNK_SIZE as u64,
                }),
            ),
    {
        Some(
            ThunkConfig {
                primary_alignment_exponent: 2,
                min_branch_range: MIN_BRANCH_RANGE,
                thunk_size: THUNK_SIZE as u64,
            },
        )
    }

    /// Writes a thunk: code that branches to a target out of reach.
    pub fn write_thunk(thunk_address: u64, target_address: u64, buf: &mut Vec<u8>)
        requires
            old(buf)@.len() == THUNK_SIZE,
        ensures
            final(buf)@ == thunk_bytes(thunk_address, target_address),
    {
        let thunk_page: u64 = thunk_address / 4096;
        let target_page: u64 = target_address / 4096;
        let distance: u64 = target_page.wrapping_sub(thunk_page);
        let pages: u64 = distance % 0x20_0000;
        proof {
            let difference = target_page as int - thunk_page as int;
            if difference < 0 {
                lemma_mod_multiples_vanish(0x800_0000_0000, difference, 0x20_0000);
                assert(0x20_0000 * 0x800_0000_0000 == 0x1_0000_0000_0000_0000);
            }
            assert(pages as int == page_count(thunk_address, target_address));
        }
        let adrp: u32 = write_to_value(Instruction::Adr, pages, ADRP_X16);
        let add_instruction: u32 = write_to_value(
            Instruction::Add,
            target_address & PAGE_MASK_4KB,
            ADD_X16,
        );
        let first = u32_to_le_bytes(adrp);
        let second = u32_to_le_bytes(add_instruction);
        let third = u32_to_le_bytes(BR_X16);
        let mut index: usize = 0;
        while index < 4
            invariant
                index <= 4,
                buf@.len() == THUNK_SIZE,
                first@.len() == 4,
                second@.len() == 4,
                third@.len() == 4,
                forall|i: int| 0 <= i < index ==> buf@[i] == first@[i],
                forall|i: int| 0 <= i < index ==> #[trigger] buf@[i + 4] == second@[i],
                forall|i: int| 0 <= i < index ==> #[trigger] buf@[i + 8] == third@[i],
            decreases 4 - index,
        {
            buf.set(index, first[index]);
            buf.set(index + 4, second[index]);
            buf.set(index + 8, third[index]);
            index = index + 1;
        }
        proof {
            assert forall|i: int| 0 <= i < 12 implies buf@[i] == (first@ + second@ + third@)[i] by {
                if 4 <= i < 8 {
                    assert(buf@[(i - 4) + 4] == second@[i - 4]);
                } else if i >= 8 {
                    assert(buf@[(i - 8) + 8] == third@[i - 8]);
                }
            }
            assert(buf@ =~= first@ + second@ + third@);
        }
    }
}

/// The bits of a value from `start` on, below `end`, as an unsigned number.
pub open spec fn bits_of(value: int, start: nat, end: nat) -> int {
    (value / pow2(start) as int) % (pow2((end - start) as nat) as int)
}

/// The number that `width` bits stand for where the highest is a sign.
pub open spec fn sign_extended(bits: int, width: nat) -> int {
    if bits >= pow2((width - 1) as nat) {
        bits - pow2(width)
    } else {
        bits
    }
}

/// The address that a kind of relocation speaks of: the symbol, or the place in
/// the table that holds its address.
pub open spec fn meant_address(kind: RelocationKind, symbol: u64, entry: u64) -> u64 {
    match kind {
        RelocationKind::Got | RelocationKind::GotRelative => entry,
        _ => symbol,
    }
}

/// Whether a kind of relocation is relative to the place.
pub open spec fn is_relative(kind: RelocationKind) -> bool {
    match kind {
        RelocationKind::Relative | RelocationKind::GotRelative => true,
        _ => false,
    }
}

/// An address without the bits that a relocation clears.
pub open spec fn page_start(address: u64, page_mask: Option<u64>) -> int {
    match page_mask {
        Some(mask) => address as int - (address & mask) as int,
        None => address as int,
    }
}

/// The value that a relocation computes.
pub open spec fn relocated(info: RelocationKindInfo, symbol: u64, entry: u64, place: u64) -> int {
    page_start(meant_address(info.kind, symbol, entry), info.page_mask) - if is_relative(
        info.kind,
    ) {
        page_start(place, info.page_mask)
    } else {
        0
    }
}

/// What the field of an instruction gets of a value.
pub open spec fn field_of(info: RelocationKindInfo, value: int) -> int {
    match info.size {
        RelocationSize::BitMasking { start, end, .. } => bits_of(value, start as nat, end as nat),
        RelocationSize::ByteSize(bytes) => bits_of(value, 0, (bytes * 8) as nat),
    }
}

/// How many bits the field of an instruction has.
pub open spec fn field_width(info: RelocationKindInfo) -> int {
    match info.size {
        RelocationSize::BitMasking { start, end, .. } => end - start,
        RelocationSize::ByteSize(bytes) => bytes * 8,
    }
}

/// The instruction that gets a value.
pub open spec fn target_instruction(info: RelocationKindInfo) -> Option<Instruction> {
    match info.size {
        RelocationSize::BitMasking { instruction, .. } => Some(instruction),
        RelocationSize::ByteSize(_) => None,
    }
}

/// Powers of two that addresses are cut with.
proof fn lemma_powers()
    ensures
        pow2(0) == 1,
        pow2(2) == 4,
        pow2(8) == 0x100,
        pow2(12) == 0x1000,
        pow2(16) == 0x1_0000,
        pow2(20) == 0x10_0000,
        pow2(21) == 0x20_0000,
        pow2(25) == 0x200_0000,
        pow2(26) == 0x400_0000,
        pow2(27) == 0x800_0000,
        pow2(31) == 0x8000_0000,
        pow2(32) == 0x1_0000_0000,
        pow2(64) == 0x1_0000_0000_0000_0000,
{
    lemma2_to64();
}

/// The bits of an address within its page.
proof fn lemma_page_offset(address: u64)
    ensures
        (address & 0xfff) as int == address as int % 4096,
{
    assert(address & 0xfff == address % 4096) by (bit_vector);
}

/// A page and an offset within it address what they were made for: the code
/// `adrp x, page` followed by an instruction with the offset reaches the symbol,
/// or, for the relocations that go through the table of addresses, the place in
/// the table. The types are those of page relocations, each with that of its
/// offset: 3 and 4, 5 and 6 through the table, 8 and 9. Every distance of less
/// than four gigabytes is allowed, and no other.
pub proof fn law_page_pairs_address_their_symbol(
    page_type: u8,
    pcrel: bool,
    offset_pcrel: bool,
    length: u8,
    offset_length: u8,
    page: RelocationKindInfo,
    offset: RelocationKindInfo,
    symbol: u64,
    entry: u64,
    place: u64,
)
    requires
        page_type == 3 || page_type == 5 || page_type == 8,
        page_type == 3 ==> pcrel,
        applies(
            (RelocationInfo { r_pcrel: pcrel, r_length: length, r_type: page_type }),
            page,
        ),
        applies(
            (RelocationInfo {
                r_pcrel: offset_pcrel,
                r_length: offset_length,
                r_type: (page_type + 1) as u8,
            }),
            offset,
        ),
    ensures
        ({
            let target = if page_type == 5 {
                entry
            } else {
                symbol
            };
            let distance = target as int / 4096 * 4096 - place as int / 4096 * 4096;
            let value = relocated(page, symbol, entry, place);
            let low = relocated(offset, symbol, entry, place);
            &&& target_instruction(page) == Some(Instruction::Adr)
            &&& target_instruction(offset) == Some(Instruction::MachOLow12)
            &&& field_width(page) == 21
            &&& field_width(offset) == 12
            &&& (page.range.min <= value < page.range.max) == (-0x1_0000_0000 <= distance
                < 0x1_0000_0000)
            &&& page.range.min <= value < page.range.max ==> (place as int / 4096
                + sign_extended(field_of(page, value), 21)) * 4096 + field_of(offset, low)
                == target
            &&& offset.range.min == i64::MIN
            &&& offset.range.max == i64::MAX
            &&& page.alignment == 1
            &&& offset.alignment == 1
            &&& page.bias == 0
            &&& offset.bias == 0
            &&& !page.thunkable
            &&& !offset.thunkable
        }),
{
    lemma_powers();
    lemma_page_offset(symbol);
    lemma_page_offset(entry);
    lemma_page_offset(place);
    let target = if page_type == 5 {
        entry
    } else {
        symbol
    };
    let value = relocated(page, symbol, entry, place);
    let pages = target as int / 4096 - place as int / 4096;
    assert(value == pages * 4096);
    assert(value / 4096 == pages);
    assert(field_of(page, value) == pages % 0x20_0000);
    let low = relocated(offset, symbol, entry, place);
    assert(low == target);
    assert(pow2(12) == 4096);
    assert(pow2(0) == 1);
    assert(field_of(offset, low) == bits_of(low, 0, 12));
    assert(low / 1 == low);
    assert(field_of(offset, low) == target as int % 4096);
    if -0x10_0000 <= pages < 0x10_0000 {
        assert(sign_extended(pages % 0x20_0000, 21) == pages);
    }
}

/// A branch reaches its target: the field holds a number of instructions, and
/// every distance of less than 128 megabytes is allowed, and no other. Where the
/// distance is greater, a thunk extends its reach. The type is 2.
pub proof fn law_branches_reach_their_targets(
    length: u8,
    info: RelocationKindInfo,
    symbol: u64,
    entry: u64,
    place: u64,
)
    requires
        applies((RelocationInfo { r_pcrel: true, r_length: length, r_type: 2 }), info),
    ensures
        ({
            let value = relocated(info, symbol, entry, place);
            &&& target_instruction(info) == Some(Instruction::JumpCall)
            &&& field_width(info) == 26
            &&& (info.range.min <= value < info.range.max) == (-0x800_0000 <= symbol - place
                < 0x800_0000)
            &&& info.alignment == 4
            &&& (symbol - place) % 4 == 0 && info.range.min <= value < info.range.max ==> place
                + 4 * sign_extended(field_of(info, value), 26) == symbol
            &&& info.thunkable
            &&& info.bias == 0
            &&& info.range.max == MIN_BRANCH_RANGE
        }),
{
    lemma_powers();
    let value = symbol as int - place as int;
    assert(relocated(info, symbol, entry, place) == value);
    if value % 4 == 0 {
        let words = value / 4;
        assert(value == 4 * words);
        assert(field_of(info, value) == words % 0x400_0000);
        if -0x200_0000 <= words < 0x200_0000 {
            assert(sign_extended(words % 0x400_0000, 26) == words);
        }
    }
}

/// A pointer holds the address that it was made for, or, where it is relative,
/// how far that is from it. It has as many bytes as its entry says: two to the
/// power of its length. The types are 0, and 7 through the table of addresses,
/// where the distance has to be less than two gigabytes.
pub proof fn law_pointers_hold_their_symbol(
    rel: RelocationInfo,
    info: RelocationKindInfo,
    symbol: u64,
    entry: u64,
    place: u64,
)
    requires
        rel.r_type == 0 || rel.r_type == 7,
        rel.r_length <= 3,
        applies(rel, info),
    ensures
        ({
            let value = relocated(info, symbol, entry, place);
            let bits = field_width(info);
            &&& target_instruction(info) is None
            &&& bits == 8 * pow2(rel.r_length as nat)
            &&& rel.r_type == 0 && !rel.r_pcrel ==> value == symbol
            &&& rel.r_type == 0 && rel.r_pcrel ==> value == symbol - place
            &&& rel.r_type == 7 ==> value == entry - place
            &&& rel.r_type == 0 ==> info.range.min == i64::MIN && info.range.max == i64::MAX
            &&& rel.r_type == 7 ==> ((info.range.min <= value < info.range.max) == (-0x8000_0000
                <= entry - place < 0x8000_0000))
            &&& rel.r_length == 3 && rel.r_type == 0 && !rel.r_pcrel ==> field_of(info, value)
                == symbol
            &&& rel.r_length == 2 && rel.r_type == 7 && info.range.min <= value < info.range.max
                ==> place + sign_extended(field_of(info, value), 32) == entry
            &&& info.alignment == 1
            &&& info.bias == 0
            &&& !info.thunkable
        }),
{
    lemma_powers();
    lemma2_to64();
    let value = relocated(info, symbol, entry, place);
    assert(value / 1 == value);
    let bytes = byte_size(rel.r_length);
    assert(bytes == pow2(rel.r_length as nat));
    assert(field_width(info) == 8 * bytes);
    if rel.r_length == 3 {
        assert((bytes * 8) as nat == 64);
        assert(field_of(info, value) == value % 0x1_0000_0000_0000_0000);
    }
    if rel.r_length == 2 {
        assert((bytes * 8) as nat == 32);
        assert(field_of(info, value) == value % 0x1_0000_0000);
    }
}

/// The number of pages that an `adrp` instruction adds: 21 bits with a sign.
pub open spec fn adrp_pages(word: u32) -> int {
    let bits = ((word >> 29) & 3) | (((word >> 5) & 0x7_ffff) << 2);
    if bits >= 0x10_0000 {
        bits - 0x20_0000
    } else {
        bits as int
    }
}

/// The offset that an `add` instruction adds.
pub open spec fn add_offset(word: u32) -> int {
    ((word >> 10) & 0xfff) as int
}

/// Pointers, branches and pages are relative to the place where their entry says
/// so, and speak of the symbol. The types are 0, 2 and 3.
pub proof fn law_entries_tell_what_is_relative(
    rel: RelocationInfo,
    info: RelocationKindInfo,
    symbol: u64,
    entry: u64,
)
    requires
        rel.r_type == 0 || rel.r_type == 2 || rel.r_type == 3,
        applies(rel, info),
    ensures
        is_relative(info.kind) == rel.r_pcrel,
        meant_address(info.kind, symbol, entry) == symbol,
{
}

/// The types of relocations that are known: all up to 9 but for 1.
pub proof fn law_known_relocations(r_type: u8)
    ensures
        is_known(r_type) == (r_type <= 9 && r_type != 1),
{
}

/// A thunk is the code `adrp x16, page`, `add x16, x16, #offset`, `br x16`, each
/// instruction with its lowest byte first, and leads to its target, where the
/// target is less than four gigabytes away.
pub proof fn law_thunks_reach_their_targets(thunk_address: u64, target_address: u64)
    ensures
        ({
            let bytes = thunk_bytes(thunk_address, target_address);
            let first = spec_u32_from_le_bytes(bytes.subrange(0, 4));
            let second = spec_u32_from_le_bytes(bytes.subrange(4, 8));
            let third = spec_u32_from_le_bytes(bytes.subrange(8, 12));
            let high = ((first >> 5) & 0x7_ffff) as int;
            let low = ((first >> 29) & 3) as int;
            let pages = sign_extended(high * 4 + low, 21);
            let offset = ((second >> 10) & 0xfff) as int;
            &&& bytes.len() == THUNK_SIZE
            &&& first & 0x9f00_001f == 0x9000_0010
            &&& second & 0xffc0_03ff == 0x9100_0210
            &&& third == 0xd61f_0200
            &&& adrp_pages(first) == pages
            &&& add_offset(second) == offset
            &&& -0x10_0000 <= target_address as int / 4096 - thunk_address as int / 4096
                < 0x10_0000 ==> (thunk_address as int / 4096 + pages) * 4096 + offset
                == target_address
            &&& -0x10_0000 <= target_address / 4096 - thunk_address / 4096 < 0x10_0000 ==> (
            thunk_address / 4096 + adrp_pages(
                adrp_word(page_count(thunk_address, target_address) as u64),
            )) * 4096 + add_offset(add_word(target_address & PAGE_MASK_4KB)) == target_address
        }),
{
    lemma_powers();
    lemma_auto_spec_u32_to_from_le_bytes();
    let pages = page_count(thunk_address, target_address) as u64;
    let word = adrp_word(pages);
    let offset = target_address & PAGE_MASK_4KB;
    let other = add_word(offset);
    let bytes = thunk_bytes(thunk_address, target_address);
    assert(bytes.subrange(0, 4) =~= spec_u32_to_le_bytes(word));
    assert(bytes.subrange(4, 8) =~= spec_u32_to_le_bytes(other));
    assert(bytes.subrange(8, 12) =~= spec_u32_to_le_bytes(BR_X16));
    assert(pages < 0x20_0000);
    let high = (word >> 5) & 0x7_ffff;
    let low = (word >> 29) & 3;
    assert(high as u64 * 4 + low as u64 == pages && word & 0x9f00_001f == 0x9000_0010 && low | (high
        << 2) == pages as u32)
        by (bit_vector)
        requires
            pages < 0x20_0000,
            word == 0x9000_0010u32 | (((pages & 3) as u32) << 29) | (((pages >> 2) & 0x3fff_ffff)
                as u32) << 5,
            high == (word >> 5) & 0x7_ffff,
            low == (word >> 29) & 3,
    ;
    lemma_page_offset(target_address);
    assert((other >> 10) & 0xfff == offset as u32 && other & 0xffc0_03ff == 0x9100_0210)
        by (bit_vector)
        requires
            offset < 4096,
            other == 0x9100_0210u32 | (offset as u32) << 10,
    ;
}

} // verus!
