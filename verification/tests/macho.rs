use artifact_cache::macho_aarch64::AllowedRange;
use artifact_cache::macho_aarch64::Instruction;
use artifact_cache::macho_aarch64::MachOAArch64;
use artifact_cache::macho_aarch64::RelocationInfo;
use artifact_cache::macho_aarch64::RelocationKind;
use artifact_cache::macho_aarch64::RelocationSize;
use artifact_cache::macho_aarch64::UnknownRelocation;
use artifact_cache::macho_aarch64::PAGE_MASK_4KB;

fn entry(r_type: u8, r_pcrel: bool, r_length: u8) -> RelocationInfo {
    RelocationInfo {
        r_pcrel,
        r_length,
        r_type,
    }
}

#[test]
fn branches_reach_128_megabytes() {
    let info = MachOAArch64::relocation_from_raw(entry(2, true, 2)).unwrap();
    assert_eq!(info.kind, RelocationKind::Relative);
    assert_eq!(
        info.size,
        RelocationSize::BitMasking {
            start: 2,
            end: 28,
            instruction: Instruction::JumpCall
        }
    );
    assert_eq!(
        info.range,
        AllowedRange {
            min: -(1 << 27),
            max: 1 << 27
        }
    );
    assert_eq!(info.alignment, 4);
    assert!(info.thunkable);
}

#[test]
fn pages_and_offsets_are_told_apart() {
    let page = MachOAArch64::relocation_from_raw(entry(3, true, 2)).unwrap();
    assert_eq!(page.page_mask, Some(PAGE_MASK_4KB));
    assert_eq!(
        page.range,
        AllowedRange {
            min: -(1 << 32),
            max: 1 << 32
        }
    );
    assert!(!page.thunkable);
    let kinds: Vec<RelocationKind> = [4, 5, 6, 7, 8, 9]
        .into_iter()
        .map(|r_type| {
            MachOAArch64::relocation_from_raw(entry(r_type, false, 2))
                .unwrap()
                .kind
        })
        .collect();
    assert_eq!(
        kinds,
        vec![
            RelocationKind::AbsoluteLowPart,
            RelocationKind::GotRelative,
            RelocationKind::Got,
            RelocationKind::GotRelative,
            RelocationKind::Relative,
            RelocationKind::AbsoluteLowPart,
        ]
    );
}

#[test]
fn plain_values_take_whole_bytes() {
    let info = MachOAArch64::relocation_from_raw(entry(0, false, 3)).unwrap();
    assert_eq!(info.kind, RelocationKind::Absolute);
    assert_eq!(info.size, RelocationSize::ByteSize(8));
    assert_eq!(
        info.range,
        AllowedRange {
            min: i64::MIN,
            max: i64::MAX
        }
    );
    assert_eq!(
        MachOAArch64::relocation_from_raw(entry(1, false, 2)),
        Err(UnknownRelocation { r_type: 1 })
    );
    assert_eq!(
        MachOAArch64::relocation_from_raw(entry(10, false, 2)),
        Err(UnknownRelocation { r_type: 10 })
    );
}

fn thunk(thunk_address: u64, target_address: u64) -> Vec<u32> {
    let mut buf = vec![0xff; 12];
    MachOAArch64::write_thunk(thunk_address, target_address, &mut buf);
    buf.chunks(4)
        .map(|word| u32::from_le_bytes([word[0], word[1], word[2], word[3]]))
        .collect()
}

#[test]
fn thunks_lead_to_their_targets() {
    // One page ahead, at offset 0x10.
    assert_eq!(
        thunk(0x1_0000_0000, 0x1_0000_1010),
        vec![0xb000_0010, 0x9100_4210, 0xd61f_0200]
    );
    // In the same page.
    assert_eq!(
        thunk(0x1_0000_0000, 0x1_0000_0ffc),
        vec![0x9000_0010, 0x913f_f210, 0xd61f_0200]
    );
    // One page back.
    assert_eq!(thunk(0x1_0000_1000, 0x1_0000_0000)[0], 0xf0ff_fff0);
    let config = MachOAArch64::thunk_config().unwrap();
    assert_eq!(config.thunk_size, 12);
    assert_eq!(config.min_branch_range, 128 * 1024 * 1024);
}
