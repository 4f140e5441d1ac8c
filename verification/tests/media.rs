use std::cell::{Cell, RefCell};
use std::rc::Rc;

use wio_terminal_sd_editor::format::make_boot_sector;
use wio_terminal_sd_editor::storage::{ByteStorage, Recorded};
use wio_terminal_sd_editor::blocks::BlockAccess;
use wio_terminal_sd_editor::stream::SeekFrom;
use wio_terminal_sd_editor::{
    format_fat32, probe_fat, FormatError, FormatGeometry, ProbeError, SdStream, SdStreamError,
};

fn put_u32(out: &mut [u8], value: u32) {
    out.copy_from_slice(&value.to_le_bytes());
}

struct MockBlocks {
    blocks: RefCell<Vec<[u8; 512]>>,
}

impl MockBlocks {
    fn new(count: usize) -> Self {
        Self {
            blocks: RefCell::new(vec![[0; 512]; count]),
        }
    }
}

impl BlockAccess for MockBlocks {
    fn num_blocks(&mut self) -> Result<u32, String> {
        Ok(self.blocks.borrow().len() as u32)
    }

    fn read_block(&mut self, index: u32) -> Result<[u8; 512], String> {
        Ok(self.blocks.borrow()[index as usize])
    }

    fn write_block(&mut self, index: u32, contents: &[u8; 512]) -> Result<(), String> {
        self.blocks.borrow_mut()[index as usize] = *contents;
        Ok(())
    }
}

struct RamDisk {
    bytes: Vec<u8>,
    position: u64,
    fail_writes: Rc<Cell<bool>>,
}

#[derive(Clone, Copy, Debug, PartialEq, Eq)]
struct RamError;

impl ByteStorage for RamDisk {
    type Error = RamError;

    fn seek_start(&mut self, offset: u64) -> Result<(), RamError> {
        if offset > self.bytes.len() as u64 {
            return Err(RamError);
        }
        self.position = offset;
        Ok(())
    }

    fn read_some(&mut self, limit: usize) -> Result<Vec<u8>, RamError> {
        let start = self.position as usize;
        let count = limit.min(self.bytes.len().saturating_sub(start));
        self.position += count as u64;
        Ok(self.bytes[start..start + count].to_vec())
    }

    fn write_all(&mut self, input: &[u8]) -> Result<(), RamError> {
        if self.fail_writes.get() {
            return Err(RamError);
        }
        let start = self.position as usize;
        if start + input.len() > self.bytes.len() {
            return Err(RamError);
        }
        self.bytes[start..start + input.len()].copy_from_slice(input);
        self.position += input.len() as u64;
        Ok(())
    }

    fn flush(&mut self) -> Result<(), RamError> {
        Ok(())
    }
}

#[test]
fn sd_stream_handles_partial_cross_sector_io() {
    let mut stream = SdStream::new(MockBlocks::new(3)).unwrap();
    stream.seek(SeekFrom::Start(510)).unwrap();
    stream.write_whole(b"abcdef").unwrap();
    stream.seek(SeekFrom::Start(510)).unwrap();
    let mut result = [0; 6];
    assert_eq!(stream.read(&mut result).unwrap(), 6);
    assert_eq!(&result, b"abcdef");
    assert_eq!(
        stream.seek(SeekFrom::End(1)),
        Err(SdStreamError::OutOfBounds)
    );
}

#[test]
fn format_erases_stale_gpt_headers() {
    let sectors = 131_072u32;
    let mut disk = RamDisk {
        bytes: vec![0; sectors as usize * 512],
        position: 0,
        fail_writes: Rc::new(Cell::new(false)),
    };
    let last = (sectors as usize - 1) * 512;
    disk.bytes[512..520].copy_from_slice(b"EFI PART");
    disk.bytes[last..last + 8].copy_from_slice(b"EFI PART");

    let mut recorded = Recorded::new(disk);
    format_fat32(&mut recorded, sectors, 0).unwrap();
    let mut disk = recorded.into_inner();

    assert!(disk.bytes[512..1024].iter().all(|&byte| byte == 0));
    assert!(disk.bytes[last..last + 512].iter().all(|&byte| byte == 0));
    disk.position = 0;
    assert!(probe_fat(&mut Recorded::new(disk), sectors).is_ok());
}

#[test]
fn probe_rejects_bpb_larger_than_its_container() {
    let geometry = FormatGeometry {
        partition_start: 0,
        partition_sectors: 100_000,
        sectors_per_cluster: 1,
        fat_sectors: 800,
        cluster_count: 98_368,
        volume_serial: 1,
    };

    let superfloppy = RamDisk {
        bytes: make_boot_sector(&geometry).to_vec(),
        position: 0,
        fail_writes: Rc::new(Cell::new(false)),
    };
    assert_eq!(
        probe_fat(&mut Recorded::new(superfloppy), geometry.partition_sectors - 1),
        Err(ProbeError::Invalid)
    );

    let partition_start = 1u32;
    let partition_sectors = geometry.partition_sectors;
    let mut mbr = vec![0u8; 1024];
    mbr[446 + 4] = 0x0c;
    put_u32(&mut mbr[446 + 8..446 + 12], partition_start);
    put_u32(&mut mbr[446 + 12..446 + 16], partition_sectors);
    mbr[510..512].copy_from_slice(&[0x55, 0xaa]);
    let mut oversized_boot = make_boot_sector(&FormatGeometry {
        partition_start,
        partition_sectors: partition_sectors + 1,
        ..geometry
    });
    put_u32(&mut oversized_boot[32..36], partition_sectors + 1);
    mbr[512..1024].copy_from_slice(&oversized_boot);
    let partitioned = RamDisk {
        bytes: mbr,
        position: 0,
        fail_writes: Rc::new(Cell::new(false)),
    };
    assert_eq!(
        probe_fat(&mut Recorded::new(partitioned), partition_start + partition_sectors),
        Err(ProbeError::Invalid)
    );
}

#[test]
fn probe_rejects_small_fat32_as_unsupported() {
    // Structurally FAT32 (root_entries = 0, fat16 = 0, fat32 set, root
    // cluster at offset 44) but with fewer than 65,525 clusters, as
    // mkfs.vfat -F 32 produces on small media. embedded-sdmmc classifies
    // FAT width by cluster count alone and would mount this as FAT16,
    // misreading the volume, so the probe must refuse it as unsupported
    // rather than let it reach the mount.
    let mut sector = [0u8; 512];
    sector[11..13].copy_from_slice(&512u16.to_le_bytes());
    sector[13] = 1;
    sector[14..16].copy_from_slice(&32u16.to_le_bytes());
    sector[16] = 2;
    sector[32..36].copy_from_slice(&40_000u32.to_le_bytes());
    sector[36..40].copy_from_slice(&320u32.to_le_bytes());
    sector[44..48].copy_from_slice(&2u32.to_le_bytes());
    sector[66] = 0x29;
    sector[67..71].copy_from_slice(&0xdead_beefu32.to_le_bytes());
    sector[510..512].copy_from_slice(&[0x55, 0xaa]);
    let disk = RamDisk {
        bytes: sector.to_vec(),
        position: 0,
        fail_writes: Rc::new(Cell::new(false)),
    };
    assert_eq!(probe_fat(&mut Recorded::new(disk), 40_000), Err(ProbeError::Unsupported));
}

#[test]
fn probe_reports_fat16_layout_and_serial() {
    // A FAT16-layout BPB (root_entries and 16-bit FAT size set): the
    // serial lives at offset 39 and the layout must report fat32 = false
    // so delete-time cluster reclaim stays disabled.
    let mut sector = [0u8; 512];
    sector[11..13].copy_from_slice(&512u16.to_le_bytes());
    sector[13] = 1;
    sector[14..16].copy_from_slice(&1u16.to_le_bytes());
    sector[16] = 2;
    sector[17..19].copy_from_slice(&512u16.to_le_bytes());
    sector[19..21].copy_from_slice(&40_000u16.to_le_bytes());
    sector[22..24].copy_from_slice(&160u16.to_le_bytes());
    sector[39..43].copy_from_slice(&0xfeed_f00du32.to_le_bytes());
    sector[510..512].copy_from_slice(&[0x55, 0xaa]);
    let disk = RamDisk {
        bytes: sector.to_vec(),
        position: 0,
        fail_writes: Rc::new(Cell::new(false)),
    };
    let layout = probe_fat(&mut Recorded::new(disk), 40_000).unwrap();
    assert_eq!(layout.volume_serial, 0xfeed_f00d);
    assert_eq!(layout.sector_count, 40_000);
    assert!(!layout.fat32);
}

#[test]
fn probe_classifies_exfat_and_fat12_as_unsupported() {
    let mut exfat = [0u8; 512];
    exfat[0..3].copy_from_slice(&[0xeb, 0x76, 0x90]);
    exfat[3..11].copy_from_slice(b"EXFAT   ");
    exfat[510..512].copy_from_slice(&[0x55, 0xaa]);
    let disk = RamDisk {
        bytes: exfat.to_vec(),
        position: 0,
        fail_writes: Rc::new(Cell::new(false)),
    };
    assert_eq!(
        probe_fat(&mut Recorded::new(disk), 1_000_000),
        Err(ProbeError::Unsupported)
    );

    // A FAT16-layout BPB whose cluster count lands in FAT12 territory.
    let mut fat12 = [0u8; 512];
    fat12[11..13].copy_from_slice(&512u16.to_le_bytes());
    fat12[13] = 1;
    fat12[14..16].copy_from_slice(&1u16.to_le_bytes());
    fat12[16] = 2;
    fat12[17..19].copy_from_slice(&512u16.to_le_bytes());
    fat12[19..21].copy_from_slice(&2_000u16.to_le_bytes());
    fat12[22..24].copy_from_slice(&8u16.to_le_bytes());
    fat12[510..512].copy_from_slice(&[0x55, 0xaa]);
    let disk = RamDisk {
        bytes: fat12.to_vec(),
        position: 0,
        fail_writes: Rc::new(Cell::new(false)),
    };
    assert_eq!(probe_fat(&mut Recorded::new(disk), 2_000), Err(ProbeError::Unsupported));
}

#[test]
fn probe_skips_damaged_partition_and_finds_later_fat() {
    let geometry = FormatGeometry {
        partition_start: 2_048,
        partition_sectors: 100_000,
        sectors_per_cluster: 1,
        fat_sectors: 800,
        cluster_count: 98_368,
        volume_serial: 0x1234_5678,
    };
    let media = 2_048 + 100_000;
    // Entry 0 is FAT32-typed but points at zeroed sectors; entry 1 holds
    // the healthy partition. The probe must skip the damaged entry
    // instead of failing the whole card.
    let mut bytes = vec![0u8; (2_048 + 1) * 512];
    bytes[446 + 4] = 0x0c;
    put_u32(&mut bytes[446 + 8..446 + 12], 1);
    put_u32(&mut bytes[446 + 12..446 + 16], 100);
    bytes[462 + 4] = 0x0c;
    put_u32(&mut bytes[462 + 8..462 + 12], 2_048);
    put_u32(&mut bytes[462 + 12..462 + 16], 100_000);
    bytes[510..512].copy_from_slice(&[0x55, 0xaa]);
    let boot = make_boot_sector(&geometry);
    bytes[2_048 * 512..2_049 * 512].copy_from_slice(&boot);
    let disk = RamDisk {
        bytes,
        position: 0,
        fail_writes: Rc::new(Cell::new(false)),
    };
    let layout = probe_fat(&mut Recorded::new(disk), media).unwrap();
    assert_eq!(layout.start_lba, 2_048);
    assert_eq!(layout.sector_count, 100_000);
    assert_eq!(layout.volume_serial, 0x1234_5678);
    assert!(layout.fat32);
    // The mount must open the same MBR slot the probe accepted, not
    // blindly slot 0.
    assert_eq!(layout.partition_index, 1);
}

#[test]
fn probe_skips_status_flagged_partition_slot() {
    let geometry = FormatGeometry {
        partition_start: 2_048,
        partition_sectors: 100_000,
        sectors_per_cluster: 1,
        fat_sectors: 800,
        cluster_count: 98_368,
        volume_serial: 0x1234_5678,
    };
    let media = 2_048 + 100_000;
    // Both slots point at the same healthy volume, but slot 0 carries a
    // status byte the mount layer refuses (any bit besides 0x80): the
    // probe must skip it, and must still accept slot 1's legal bootable
    // flag 0x80.
    let mut bytes = vec![0u8; (2_048 + 1) * 512];
    bytes[446] = 0x01;
    bytes[446 + 4] = 0x0c;
    put_u32(&mut bytes[446 + 8..446 + 12], 2_048);
    put_u32(&mut bytes[446 + 12..446 + 16], 100_000);
    bytes[462] = 0x80;
    bytes[462 + 4] = 0x0c;
    put_u32(&mut bytes[462 + 8..462 + 12], 2_048);
    put_u32(&mut bytes[462 + 12..462 + 16], 100_000);
    bytes[510..512].copy_from_slice(&[0x55, 0xaa]);
    let boot = make_boot_sector(&geometry);
    bytes[2_048 * 512..2_049 * 512].copy_from_slice(&boot);
    let disk = RamDisk {
        bytes: bytes.clone(),
        position: 0,
        fail_writes: Rc::new(Cell::new(false)),
    };
    let layout = probe_fat(&mut Recorded::new(disk), media).unwrap();
    assert_eq!(layout.partition_index, 1);
    assert_eq!(layout.volume_serial, 0x1234_5678);

    // With only the flagged slot present the probe finds nothing.
    bytes[462..478].fill(0);
    let disk = RamDisk {
        bytes,
        position: 0,
        fail_writes: Rc::new(Cell::new(false)),
    };
    assert_eq!(probe_fat(&mut Recorded::new(disk), media), Err(ProbeError::Invalid));
}

/// A disk that loses what is written to one of its sectors.
struct Forgetful {
    disk: RamDisk,
    lost: u64,
    fail_reads: bool,
}

impl ByteStorage for Forgetful {
    type Error = RamError;

    fn seek_start(&mut self, offset: u64) -> Result<(), RamError> {
        self.disk.seek_start(offset)
    }

    fn read_some(&mut self, limit: usize) -> Result<Vec<u8>, RamError> {
        if self.fail_reads {
            return Err(RamError);
        }
        // At most a part of what was asked for, as a stream may deliver it.
        self.disk.read_some(limit.min(100))
    }

    fn write_all(&mut self, input: &[u8]) -> Result<(), RamError> {
        if self.disk.position == self.lost * 512 {
            self.disk.position += input.len() as u64;
            return Ok(());
        }
        self.disk.write_all(input)
    }

    fn flush(&mut self) -> Result<(), RamError> {
        self.disk.flush()
    }
}

fn forgetful(sectors: usize, lost: u64) -> Forgetful {
    Forgetful {
        disk: RamDisk {
            bytes: vec![0; sectors * 512],
            position: 0,
            fail_writes: Rc::new(Cell::new(false)),
        },
        lost,
        fail_reads: false,
    }
}

#[test]
fn a_lost_boot_sector_fails_the_format() {
    for lost in [0, 2_048, 2_049] {
        let mut storage = Recorded::new(forgetful(70_000, lost));
        assert_eq!(
            format_fat32(&mut storage, 70_000, 0),
            Err(FormatError::VerifyFailed),
            "sector {lost}"
        );
    }
    let mut storage = Recorded::new(forgetful(70_000, 60_000));
    assert!(format_fat32(&mut storage, 70_000, 0).is_ok());
    assert!(probe_fat(&mut storage, 70_000).is_ok());
}

#[test]
fn failures_of_the_storage_are_reported() {
    let storage = forgetful(70_000, 0);
    storage.disk.fail_writes.set(true);
    let mut storage = Recorded::new(Forgetful {
        lost: 1_000_000,
        ..storage
    });
    assert_eq!(
        format_fat32(&mut storage, 70_000, 0),
        Err(FormatError::Io(RamError))
    );
    let mut storage = Recorded::new(Forgetful {
        fail_reads: true,
        ..forgetful(16, 0)
    });
    assert_eq!(probe_fat(&mut storage, 16), Err(ProbeError::Io(RamError)));
    let empty = forgetful(0, 0);
    assert_eq!(
        probe_fat(&mut Recorded::new(empty), 16),
        Err(ProbeError::Invalid)
    );
}
