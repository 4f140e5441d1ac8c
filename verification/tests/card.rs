use std::cell::{Cell, RefCell};
use std::fmt;
use std::ops::ControlFlow;
use std::rc::Rc;

use embedded_sdmmc::{
    Block, BlockCount, BlockDevice, BlockIdx, DirEntry, Error as Sd, FilenameError, LfnBuffer, Mode,
    RawDirectory, RawFile, RawVolume, ShortFileName, TimeSource, Timestamp, VolumeIdx,
    VolumeManager,
};
use wio_terminal_sd_editor::boot::{parse_fat_boot_sector, BootSector};
use wio_terminal_sd_editor::names::NameFault;
use wio_terminal_sd_editor::storage::Recorded;
use wio_terminal_sd_editor::blocks::BlockAccess;
use wio_terminal_sd_editor::tree::MAX_TREE_DEPTH;
use wio_terminal_sd_editor::volume::{
    EntryFacts, EntryRecord, EntryScan, OpenMode, Volume, VolumeAccess,
};
use wio_terminal_sd_editor::{
    fat32_geometry, format_fat32, probe_fat, save_failure_reason, sd_retry, CardFs,
    FixedTimeSource, FsOpError, LoadError, MediaLayout, ProbeError, SaveError,
    SdStream, VolumeError, MAX_DOCUMENT_BYTES,
};

const MOUNTABLE_PARTITION_TYPES: [u8; 5] = [0x04, 0x06, 0x0b, 0x0c, 0x0e];
const KNOWN_UNSUPPORTED_PARTITION_TYPES: [u8; 5] = [0x01, 0x05, 0x07, 0x0f, 0xee];

fn put_u16(out: &mut [u8], value: u16) {
    out.copy_from_slice(&value.to_le_bytes());
}

fn put_u32(out: &mut [u8], value: u32) {
    out.copy_from_slice(&value.to_le_bytes());
}

/// A block device as the library's streams reach it.
struct Blocks<D>(D);

impl<D: BlockDevice> BlockAccess for Blocks<D> {
    fn num_blocks(&mut self) -> Result<u32, String> {
        match self.0.num_blocks() {
            Ok(count) => Ok(count.0),
            Err(error) => Err(format!("{error:?}")),
        }
    }

    fn read_block(&mut self, index: u32) -> Result<[u8; 512], String> {
        let mut block = [Block::new()];
        match self.0.read(&mut block, BlockIdx(index)) {
            Ok(()) => Ok(block[0].contents),
            Err(error) => Err(format!("{error:?}")),
        }
    }

    fn write_block(&mut self, index: u32, contents: &[u8; 512]) -> Result<(), String> {
        let mut block = Block::new();
        block.contents = *contents;
        self.0
            .write(&[block], BlockIdx(index))
            .map_err(|error| format!("{error:?}"))
    }
}

fn stream(ram: &RamBlocks) -> Recorded<SdStream<Blocks<RamBlocks>>> {
    Recorded::new(SdStream::new(Blocks(ram.clone())).unwrap())
}

/// The time that the library stores with what it writes.
struct Clock;

impl TimeSource for Clock {
    fn get_timestamp(&self) -> Timestamp {
        let time = FixedTimeSource.timestamp();
        Timestamp {
            year_since_1970: time.year_since_1970,
            zero_indexed_month: time.zero_indexed_month,
            zero_indexed_day: time.zero_indexed_day,
            hours: time.hours,
            minutes: time.minutes,
            seconds: time.seconds,
        }
    }
}

fn volume_error<E: core::error::Error>(error: Sd<E>) -> VolumeError {
    match error {
        Sd::DeviceError(device) => VolumeError::DeviceError(format!("{device:?}")),
        Sd::FormatError(detail) => VolumeError::FormatError(String::from(detail)),
        Sd::NoSuchVolume => VolumeError::NoSuchVolume,
        Sd::FilenameError(fault) => VolumeError::FilenameError(match fault {
            FilenameError::InvalidCharacter => NameFault::InvalidCharacter,
            FilenameError::FilenameEmpty => NameFault::Empty,
            FilenameError::NameTooLong => NameFault::TooLong,
            FilenameError::MisplacedPeriod => NameFault::MisplacedPeriod,
            FilenameError::Utf8Error => NameFault::NotText,
        }),
        Sd::TooManyOpenVolumes => VolumeError::TooManyOpenVolumes,
        Sd::TooManyOpenDirs => VolumeError::TooManyOpenDirs,
        Sd::TooManyOpenFiles => VolumeError::TooManyOpenFiles,
        Sd::BadHandle => VolumeError::BadHandle,
        Sd::NotFound => VolumeError::NotFound,
        Sd::FileAlreadyOpen => VolumeError::FileAlreadyOpen,
        Sd::DirAlreadyOpen => VolumeError::DirAlreadyOpen,
        Sd::OpenedDirAsFile => VolumeError::OpenedDirAsFile,
        Sd::OpenedFileAsDir => VolumeError::OpenedFileAsDir,
        Sd::DeleteNonEmptyDir => VolumeError::DeleteNonEmptyDir,
        Sd::VolumeStillInUse => VolumeError::VolumeStillInUse,
        Sd::VolumeAlreadyOpen => VolumeError::VolumeAlreadyOpen,
        Sd::Unsupported => VolumeError::Unsupported,
        Sd::EndOfFile => VolumeError::EndOfFile,
        Sd::BadCluster => VolumeError::BadCluster,
        Sd::ConversionError => VolumeError::ConversionError,
        Sd::NotEnoughSpace => VolumeError::NotEnoughSpace,
        Sd::AllocationError => VolumeError::AllocationError,
        Sd::UnterminatedFatChain => VolumeError::UnterminatedFatChain,
        Sd::ReadOnly => VolumeError::ReadOnly,
        Sd::FileAlreadyExists => VolumeError::FileAlreadyExists,
        Sd::BadBlockSize(size) => VolumeError::BadBlockSize(size),
        Sd::InvalidOffset => VolumeError::InvalidOffset,
        Sd::DiskFull => VolumeError::DiskFull,
        Sd::DirAlreadyExists => VolumeError::DirAlreadyExists,
        Sd::LockError => VolumeError::LockError,
    }
}

fn record(entry: &DirEntry, long_name: Option<&str>) -> EntryRecord {
    EntryRecord {
        name: entry.name.to_string(),
        long_name: long_name.map(String::from),
        dot: entry.name == ShortFileName::this_dir() || entry.name == ShortFileName::parent_dir(),
        volume_label: entry.attributes.is_volume(),
        long_name_part: entry.attributes.is_lfn(),
        directory: entry.attributes.is_directory(),
        read_only: entry.attributes.is_read_only(),
        hidden: entry.attributes.is_hidden(),
        system: entry.attributes.is_system(),
        size: entry.size,
    }
}

/// Hand one entry to the scan, and say whether the walk goes on.
fn visit(scan: &mut Option<EntryScan>, entry: EntryRecord) -> ControlFlow<()> {
    let Some(before) = scan.take() else {
        return ControlFlow::Break(());
    };
    let after = before.visit(entry);
    let over = after.is_over();
    *scan = Some(after);
    if over {
        ControlFlow::Break(())
    } else {
        ControlFlow::Continue(())
    }
}

/// One volume of a card, through embedded-sdmmc.
struct SdVolume<D: BlockDevice> {
    manager: Rc<VolumeManager<D, Clock>>,
    volume: Rc<Cell<Option<RawVolume>>>,
}

impl<D: BlockDevice> Clone for SdVolume<D> {
    fn clone(&self) -> Self {
        SdVolume {
            manager: self.manager.clone(),
            volume: self.volume.clone(),
        }
    }
}

impl<D: BlockDevice> SdVolume<D> {
    fn new(device: D) -> Self {
        SdVolume {
            manager: Rc::new(VolumeManager::new(device, Clock)),
            volume: Rc::new(Cell::new(None)),
        }
    }
}

impl<D: BlockDevice> VolumeAccess for SdVolume<D> {
    type Dir = RawDirectory;
    type File = RawFile;

    fn read_sector(&mut self, lba: u32) -> Option<[u8; 512]> {
        let mut block = [Block::new()];
        self.manager
            .device(|device| device.read(&mut block, BlockIdx(lba)))
            .ok()?;
        Some(block[0].contents)
    }

    fn write_sector(&mut self, lba: u32, contents: &[u8; 512]) -> bool {
        let mut block = Block::new();
        block.contents = *contents;
        self.manager
            .device(|device| device.write(&[block], BlockIdx(lba)))
            .is_ok()
    }

    fn drop_cache(&mut self) {
        self.manager.device(|_| ());
    }

    fn open_volume(&mut self, partition: u8) -> Result<(), VolumeError> {
        let volume = self
            .manager
            .open_raw_volume(VolumeIdx(usize::from(partition)))
            .map_err(volume_error)?;
        self.volume.set(Some(volume));
        Ok(())
    }

    fn close_volume(&mut self) -> Result<(), VolumeError> {
        let volume = self.volume.get().ok_or(VolumeError::BadHandle)?;
        self.manager.close_volume(volume).map_err(volume_error)
    }

    fn open_root_dir(&mut self) -> Result<RawDirectory, VolumeError> {
        let volume = self.volume.get().ok_or(VolumeError::BadHandle)?;
        self.manager.open_root_dir(volume).map_err(volume_error)
    }

    fn open_dir(&mut self, parent: RawDirectory, name: &str) -> Result<RawDirectory, VolumeError> {
        self.manager.open_dir(parent, name).map_err(volume_error)
    }

    fn close_dir(&mut self, dir: RawDirectory) {
        let _ = self.manager.close_dir(dir);
    }

    fn find_entry(&mut self, dir: RawDirectory, name: &str) -> Result<EntryFacts, VolumeError> {
        let entry = self
            .manager
            .find_directory_entry(dir, name)
            .map_err(volume_error)?;
        Ok(EntryFacts {
            directory: entry.attributes.is_directory(),
            read_only: entry.attributes.is_read_only(),
            size: entry.size,
        })
    }

    fn iterate_dir(&mut self, dir: RawDirectory, scan: EntryScan) -> Result<EntryScan, VolumeError> {
        let long_names = scan.wants_long_names();
        let mut held = Some(scan);
        if long_names {
            let mut storage = [0u8; 768];
            let mut buffer = LfnBuffer::new(&mut storage);
            self.manager
                .iterate_dir_lfn(dir, &mut buffer, |entry, long_name| {
                    visit(&mut held, record(entry, long_name))
                })
                .map_err(volume_error)?;
        } else {
            self.manager
                .iterate_dir(dir, |entry| visit(&mut held, record(entry, None)))
                .map_err(volume_error)?;
        }
        held.ok_or(VolumeError::LockError)
    }

    fn make_dir(&mut self, dir: RawDirectory, name: &str) -> Result<(), VolumeError> {
        self.manager.make_dir_in_dir(dir, name).map_err(volume_error)
    }

    fn delete_entry(&mut self, dir: RawDirectory, name: &str) -> Result<(), VolumeError> {
        self.manager.delete_entry_in_dir(dir, name).map_err(volume_error)
    }

    fn open_file(
        &mut self,
        dir: RawDirectory,
        name: &str,
        mode: OpenMode,
    ) -> Result<RawFile, VolumeError> {
        let mode = match mode {
            OpenMode::ReadOnly => Mode::ReadOnly,
            OpenMode::ReadWriteTruncate => Mode::ReadWriteTruncate,
            OpenMode::ReadWriteCreate => Mode::ReadWriteCreate,
            OpenMode::ReadWriteCreateOrTruncate => Mode::ReadWriteCreateOrTruncate,
        };
        self.manager.open_file_in_dir(dir, name, mode).map_err(volume_error)
    }

    fn read(&mut self, file: RawFile, limit: usize) -> Result<Vec<u8>, VolumeError> {
        let mut bytes = vec![0u8; limit];
        let count = self.manager.read(file, &mut bytes).map_err(volume_error)?;
        bytes.truncate(count);
        Ok(bytes)
    }

    fn write(&mut self, file: RawFile, bytes: &[u8]) -> Result<(), VolumeError> {
        self.manager.write(file, bytes).map_err(volume_error)
    }

    fn close_file(&mut self, file: RawFile) -> Result<(), VolumeError> {
        self.manager.close_file(file).map_err(volume_error)
    }
}

type RamCard = CardFs<SdVolume<RamBlocks>>;

fn mount<D: BlockDevice>(
    device: D,
    layout: MediaLayout,
) -> Result<CardFs<SdVolume<D>>, VolumeError> {
    assert!(layout.start_lba.checked_add(layout.sector_count).is_some());
    CardFs::mount(SdVolume::new(device), layout)
}

/// A freshly formatted card, the filesystem layer over it, and the card mounted.
fn formatted_card(sectors: u32) -> (RamBlocks, SdVolume<RamBlocks>, RamCard) {
    let ram = RamBlocks::new(sectors);
    format_fat32(&mut stream(&ram), sectors, 0).unwrap();
    let layout = probe_fat(&mut stream(&ram), sectors).unwrap();
    let layer = SdVolume::new(ram.clone());
    let fs = CardFs::mount(layer.clone(), layout).unwrap();
    (ram, layer, fs)
}

/// A freshly formatted 64 MiB volume, mounted.
fn formatted_fs(sectors: u32) -> (RamBlocks, RamCard) {
    let (ram, _, fs) = formatted_card(sectors);
    (ram, fs)
}

fn read_device_sector(ram: &RamBlocks, lba: u32) -> Option<[u8; 512]> {
    SdVolume::new(ram.clone()).read_sector(lba)
}

#[derive(Clone, Copy, Debug, PartialEq, Eq)]
struct RamError;

impl fmt::Display for RamError {
    fn fmt(&self, f: &mut fmt::Formatter<'_>) -> fmt::Result {
        f.write_str("RAM disk error")
    }
}

impl core::error::Error for RamError {}

#[derive(Clone)]
struct RamBlocks {
    blocks: Rc<RefCell<Vec<Block>>>,
    fail_writes: Rc<Cell<bool>>,
    /// After this many successful writes, silently flip one byte of the
    /// next write (then behave normally). Downstream this surfaces as
    /// `VerifyFailed` -- a non-device error -- unlike `fail_writes`'
    /// hard device fault, which is the distinction the save/move cleanup
    /// gating turns on.
    corrupt_one_write_after: Rc<Cell<Option<u32>>>,
    /// After this many successful writes, latch `fail_writes`: a card
    /// that dies mid-operation and stays dead.
    fail_writes_after: Rc<Cell<Option<u32>>>,
    /// After this many write calls, fail exactly one write, then behave
    /// normally: a transient write flake.
    fail_one_write_after: Rc<Cell<Option<u32>>>,
    /// After this many write calls the card dies completely: every later
    /// read AND write fails until `fail_writes`/`fail_reads` are cleared.
    die_after_writes: Rc<Cell<Option<u32>>>,
    /// Latched total read failure (a dead card).
    fail_reads: Rc<Cell<bool>>,
    writes_seen: Rc<Cell<u32>>,
    reads_seen: Rc<Cell<u32>>,
    /// Fail this many read calls, then behave normally: the transient
    /// per-command misses real cards produce.
    fail_next_reads: Rc<Cell<u32>>,
    /// After this many read calls, fail exactly one read, then behave
    /// normally: a transient read flake at a chosen position.
    fail_one_read_after: Rc<Cell<Option<u32>>>,
    /// Fail every read whose block range intersects `[start, end)`: a
    /// region (e.g. the whole FAT) that stops answering. The manager's
    /// directory walks launder such chain-read failures into NotFound
    /// on *every* walk -- the correlated double-laundered residue the
    /// single-flake knobs cannot produce.
    fail_reads_in: Rc<Cell<Option<(u32, u32)>>>,
    /// Failure budget for `fail_reads_in`: while set, each failure the
    /// region produces decrements it, and at zero both knobs clear --
    /// a region that stops answering and then heals, which a
    /// double-laundered scan miss followed by an honest later walk
    /// requires. `None` keeps the region dead for good.
    fail_reads_in_budget: Rc<Cell<Option<u32>>>,
}

impl RamBlocks {
    fn new(sectors: u32) -> Self {
        Self {
            blocks: Rc::new(RefCell::new(vec![Block::new(); sectors as usize])),
            fail_writes: Rc::new(Cell::new(false)),
            corrupt_one_write_after: Rc::new(Cell::new(None)),
            fail_writes_after: Rc::new(Cell::new(None)),
            fail_one_write_after: Rc::new(Cell::new(None)),
            die_after_writes: Rc::new(Cell::new(None)),
            fail_reads: Rc::new(Cell::new(false)),
            writes_seen: Rc::new(Cell::new(0)),
            reads_seen: Rc::new(Cell::new(0)),
            fail_next_reads: Rc::new(Cell::new(0)),
            fail_one_read_after: Rc::new(Cell::new(None)),
            fail_reads_in: Rc::new(Cell::new(None)),
            fail_reads_in_budget: Rc::new(Cell::new(None)),
        }
    }
}

/// Advance a fault knob's countdown by one call: `true` exactly when the
/// countdown expires on this call (the knob then clears so it fires
/// once). Every positioned knob shares this decrement.
fn countdown_fired(cell: &Cell<Option<u32>>) -> bool {
    match cell.get() {
        Some(0) => {
            cell.set(None);
            true
        }
        Some(remaining) => {
            cell.set(Some(remaining - 1));
            false
        }
        None => false,
    }
}

impl BlockDevice for RamBlocks {
    type Error = RamError;

    fn read(&self, output: &mut [Block], start: BlockIdx) -> Result<(), RamError> {
        if self.fail_reads.get() {
            return Err(RamError);
        }
        let failures = self.fail_next_reads.get();
        if failures > 0 {
            self.fail_next_reads.set(failures - 1);
            return Err(RamError);
        }
        if countdown_fired(&self.fail_one_read_after) {
            return Err(RamError);
        }
        if let Some((region_start, region_end)) = self.fail_reads_in.get() {
            let first = start.0;
            if first < region_end && first + output.len() as u32 > region_start {
                match self.fail_reads_in_budget.get() {
                    // Budget spent: the region heals and this read is
                    // served normally.
                    Some(0) => {
                        self.fail_reads_in.set(None);
                        self.fail_reads_in_budget.set(None);
                    }
                    Some(remaining) => {
                        self.fail_reads_in_budget.set(Some(remaining - 1));
                        return Err(RamError);
                    }
                    None => return Err(RamError),
                }
            }
        }
        let blocks = self.blocks.borrow();
        let start = start.0 as usize;
        let end = start + output.len();
        if end > blocks.len() {
            return Err(RamError);
        }
        output.clone_from_slice(&blocks[start..end]);
        self.reads_seen.set(self.reads_seen.get() + 1);
        Ok(())
    }

    fn write(&self, input: &[Block], start: BlockIdx) -> Result<(), RamError> {
        // die_after_writes latches before fail_writes_after so a test
        // may arm both; the test below then sees either latch.
        if countdown_fired(&self.die_after_writes) {
            self.fail_writes.set(true);
            self.fail_reads.set(true);
        }
        if countdown_fired(&self.fail_writes_after) {
            self.fail_writes.set(true);
        }
        if self.fail_writes.get() {
            return Err(RamError);
        }
        if countdown_fired(&self.fail_one_write_after) {
            return Err(RamError);
        }
        let mut blocks = self.blocks.borrow_mut();
        let start = start.0 as usize;
        let end = start + input.len();
        if end > blocks.len() {
            return Err(RamError);
        }
        blocks[start..end].clone_from_slice(input);
        if countdown_fired(&self.corrupt_one_write_after) {
            blocks[start].contents[0] ^= 0xff;
        }
        self.writes_seen.set(self.writes_seen.get() + 1);
        Ok(())
    }

    fn num_blocks(&self) -> Result<BlockCount, RamError> {
        Ok(BlockCount(self.blocks.borrow().len() as u32))
    }
}

/// Device-level retry parity with the firmware's controller device
/// (recovery is a no-op for RAM). Used only where a test injects the
/// transient faults that the library itself does not retry.
#[derive(Clone)]
struct RetryBlocks(RamBlocks);

impl BlockDevice for RetryBlocks {
    type Error = RamError;

    fn read(&self, output: &mut [Block], start: BlockIdx) -> Result<(), RamError> {
        sd_retry(|| self.0.read(output, start))
    }

    fn write(&self, input: &[Block], start: BlockIdx) -> Result<(), RamError> {
        sd_retry(|| self.0.write(input, start))
    }

    fn num_blocks(&self) -> Result<BlockCount, RamError> {
        sd_retry(|| self.0.num_blocks())
    }
}

/// Root-directory entry names beginning with `~WIO` (staging leftovers).
fn staging_leftovers(fs: &mut RamCard) -> Vec<String> {
    let (page, _) = fs.read_directory_page("/", 0, 8).unwrap();
    page.into_iter()
        .map(|item| item.name)
        .filter(|name| name.starts_with("~WIO"))
        .collect()
}

/// Writes consumed by a save's staging steps (TMP write + BAK copy),
/// measured on a twin fixture with an identical write history, so
/// injection tests can aim at the commit step deterministically.
fn staging_write_count(new_contents: &[u8], original: &[u8]) -> u32 {
    let (ram, mut fs) = formatted_fs(131_072);
    fs.save_verified("/FILE.TXT", original).unwrap();
    let before = ram.writes_seen.get();
    fs.save_verified("/~WIO0000.TMP", new_contents).unwrap();
    fs.copy_file_contents("/FILE.TXT", "/~WIO0000.BAK", OpenMode::ReadWriteCreate)
        .unwrap();
    ram.writes_seen.get() - before
}

#[test]
fn formatted_media_mounts_and_round_trips() {
    let sectors = 131_072u32;
    let ram = RamBlocks::new(sectors);
    let fail_writes = ram.fail_writes.clone();
    let geometry = format_fat32(&mut stream(&ram), sectors, 0).unwrap();
    let layout = probe_fat(&mut stream(&ram), sectors).unwrap();
    assert_eq!(layout.start_lba, geometry.partition_start);
    assert_eq!(layout.partition_index, 0);
    assert!(layout.fat32);
    let mut fs = mount(ram.clone(), layout).unwrap();

    fs.save_verified("/FIRST.TXT", b"hello").unwrap();
    assert_eq!(fs.read_file("/FIRST.TXT").unwrap(), b"hello");
    fs.save_transactional("/FIRST.TXT", b"replacement").unwrap();
    assert_eq!(fs.read_file("/FIRST.TXT").unwrap(), b"replacement");
    fs.save_transactional("/BRANDNEW.TXT", b"created by save")
        .unwrap();
    assert_eq!(fs.read_file("/BRANDNEW.TXT").unwrap(), b"created by save");
    fs.create_empty("/EMPTY.TXT").unwrap();
    fs.save_verified("/EMPTY.TXT", b"first contents").unwrap();
    assert!(matches!(
        fs.create_empty("/FIRST.TXT"),
        Err(FsOpError::AlreadyExists)
    ));

    let (page, total) = fs.read_directory_page("/", 0, 8).unwrap();
    assert_eq!(total, 3);
    let names: Vec<String> = page.iter().map(|item| item.name.clone()).collect();
    // EMPTY.TXT reused the directory slot freed by BRANDNEW.TXT's
    // deleted ~WIO0000.TMP staging file, so it lists second.
    assert_eq!(
        names,
        vec![
            String::from("FIRST.TXT"),
            String::from("EMPTY.TXT"),
            String::from("BRANDNEW.TXT")
        ]
    );
    assert_eq!(page[0].path, "/FIRST.TXT");
    let (rest, _) = fs.read_directory_page("/", 2, 8).unwrap();
    assert_eq!(rest[0].name, "BRANDNEW.TXT");
    assert_eq!(fs.entry_index("/", "/EMPTY.TXT").unwrap(), Some(1));

    fs.create_directory_verified("/PROJECTS").unwrap();
    fs.create_directory_verified("/ARCHIVE").unwrap();
    fs.create_directory_verified("/PROJECTS/NESTED").unwrap();
    fs.create_empty("/PROJECTS/NESTED/README.TXT").unwrap();
    assert!(matches!(
        fs.create_directory_verified("/PROJECTS"),
        Err(FsOpError::AlreadyExists)
    ));

    let (folders, folder_total) = fs
        .read_directory_folders_page("/", 0, 8, Some("/ARCHIVE"))
        .unwrap();
    assert_eq!(folder_total, 1);
    assert_eq!(folders[0].name, "PROJECTS");

    fs.move_entry_verified("/EMPTY.TXT", "/RENAMED.TXT")
        .unwrap();
    assert_eq!(fs.read_file("/RENAMED.TXT").unwrap(), b"first contents");
    assert!(!fs.entry_exists("/EMPTY.TXT").unwrap());
    fs.move_entry_verified("/RENAMED.TXT", "/PROJECTS/RENAMED.TXT")
        .unwrap();
    assert_eq!(
        fs.read_file("/PROJECTS/RENAMED.TXT").unwrap(),
        b"first contents"
    );
    assert!(matches!(
        fs.move_entry_verified("/FIRST.TXT", "/PROJECTS/RENAMED.TXT"),
        Err(FsOpError::AlreadyExists)
    ));
    assert!(matches!(
        fs.move_entry_verified("/PROJECTS", "/PROJECTS/NESTED/LOOPED"),
        Err(FsOpError::MoveIntoSelf)
    ));
    fs.move_entry_verified("/PROJECTS/NESTED", "/ARCHIVE/NESTED")
        .unwrap();
    assert_eq!(fs.read_file("/ARCHIVE/NESTED/README.TXT").unwrap(), b"");
    assert!(!fs.entry_exists("/PROJECTS/NESTED").unwrap());

    fs.delete_verified("/FIRST.TXT", false).unwrap();
    fs.delete_verified("/PROJECTS", true).unwrap();
    fs.delete_verified("/ARCHIVE", true).unwrap();
    assert!(!fs.entry_exists("/PROJECTS").unwrap());
    assert!(!fs.entry_exists("/ARCHIVE").unwrap());

    fs.create_empty("/DURABLE.TXT").unwrap();
    fs.save_verified("/DURABLE.TXT", b"old contents").unwrap();

    // A failed write must never be reported as success, even though the
    // manager could serve the intended state from its block cache. The
    // staged temporary write fails before the target is touched.
    fail_writes.set(true);
    assert!(matches!(
        fs.save_transactional("/DURABLE.TXT", b"new contents"),
        Err(ref error) if error.error.is_device_error()
    ));
    assert!(matches!(
        fs.create_directory_verified("/MUSTFAIL"),
        Err(ref error) if error.is_device_error()
    ));
    assert!(matches!(
        fs.create_empty("/ALSOFAIL.TXT"),
        Err(ref error) if error.is_device_error()
    ));
    fail_writes.set(false);
    assert_eq!(fs.read_file("/DURABLE.TXT").unwrap(), b"old contents");

    // Remount and confirm the old contents actually reached the "card"
    // rather than surviving only in the manager's cache.
    drop(fs);
    let mut fs = mount(ram.clone(), layout).unwrap();
    assert_eq!(fs.read_file("/DURABLE.TXT").unwrap(), b"old contents");
}

#[test]
fn long_names_are_listed_and_open_via_short_alias() {
    let sectors = 131_072u32;
    let ram = RamBlocks::new(sectors);
    let geometry = format_fat32(&mut stream(&ram), sectors, 0).unwrap();

    // Hand-write an LFN fragment + short-name pair into the empty root
    // directory: embedded-sdmmc reads long names but can never create
    // them, so the fixture builds what a PC would have written.
    let short = ShortFileName::create_from_str("ALONGF~1.TXT").unwrap();
    let long_name: Vec<u16> = "A long nm.txt".encode_utf16().collect();
    assert_eq!(long_name.len(), 13);
    let mut entries = [0u8; 64];
    entries[0] = 0x41; // sequence 1, end of chain
    entries[11] = 0x0f; // long-filename attribute
    entries[13] = short.csum();
    let unit_offsets: [usize; 13] = [1, 3, 5, 7, 9, 14, 16, 18, 20, 22, 24, 28, 30];
    for (unit, offset) in long_name.iter().zip(unit_offsets) {
        entries[offset..offset + 2].copy_from_slice(&unit.to_le_bytes());
    }
    entries[32..43].copy_from_slice(b"ALONGF~1TXT");
    entries[43] = 0x20; // archive attribute; cluster and size stay zero
    let root_lba = geometry.partition_start + 32 + 2 * geometry.fat_sectors;
    ram.blocks.borrow_mut()[root_lba as usize].contents[..64].copy_from_slice(&entries);

    let layout = probe_fat(&mut stream(&ram), sectors).unwrap();
    let mut fs = mount(ram.clone(), layout).unwrap();
    let (page, total) = fs.read_directory_page("/", 0, 8).unwrap();
    assert_eq!(total, 1);
    assert_eq!(page[0].name, "A long nm.txt");
    assert_eq!(page[0].path, "/ALONGF~1.TXT");
    assert!(fs.load_text("/ALONGF~1.TXT").unwrap().bytes().is_empty());
}

#[test]
fn save_refuses_target_larger_than_document_limit() {
    let (_ram, mut fs) = formatted_fs(131_072);
    // A target beyond MAX_DOCUMENT_BYTES can only mean the file grew on
    // another machine (the editor cannot load one). The save must refuse
    // cleanly and touch nothing.
    let oversized = vec![0x41u8; MAX_DOCUMENT_BYTES + 1];
    fs.save_verified("/GROWN.TXT", &oversized).unwrap();
    assert!(matches!(
        fs.save_transactional("/GROWN.TXT", b"small"),
        Err(SaveError {
            error: FsOpError::TooLarge,
            ..
        })
    ));
    assert_eq!(fs.read_file("/GROWN.TXT").unwrap(), oversized);
    assert!(staging_leftovers(&mut fs).is_empty());
}

#[test]
fn save_rolls_back_from_backup_when_commit_verify_fails() {
    let original = vec![0x55u8; 2048];
    let new_contents = vec![0xaau8; 2048];
    let staging = staging_write_count(&new_contents, &original);
    let mut rollback_proven = false;
    // Sweep a single-write corruption across every write of the commit
    // and cleanup steps. Data-write hits fail the commit's read-back
    // verification and must leave the target restored from the on-card
    // backup with no staging leftovers; whichever writes the sweep lands
    // on, the loop ends with the uncorrupted control run succeeding.
    for extra in 0.. {
        let (ram, mut fs) = formatted_fs(131_072);
        fs.save_verified("/FILE.TXT", &original).unwrap();
        ram.corrupt_one_write_after.set(Some(staging + extra));
        let result = fs.save_transactional("/FILE.TXT", &new_contents);
        if ram.corrupt_one_write_after.get().is_some() {
            // The injection point lies beyond the whole save: control run.
            assert!(result.is_ok());
            break;
        }
        if matches!(
            result,
            Err(SaveError {
                error: FsOpError::VerifyFailed,
                ..
            })
        ) && fs
            .read_file("/FILE.TXT")
            .is_ok_and(|bytes| bytes == original)
            && staging_leftovers(&mut fs).is_empty()
        {
            rollback_proven = true;
        }
    }
    assert!(rollback_proven);
}

#[test]
fn save_leaves_staging_files_when_the_card_dies_at_commit() {
    let original = vec![0x55u8; 2048];
    let new_contents = vec![0xaau8; 2048];
    let staging = staging_write_count(&new_contents, &original);
    let (ram, mut fs) = formatted_fs(131_072);
    fs.save_verified("/FILE.TXT", &original).unwrap();
    // The first commit write hits a card that stays dead: after a device
    // error no further mutations are trustworthy, so both staging copies
    // must survive as the recovery data the doc comment promises.
    ram.fail_writes_after.set(Some(staging));
    let result = fs.save_transactional("/FILE.TXT", &new_contents);
    let error = result.expect_err("the dead card cannot commit");
    assert!(error.error.is_device_error());
    // The headline of the SaveError plumbing: the caller learns the
    // surviving backup's name so the user can be pointed at it.
    assert_eq!(error.backup_kept.as_deref(), Some("/~WIO0000.BAK"));
    ram.fail_writes.set(false);
    assert_eq!(fs.read_file("/~WIO0000.TMP").unwrap(), new_contents);
    assert_eq!(fs.read_file("/~WIO0000.BAK").unwrap(), original);
}

#[test]
fn kept_backup_is_never_a_truncated_ghost() {
    // On FAT32 a delete truncates before removing the entry, so a
    // backup whose delete failed after a successful (verified) restore
    // may be a zero-byte ghost; reporting it as a kept backup would
    // point the user at a worthless file and bury the real error.
    // (FAT16, whose deletes never truncate, has its own test below.)
    let original = vec![0x55u8; 2048];
    let new_contents = vec![0xaau8; 2048];
    let staging = staging_write_count(&new_contents, &original);
    // Find a corruption position that makes the commit's verify fail
    // and the rollback restore the target -- corruption of rewritten
    // or unverified metadata blocks does neither, so the position must
    // be searched for, exactly as the rollback test proves it exists.
    let mut trigger = None;
    for extra in 0.. {
        let (ram, mut fs) = formatted_fs(131_072);
        fs.save_verified("/FILE.TXT", &original).unwrap();
        ram.corrupt_one_write_after.set(Some(staging + extra));
        let result = fs.save_transactional("/FILE.TXT", &new_contents);
        if ram.corrupt_one_write_after.get().is_some() {
            break;
        }
        if matches!(
            result,
            Err(SaveError {
                error: FsOpError::VerifyFailed,
                ..
            })
        ) && fs
            .read_file("/FILE.TXT")
            .is_ok_and(|bytes| bytes == original)
        {
            trigger = Some(extra);
            break;
        }
    }
    let trigger = trigger.expect("a commit-verify-failing corruption position");
    // With the verify failure pinned, sweep a latched write failure
    // across the commit's remainder and the whole rollback: whenever a
    // backup is reported kept it must hold the original bytes, and a
    // completed restore must never report one.
    for extra in 0..120u32 {
        let (ram, mut fs) = formatted_fs(131_072);
        fs.save_verified("/FILE.TXT", &original).unwrap();
        ram.corrupt_one_write_after.set(Some(staging + trigger));
        ram.fail_writes_after.set(Some(staging + trigger + 1 + extra));
        let result = fs.save_transactional("/FILE.TXT", &new_contents);
        ram.fail_writes.set(false);
        ram.fail_writes_after.set(None);
        ram.corrupt_one_write_after.set(None);
        let Err(save_error) = result else {
            continue;
        };
        if let Some(kept) = &save_error.backup_kept {
            // An unreadable backup (truncate freed its chain) is as
            // much a ghost as an empty one.
            assert_eq!(
                fs.read_file(kept).unwrap_or_default(),
                original,
                "extra {extra}: kept backup does not hold the original"
            );
        }
        if fs
            .read_file("/FILE.TXT")
            .is_ok_and(|bytes| bytes == original)
            && matches!(save_error.error, FsOpError::VerifyFailed)
        {
            // The rollback restored the target from the backup; the
            // backup has served its purpose and must not be advertised.
            assert_eq!(
                save_error.backup_kept, None,
                "extra {extra}: restored target still advertises a backup"
            );
        }
    }
}

/// The FAT16 twin of `staging_write_count`: writes consumed by a
/// save's staging steps on the FAT16 fixture, measured on a twin with
/// an identical write history.
fn fat16_staging_write_count(new_contents: &[u8], original: &[u8]) -> u32 {
    let (ram, layout) = fat16_media();
    let mut fs = mount(ram.clone(), layout).unwrap();
    fs.save_verified("/FILE.TXT", original).unwrap();
    let before = ram.writes_seen.get();
    fs.save_verified("/~WIO0000.TMP", new_contents).unwrap();
    fs.copy_file_contents("/FILE.TXT", "/~WIO0000.BAK", OpenMode::ReadWriteCreate)
        .unwrap();
    ram.writes_seen.get() - before
}

#[test]
fn fat16_refused_backup_delete_reports_the_kept_backup() {
    // FAT16 deletes never truncate (the FAT32-only reclaim is gated
    // off), so a backup whose delete was refused after a successful
    // restore still holds the complete original contents. Silently
    // dropping it would strand a full-size hidden file on the card;
    // unlike the FAT32 ghost case above, it must be reported.
    let original = vec![0x55u8; 2048];
    let new_contents = vec![0xaau8; 2048];
    let staging = fat16_staging_write_count(&new_contents, &original);
    let build = || {
        let (ram, layout) = fat16_media();
        let mut fs = mount(ram.clone(), layout).unwrap();
        fs.save_verified("/FILE.TXT", &original).unwrap();
        (ram, fs)
    };
    // Find a corruption position that makes the commit's verify fail
    // and the rollback restore the target, exactly as the FAT32 test
    // above does.
    let mut trigger = None;
    for extra in 0.. {
        let (ram, mut fs) = build();
        ram.corrupt_one_write_after.set(Some(staging + extra));
        let result = fs.save_transactional("/FILE.TXT", &new_contents);
        if ram.corrupt_one_write_after.get().is_some() {
            break;
        }
        if matches!(
            result,
            Err(SaveError {
                error: FsOpError::VerifyFailed,
                ..
            })
        ) && fs
            .read_file("/FILE.TXT")
            .is_ok_and(|bytes| bytes == original)
        {
            trigger = Some(extra);
            break;
        }
    }
    let trigger = trigger.expect("a commit-verify-failing corruption position");
    // With the verify failure pinned, sweep a latched write death
    // across the rollback. Wherever the restore landed but a
    // full-content backup survived, it must be named.
    let mut proven = false;
    for extra in 0..120u32 {
        let (ram, mut fs) = build();
        ram.corrupt_one_write_after.set(Some(staging + trigger));
        ram.fail_writes_after.set(Some(staging + trigger + 1 + extra));
        let result = fs.save_transactional("/FILE.TXT", &new_contents);
        ram.fail_writes.set(false);
        ram.fail_writes_after.set(None);
        ram.corrupt_one_write_after.set(None);
        let Err(save_error) = result else {
            continue;
        };
        if let Some(kept) = &save_error.backup_kept {
            // On FAT16 a kept backup is never a ghost: no truncate
            // ever ran, so it must hold the complete original.
            assert_eq!(
                fs.read_file(kept).unwrap_or_default(),
                original,
                "extra {extra}: kept backup does not hold the original"
            );
        }
        if fs
            .read_file("/FILE.TXT")
            .is_ok_and(|bytes| bytes == original)
            && fs.entry_exists("/~WIO0000.BAK").unwrap_or(false)
            && matches!(save_error.error, FsOpError::VerifyFailed)
        {
            // The restore landed and a full-content backup survives on
            // the card: it must be advertised, never silently dropped.
            assert_eq!(
                save_error.backup_kept.as_deref(),
                Some("/~WIO0000.BAK"),
                "extra {extra}: full-content backup survived unreported"
            );
            if !fs.entry_exists("/~WIO0000.TMP").unwrap_or(true) {
                // The temporary's delete succeeded and only the
                // backup's delete was refused, which is not a completed
                // cleanup.
                proven = true;
            }
        }
    }
    assert!(proven, "the sweep never refused only the backup's delete");
}

#[test]
fn save_deletes_its_own_temporary_when_a_missed_backup_blocks_staging() {
    // A FAT-region outage during the staging-name scan launders both
    // confirmed lookups into "absent" (the correlated double-flake
    // residue single flakes cannot produce), so the save picks a
    // suffix whose ~WIO*.BAK actually exists. The temporary then
    // stages and verifies, and the backup copy's creating open --
    // against a healed card -- finds the real backup and refuses with
    // AlreadyExists. No rollback follows (the blocking entry
    // pre-existed and must survive), but the temporary is this save's
    // own verified creation and must not be stranded.
    let original = b"original contents".to_vec();
    let mut proven = false;
    for budget in 1..=8u32 {
        let (ram, mut layer, mut fs) = formatted_card(131_072);
        fs.create_directory_verified("/DIR").unwrap();
        // Fill the directory's first cluster (16 entries: dot, dotdot,
        // and 14 files) so the staging names' lookups must step the
        // FAT chain past it -- the step a region outage launders.
        for index in 0..14u32 {
            fs.create_empty(&format!("/DIR/F{index:02}.TXT"))
                .unwrap();
        }
        // Lands in the directory's second cluster.
        fs.save_verified("/DIR/~WIO0000.BAK", b"pre-existing backup")
            .unwrap();
        // Free a first-cluster slot for the target so its pre-check
        // lookup early-breaks without stepping the FAT.
        fs.delete_verified("/DIR/F00.TXT", false).unwrap();
        fs.save_verified("/DIR/FILE.TXT", &original).unwrap();
        layer.drop_cache();
        let geometry = fat32_geometry(131_072, 0).unwrap();
        let fat_start = geometry.partition_start + 32;
        ram.fail_reads_in
            .set(Some((fat_start, fat_start + 2 * geometry.fat_sectors)));
        ram.fail_reads_in_budget.set(Some(budget));
        let result = fs.save_transactional("/DIR/FILE.TXT", b"new contents");
        ram.fail_reads_in.set(None);
        ram.fail_reads_in_budget.set(None);
        let Err(SaveError {
            error: FsOpError::AlreadyExists,
            backup_kept,
        }) = result
        else {
            // Smaller budgets self-correct (a surviving re-ask finds
            // the backup and the save proceeds on a fresh suffix);
            // larger ones fail the temporary's staging with a device
            // error. Neither is this test's branch.
            continue;
        };
        proven = true;
        assert_eq!(backup_kept, None, "budget {budget}");
        // The save's own verified temporary must have been removed,
        // not stranded until a PC cleanup.
        let (page, _) = fs.read_directory_page("/DIR", 0, 32).unwrap();
        let stranded: Vec<String> = page
            .into_iter()
            .map(|item| item.name)
            .filter(|name| name.starts_with("~WIO"))
            .collect();
        assert_eq!(
            stranded,
            ["~WIO0000.BAK"],
            "budget {budget}: staging debris was left behind"
        );
        // The pre-existing backup -- what the rollback refusal exists
        // to protect -- and the target must both be untouched.
        assert_eq!(
            fs.read_file("/DIR/~WIO0000.BAK").unwrap(),
            b"pre-existing backup",
            "budget {budget}"
        );
        assert_eq!(fs.read_file("/DIR/FILE.TXT").unwrap(), original, "budget {budget}");
    }
    assert!(proven, "no budget produced the laundered-scan AlreadyExists");
}

#[test]
fn delete_survives_any_single_transient_write_failure() {
    let contents = vec![0x33u8; 8192];
    // Twin-measure a clean delete's write-call count (all calls succeed,
    // so writes_seen counts them exactly).
    let (ram, mut fs) = formatted_fs(131_072);
    fs.save_verified("/DOOMED.TXT", &contents).unwrap();
    let before = ram.writes_seen.get();
    fs.delete_verified("/DOOMED.TXT", false).unwrap();
    let delete_writes = ram.writes_seen.get() - before;
    assert!(delete_writes > 0);
    // One transient write failure at every position must be absorbed:
    // the truncate step swallows its own errors and the entry delete
    // retries under the standard policy.
    for injected in 0..delete_writes {
        let (ram, mut fs) = formatted_fs(131_072);
        fs.save_verified("/DOOMED.TXT", &contents).unwrap();
        ram.fail_one_write_after.set(Some(injected));
        fs.delete_verified("/DOOMED.TXT", false)
            .unwrap_or_else(|error| panic!("delete died at write {injected}: {error:?}"));
        assert!(!fs.entry_exists("/DOOMED.TXT").unwrap());
    }
}

#[test]
fn stuck_delete_after_truncate_reports_delete_incomplete() {
    let contents = vec![0x44u8; 8192];
    let (ram, mut fs) = formatted_fs(131_072);
    fs.save_verified("/DOOMED.TXT", &contents).unwrap();
    let before = ram.writes_seen.get();
    fs.delete_verified("/DOOMED.TXT", false).unwrap();
    let delete_writes = ram.writes_seen.get() - before;

    // A write failure that latches at the final delete write (the
    // directory-entry delete, after the truncate persisted) must be
    // reported as DeleteIncomplete, not a generic failure implying the
    // contents are intact.
    let (ram, mut fs) = formatted_fs(131_072);
    fs.save_verified("/DOOMED.TXT", &contents).unwrap();
    ram.fail_writes_after.set(Some(delete_writes - 1));
    let error = fs
        .delete_verified("/DOOMED.TXT", false)
        .expect_err("the latched card cannot finish the delete");
    assert!(matches!(error, FsOpError::DeleteIncomplete(_)));
    assert_eq!(save_failure_reason(&error), "data removed");
    ram.fail_writes.set(false);
    // The honest state: still listed, contents destroyed.
    assert!(fs.entry_exists("/DOOMED.TXT").unwrap());
    assert!(fs.read_file("/DOOMED.TXT").unwrap().is_empty());
}

#[test]
fn recursive_delete_reports_incomplete_after_children_destroyed() {
    fn folder_of_four(sectors: u32) -> (RamBlocks, RamCard) {
        let (ram, mut fs) = formatted_fs(sectors);
        fs.create_directory_verified("/DIR").unwrap();
        for i in 0..4 {
            fs.create_empty(&format!("/DIR/F{i:02}.TXT")).unwrap();
        }
        (ram, fs)
    }
    // Twin-measure a clean folder delete's writes.
    let (ram, mut fs) = folder_of_four(131_072);
    let before = ram.writes_seen.get();
    fs.delete_verified("/DIR", true).unwrap();
    let folder_writes = ram.writes_seen.get() - before;
    assert!(folder_writes >= 4, "four child deletes plus the folder's");

    // A card that dies mid-way -- after some children's delete writes
    // persisted -- must report DeleteIncomplete, never a refusal
    // implying the folder is intact. Empty files have no clusters to
    // reclaim, so `truncated` is false for every child: this is the
    // FAT16-shaped path where per-file tracking alone would claim
    // nothing was destroyed.
    let (ram, mut fs) = folder_of_four(131_072);
    ram.fail_writes_after.set(Some(folder_writes / 2));
    let error = fs
        .delete_verified("/DIR", true)
        .expect_err("the latched card cannot finish the folder delete");
    assert!(
        matches!(error, FsOpError::DeleteIncomplete(_)),
        "expected DeleteIncomplete, got {error:?}"
    );
    assert_eq!(save_failure_reason(&error), "data removed");
    ram.fail_writes.set(false);
    // The honest state: the folder survives with only part of its
    // children.
    assert!(fs.entry_exists("/DIR").unwrap());
    let remaining = (0..4)
        .filter(|i| fs.entry_exists(&format!("/DIR/F{i:02}.TXT")).unwrap())
        .count();
    assert!(remaining < 4, "at least one child was destroyed");
    assert!(remaining > 0, "the latch stopped the delete mid-way");
}

#[test]
fn recursive_delete_of_empty_folders_reports_incomplete() {
    fn folder_of_folders(sectors: u32) -> (RamBlocks, RamCard) {
        let (ram, mut fs) = formatted_fs(sectors);
        fs.create_directory_verified("/DIR").unwrap();
        for i in 0..4 {
            fs.create_directory_verified(&format!("/DIR/SUB{i}")).unwrap();
        }
        (ram, fs)
    }
    // Twin-measure a clean folder delete's writes.
    let (ram, mut fs) = folder_of_folders(131_072);
    let before = ram.writes_seen.get();
    fs.delete_verified("/DIR", true).unwrap();
    let folder_writes = ram.writes_seen.get() - before;
    assert!(folder_writes >= 4, "four subfolder deletes plus the folder's");

    // A card that dies after some empty subfolders' entries were
    // removed must report DeleteIncomplete, never a refusal implying
    // the folder is intact. Subfolder entries have no file children to
    // set the per-file flag, so only the entry-removal tracking covers
    // this shape.
    let (ram, mut fs) = folder_of_folders(131_072);
    ram.fail_writes_after.set(Some(folder_writes / 2));
    let error = fs
        .delete_verified("/DIR", true)
        .expect_err("the latched card cannot finish the folder delete");
    assert!(
        matches!(error, FsOpError::DeleteIncomplete(_)),
        "expected DeleteIncomplete, got {error:?}"
    );
    assert_eq!(save_failure_reason(&error), "data removed");
    ram.fail_writes.set(false);
    // The honest state: the folder survives with only part of its
    // subfolders.
    assert!(fs.entry_exists("/DIR").unwrap());
    let remaining = (0..4)
        .filter(|i| fs.entry_exists(&format!("/DIR/SUB{i}")).unwrap())
        .count();
    assert!(remaining < 4, "at least one subfolder was destroyed");
    assert!(remaining > 0, "the latch stopped the delete mid-way");
}

#[test]
fn already_exists_never_triggers_destructive_cleanup() {
    // AlreadyExists proves the failed copy created nothing: the
    // blocking entry pre-existed (reachable only through a
    // double-laundered absence pre-check), so running the rollback
    // would delete the user's pre-existing destination, not this
    // operation's debris.
    let (_ram, mut fs) = formatted_fs(131_072);
    fs.save_verified("/KEEP.TXT", b"precious").unwrap();
    let (assessed, rollback) = fs.assess_failure(FsOpError::AlreadyExists);
    assert!(matches!(assessed, FsOpError::AlreadyExists));
    assert!(!rollback, "AlreadyExists must never enable rollback");
    let reported = fs.cleanup_partial_destination(FsOpError::AlreadyExists, "/KEEP.TXT");
    assert!(
        matches!(reported, FsOpError::AlreadyExists),
        "the error must pass through unwrapped, got {reported:?}"
    );
    assert_eq!(fs.read_file("/KEEP.TXT").unwrap(), b"precious");
}

#[test]
fn delete_never_reports_not_found_while_the_entry_exists() {
    // The manager's directory walks discard FAT chain-read failures and
    // fall through to NotFound, so a transient read flake during a
    // delete can claim an existing entry is missing. 512-byte clusters
    // (one sector per cluster on this image) hold 16 directory entries;
    // 20 files plus the dot entries span two clusters, so deleting a
    // file in the second cluster crosses the launder-prone chain read.
    // Injection is scoped to delete_entry_checked via a pre-opened
    // handle: the path-walk helpers launder independently and are out
    // of this test's scope.
    let build = || {
        let (ram, layer, mut fs) = formatted_card(131_072);
        fs.create_directory_verified("/DIR").unwrap();
        for i in 0..20 {
            fs.create_empty(&format!("/DIR/F{i:02}.TXT")).unwrap();
        }
        (ram, layer, fs)
    };

    // Twin-measure the reads a clean scoped delete consumes.
    let (ram, mut layer, mut fs) = build();
    let mut volume = Volume::new(layer.clone());
    let dir = volume.open_dir_path("/DIR").unwrap();
    let before = ram.reads_seen.get();
    volume.delete_entry_checked(dir, "F17.TXT", false).unwrap();
    let clean_reads = ram.reads_seen.get() - before;
    layer.close_dir(dir);
    assert!(clean_reads > 0);

    for injected in 0..clean_reads {
        let (ram, mut layer, mut fs) = build();
        let mut volume = Volume::new(layer.clone());
        let dir = volume.open_dir_path("/DIR").unwrap();
        ram.fail_one_read_after.set(Some(injected));
        let result = volume.delete_entry_checked(dir, "F17.TXT", false);
        ram.fail_one_read_after.set(None);
        layer.close_dir(dir);
        let exists = fs.entry_exists("/DIR/F17.TXT").unwrap();
        match result {
            Ok(()) => assert!(!exists, "Ok but entry survives at read {injected}"),
            Err(error) => {
                assert!(exists, "error {error:?} but entry gone at read {injected}");
                assert!(
                    !matches!(error, FsOpError::Fs(VolumeError::NotFound)),
                    "laundered NotFound surfaced at read {injected}"
                );
            }
        }
    }
}

#[test]
fn create_directory_survives_any_single_transient_read_flake() {
    // The post-create verify must confirm a NotFound before reporting
    // it: a single laundered read would otherwise turn a just-created
    // directory into "file not found". 20 files plus the dot entries
    // span two clusters, so lookups of the new entry cross the
    // launder-prone chain read.
    let build = || {
        let (ram, mut fs) = formatted_fs(131_072);
        fs.create_directory_verified("/DIR").unwrap();
        for i in 0..20 {
            fs.create_empty(&format!("/DIR/F{i:02}.TXT")).unwrap();
        }
        (ram, fs)
    };
    // Twin-measure the reads a clean create consumes.
    let (ram, mut fs) = build();
    let before = ram.reads_seen.get();
    fs.create_directory_verified("/DIR/NEWDIR").unwrap();
    let clean_reads = ram.reads_seen.get() - before;
    assert!(clean_reads > 0);

    for injected in 0..clean_reads {
        let (ram, mut fs) = build();
        ram.fail_one_read_after.set(Some(injected));
        let result = fs.create_directory_verified("/DIR/NEWDIR");
        ram.fail_one_read_after.set(None);
        assert!(
            !matches!(result, Err(FsOpError::Fs(VolumeError::NotFound))),
            "read {injected}: a just-created directory reported as not found"
        );
        if result.is_ok() {
            assert!(fs.entry_exists("/DIR/NEWDIR").unwrap());
        }
    }
}

#[test]
fn confirmed_absence_after_truncate_reports_delete_incomplete() {
    // The double-laundered residue: after the truncate persisted, a FAT
    // region that stops answering makes the delete's directory walk
    // launder its chain-step read into NotFound, and the confirming
    // walk launders identically against the same dead sectors. The
    // entry provably existed moments ago (the truncate opened it), so
    // the honest report is DeleteIncomplete -- never "file not found"
    // for a listed, emptied entry.
    let (ram, mut layer, mut fs) = formatted_card(131_072);
    fs.create_directory_verified("/DIR").unwrap();
    for i in 0..20 {
        fs.create_empty(&format!("/DIR/F{i:02}.TXT")).unwrap();
    }
    // Four clusters of content, and an entry in the directory's second
    // cluster so lookups must step the FAT chain.
    fs.save_verified("/DIR/F17.TXT", &[0x11u8; 2048]).unwrap();

    let mut volume = Volume::new(layer.clone());
    let dir = volume.open_dir_path("/DIR").unwrap();
    assert!(volume.reclaim_file_clusters_in_dir(true, dir, "F17.TXT"));
    // The truncate may have left its blocks cached; the failure must
    // come from the card, not be masked by an echo.
    layer.drop_cache();
    let geometry = fat32_geometry(131_072, 0).unwrap();
    let fat_start = geometry.partition_start + 32;
    ram.fail_reads_in
        .set(Some((fat_start, fat_start + 2 * geometry.fat_sectors)));
    let error = volume
        .delete_entry_checked(dir, "F17.TXT", true)
        .expect_err("the dead FAT region cannot confirm the delete");
    ram.fail_reads_in.set(None);
    layer.close_dir(dir);
    assert!(
        matches!(error, FsOpError::DeleteIncomplete(_)),
        "expected DeleteIncomplete, got {error:?}"
    );
    assert_eq!(save_failure_reason(&error), "data removed");
    // The honest state: still listed, contents destroyed.
    assert!(fs.entry_exists("/DIR/F17.TXT").unwrap());
    assert!(fs.read_file("/DIR/F17.TXT").unwrap().is_empty());
}

#[test]
fn move_reports_source_ghost_when_its_delete_sticks() {
    let contents = vec![0x77u8; 8192];
    let (ram, mut fs) = formatted_fs(131_072);
    fs.save_verified("/SRC.TXT", &contents).unwrap();
    let before = ram.writes_seen.get();
    fs.move_entry_verified("/SRC.TXT", "/DST.TXT").unwrap();
    let move_writes = ram.writes_seen.get() - before;

    // The move's final write is the source's directory-entry delete; a
    // failure latching there leaves a verified destination plus an
    // emptied source ghost, and the caller must hear that -- "Move
    // failed" would invite deleting the only good copy.
    let (ram, mut fs) = formatted_fs(131_072);
    fs.save_verified("/SRC.TXT", &contents).unwrap();
    ram.fail_writes_after.set(Some(move_writes - 1));
    let error = fs
        .move_entry_verified("/SRC.TXT", "/DST.TXT")
        .expect_err("the latched card cannot finish the move");
    assert!(matches!(error, FsOpError::DeleteIncomplete(_)));
    ram.fail_writes.set(false);
    assert_eq!(fs.read_file("/DST.TXT").unwrap(), contents);
    assert!(fs.entry_exists("/SRC.TXT").unwrap());
    assert!(fs.read_file("/SRC.TXT").unwrap().is_empty());
}

#[test]
fn fat16_move_source_delete_failure_reports_source_remains() {
    // FAT16 never truncates before a delete (reclaim is FAT32-only), so
    // DeleteIncomplete is unreachable there: a stuck source delete after
    // a fully verified copy must still surface as success-with-caveat
    // (SourceRemains), not a raw "Move failed" that invites deleting
    // the only good copy -- with the retry then dead-ending at
    // "already exists".
    let contents = vec![0x77u8; 2048];
    let (ram, layout) = fat16_media();
    let mut fs = mount(ram.clone(), layout).unwrap();
    fs.save_verified("/SRC.TXT", &contents).unwrap();
    let before = ram.writes_seen.get();
    fs.move_entry_verified("/SRC.TXT", "/DST.TXT").unwrap();
    let move_writes = ram.writes_seen.get() - before;

    // Twin fixture with the identical write history: latch the failure
    // at the move's final write, the source's directory-entry delete.
    let (ram, layout) = fat16_media();
    let mut fs = mount(ram.clone(), layout).unwrap();
    fs.save_verified("/SRC.TXT", &contents).unwrap();
    ram.fail_writes_after.set(Some(move_writes - 1));
    let error = fs
        .move_entry_verified("/SRC.TXT", "/DST.TXT")
        .expect_err("the latched card cannot finish the move");
    assert!(
        matches!(error, FsOpError::SourceRemains(_)),
        "expected SourceRemains, got {error:?}"
    );
    assert_eq!(save_failure_reason(&error), "old entry remains");
    ram.fail_writes.set(false);
    // The truth SourceRemains reports: destination verified, source
    // still intact (no truncate ran).
    assert_eq!(fs.read_file("/DST.TXT").unwrap(), contents);
    assert_eq!(fs.read_file("/SRC.TXT").unwrap(), contents);
    // Without the caveat report, the user's retry would hit this
    // unexplained dead end.
    assert!(matches!(
        fs.move_entry_verified("/SRC.TXT", "/DST.TXT"),
        Err(FsOpError::AlreadyExists)
    ));
}

#[test]
fn masked_extension_fault_reports_card_fault_and_preserves_staging() {
    let original = vec![0x55u8; 8192];
    let new_contents = vec![0xaau8; 8192];
    let staging = staging_write_count(&new_contents, &original);
    // Sweep total card death across every write of the commit step. The
    // manager masks device faults met while extending the target's
    // cluster chain as DiskFull; the save must never report a dead card
    // as "storage is full", and must leave the staging copies in place.
    let mut saw_unresponsive = false;
    let mut control_run_seen = false;
    for extra in 0..10_000u32 {
        let (ram, mut fs) = formatted_fs(131_072);
        fs.save_verified("/FILE.TXT", &original).unwrap();
        ram.die_after_writes.set(Some(staging + extra));
        let result = fs.save_transactional("/FILE.TXT", &new_contents);
        let died = ram.die_after_writes.get().is_none();
        ram.fail_writes.set(false);
        ram.fail_reads.set(false);
        if !died {
            // The death point fell beyond the whole operation.
            assert!(result.is_ok());
            control_run_seen = true;
            break;
        }
        let Err(error) = result else {
            // Death landed in the post-commit staging cleanup, which is
            // deliberately swallowed; the save itself already won.
            continue;
        };
        assert_ne!(
            save_failure_reason(&error.error),
            "storage is full",
            "dead card misread as full at commit write {extra}"
        );
        if matches!(error.error, FsOpError::DeviceUnresponsive) {
            saw_unresponsive = true;
        }
        // No rollback ran through the dead card: both staging copies
        // survive as the recovery data, and the caller is told about
        // the backup.
        assert!(error.backup_kept.is_some());
        assert_eq!(fs.read_file("/~WIO0000.TMP").unwrap(), new_contents);
        assert_eq!(fs.read_file("/~WIO0000.BAK").unwrap(), original);
    }
    assert!(control_run_seen);
    assert!(
        saw_unresponsive,
        "no death point exercised the DiskFull mask"
    );
}

#[test]
fn genuine_disk_full_rolls_back_and_reports_full() {
    // FAT16: the manager keeps no free-cluster counter there, so a
    // genuine exhaustion surfaces cleanly. (Exhausting FAT32 trips the
    // manager's own FSInfo counter underflow in debug builds.)
    let (ram, layout) = fat16_media();
    let mut fs = mount(ram.clone(), layout).unwrap();
    let free = fs.free_space_bytes().unwrap();
    // Fill the card down to eight clusters, then ask a save to stage a
    // document that cannot fit: a genuinely full, healthy card must keep
    // the honest "storage is full" report and roll its staging back.
    let filler = vec![0x11u8; (free - 8 * 512) as usize];
    fs.save_verified("/FILLER.BIN", &filler).unwrap();
    fs.save_verified("/FILE.TXT", b"small").unwrap();
    let error = fs
        .save_transactional("/FILE.TXT", &vec![0x22u8; 16 * 1024])
        .expect_err("the full card cannot stage the new contents");
    assert!(
        matches!(
            error.error,
            FsOpError::Fs(VolumeError::DiskFull | VolumeError::NotEnoughSpace)
        ),
        "expected a full-disk report, got {error:?}"
    );
    assert_eq!(save_failure_reason(&error.error), "storage is full");
    // The failure hit the staging stage, before any backup existed.
    assert!(error.backup_kept.is_none());
    assert!(staging_leftovers(&mut fs).is_empty());
    assert_eq!(fs.read_file("/FILE.TXT").unwrap(), b"small");
}

#[test]
fn move_into_high_byte_folder_does_not_panic() {
    let (_ram, mut fs) = formatted_fs(131_072);
    // "É" (U+00C9) is a storable 8.3 byte that Display re-renders as two
    // UTF-8 bytes; "/AB".len() == 3 lands inside it in "/XÉ/AB", which a
    // str slice cannot start from.
    fs.create_directory_verified("/X\u{c9}").unwrap();
    fs.create_directory_verified("/AB").unwrap();
    fs.move_entry_verified("/AB", "/X\u{c9}/AB").unwrap();
    assert!(fs.entry_exists("/X\u{c9}/AB").unwrap());
    assert!(!fs.entry_exists("/AB").unwrap());
}

#[test]
fn probe_and_mount_agree_on_mbr_slot_acceptance() {
    // probe_fat mirrors embedded-sdmmc's private MBR status mask and
    // partition-type accept list; a slot the probe accepts but the mount
    // refuses would dead-end a good card at the format prompt. Prove the
    // two layers agree over one valid FAT32 image with every status and
    // type combination patched into slot 0.
    let sectors = 131_072u32;
    let ram = RamBlocks::new(sectors);
    format_fat32(&mut stream(&ram), sectors, 0).unwrap();
    let statuses = [0x00u8, 0x80, 0x01, 0x7f, 0xff];
    // Derived from the real accept lists so a constant gaining an entry
    // is automatically exercised here; only the unknown types are local.
    let kinds: Vec<u8> = MOUNTABLE_PARTITION_TYPES
        .into_iter()
        .chain(KNOWN_UNSUPPORTED_PARTITION_TYPES)
        .chain([0x00, 0x83])
        .collect();
    for status in statuses {
        for &kind in &kinds {
            {
                let mut blocks = ram.blocks.borrow_mut();
                blocks[0].contents[446] = status;
                blocks[0].contents[446 + 4] = kind;
            }
            let probed = probe_fat(&mut stream(&ram), sectors);
            let mounted = VolumeManager::new(ram.clone(), Clock)
                .open_raw_volume(VolumeIdx(0));
            assert_eq!(
                probed.is_ok(),
                mounted.is_ok(),
                "probe/mount disagree for status {status:#04x} kind {kind:#04x}"
            );
            if let Ok(layout) = probed {
                assert_eq!(layout.partition_index, 0);
            }
        }
    }
}

/// The on-disk 11-byte form of an 8.3 name (blank-padded, uppercase).
fn sfn_bytes(name: &str) -> [u8; 11] {
    let mut out = [b' '; 11];
    let (base, extension) = match name.rfind('.') {
        Some(dot) => (&name[..dot], &name[dot + 1..]),
        None => (name, ""),
    };
    for (index, byte) in base.bytes().enumerate() {
        out[index] = byte.to_ascii_uppercase();
    }
    for (index, byte) in extension.bytes().enumerate() {
        out[8 + index] = byte.to_ascii_uppercase();
    }
    out
}

/// Set the read-only bit on the directory entry named `name`, scanning
/// the raw sectors -- what a PC would have done, since the device can
/// never write the bit itself. The name must be unique on the volume.
fn patch_read_only(ram: &RamBlocks, name: &str) {
    let pattern = sfn_bytes(name);
    let mut patched = 0;
    for block in ram.blocks.borrow_mut().iter_mut() {
        for entry in 0..16 {
            let start = entry * 32;
            if block.contents[start..start + 11] == pattern {
                block.contents[start + 11] |= 0x01;
                patched += 1;
            }
        }
    }
    assert_eq!(patched, 1, "expected exactly one entry named {name}");
}

#[test]
fn read_only_entries_refuse_save_delete_and_move() {
    let (ram, mut fs) = formatted_fs(131_072);
    fs.save_verified("/ROFILE.TXT", b"protected contents")
        .unwrap();
    fs.create_directory_verified("/KEEP").unwrap();
    fs.create_directory_verified("/KEEP/INNER").unwrap();
    fs.save_verified("/KEEP/SIBLING.TXT", b"sibling data")
        .unwrap();
    fs.save_verified("/KEEP/INNER/LOCKED.TXT", b"deep protected")
        .unwrap();
    drop(fs);
    patch_read_only(&ram, "ROFILE.TXT");
    patch_read_only(&ram, "LOCKED.TXT");
    let layout = probe_fat(&mut stream(&ram), 131_072).unwrap();
    let mut fs = mount(ram.clone(), layout).unwrap();

    // Direct operations on a read-only file are refused; the emulated
    // move would otherwise delete the protected original and recreate it
    // writable.
    assert!(matches!(
        fs.save_transactional("/ROFILE.TXT", b"overwrite"),
        Err(SaveError {
            error: FsOpError::Fs(VolumeError::ReadOnly),
            ..
        })
    ));
    assert!(matches!(
        fs.delete_verified("/ROFILE.TXT", false),
        Err(FsOpError::Fs(VolumeError::ReadOnly))
    ));
    assert!(matches!(
        fs.move_entry_verified("/ROFILE.TXT", "/RENAMED.TXT"),
        Err(FsOpError::Fs(VolumeError::ReadOnly))
    ));
    assert_eq!(fs.read_file("/ROFILE.TXT").unwrap(), b"protected contents");
    assert!(!fs.entry_exists("/RENAMED.TXT").unwrap());

    // A folder holding a read-only entry deep inside is refused by the
    // pre-scan before anything at all is deleted or copied.
    assert!(matches!(
        fs.delete_verified("/KEEP", true),
        Err(FsOpError::Fs(VolumeError::ReadOnly))
    ));
    assert!(matches!(
        fs.move_entry_verified("/KEEP", "/MOVED"),
        Err(FsOpError::Fs(VolumeError::ReadOnly))
    ));
    assert_eq!(fs.read_file("/KEEP/SIBLING.TXT").unwrap(), b"sibling data");
    assert_eq!(
        fs.read_file("/KEEP/INNER/LOCKED.TXT").unwrap(),
        b"deep protected"
    );
    assert!(!fs.entry_exists("/MOVED").unwrap());
}

#[test]
fn save_confirms_target_presence_before_destroying_it() {
    // One laundered NotFound during save_transactional's existence
    // check must not skip the pre-checks and the backup staging: with
    // existed=false the in-place rewrite would meet the read-only
    // refusal only at the commit, and the !existed rollback would then
    // delete the protected original (delete_entry_in_dir never checks
    // the read-only bit) -- the only copy, with no backup kept.
    let build = || {
        let (ram, mut fs) = formatted_fs(131_072);
        fs.create_directory_verified("/DIR").unwrap();
        for i in 0..20 {
            fs.create_empty(&format!("/DIR/F{i:02}.TXT")).unwrap();
        }
        fs.save_verified("/DIR/F17.TXT", b"protected contents")
            .unwrap();
        drop(fs);
        patch_read_only(&ram, "F17.TXT");
        let layout = probe_fat(&mut stream(&ram), 131_072).unwrap();
        let mut fs = mount(ram.clone(), layout).unwrap();
        (ram, fs)
    };

    // Twin-measure the reads the existence lookup consumes.
    let (ram, mut fs) = build();
    let before = ram.reads_seen.get();
    fs.find_entry("/DIR/F17.TXT").unwrap();
    let lookup_reads = ram.reads_seen.get() - before;
    assert!(lookup_reads > 0);

    for injected in 0..lookup_reads {
        let (ram, mut fs) = build();
        ram.fail_one_read_after.set(Some(injected));
        let result = fs.save_transactional("/DIR/F17.TXT", b"overwrite");
        ram.fail_one_read_after.set(None);
        assert!(result.is_err(), "save must not succeed at read {injected}");
        assert!(
            fs.entry_exists("/DIR/F17.TXT").unwrap(),
            "original entry lost at read {injected}"
        );
        assert_eq!(
            fs.read_file("/DIR/F17.TXT").unwrap(),
            b"protected contents",
            "original contents lost at read {injected}"
        );
    }
}

#[test]
fn save_confirms_staging_name_before_reuse() {
    // The staging-name scan acts destructively on absence too: a
    // laundered NotFound on an existing ~WIO0000.TMP would reuse the
    // suffix, and save_verified's CreateOrTruncate open would destroy a
    // prior failed save's only proven copy of the new contents.
    let build = || {
        let (ram, mut fs) = formatted_fs(131_072);
        fs.create_directory_verified("/DIR").unwrap();
        for i in 0..20 {
            fs.create_empty(&format!("/DIR/F{i:02}.TXT")).unwrap();
        }
        fs.save_verified("/DIR/F05.TXT", b"old contents").unwrap();
        fs.save_verified("/DIR/~WIO0000.TMP", b"precious recovery data")
            .unwrap();
        (ram, fs)
    };

    // Twin-measure the pre-staging lookup window: target existence,
    // the occupied suffix, and the free suffix the scan settles on.
    let (ram, mut fs) = build();
    let before = ram.reads_seen.get();
    fs.find_entry("/DIR/F05.TXT").unwrap();
    assert!(fs.entry_exists("/DIR/~WIO0000.TMP").unwrap());
    assert!(!fs.entry_exists("/DIR/~WIO0001.TMP").unwrap());
    assert!(!fs.entry_exists("/DIR/~WIO0001.BAK").unwrap());
    let lookup_reads = ram.reads_seen.get() - before;
    assert!(lookup_reads > 0);

    for injected in 0..lookup_reads {
        let (ram, mut fs) = build();
        ram.fail_one_read_after.set(Some(injected));
        let _ = fs.save_transactional("/DIR/F05.TXT", b"new contents");
        ram.fail_one_read_after.set(None);
        assert_eq!(
            fs.read_file("/DIR/~WIO0000.TMP").unwrap(),
            b"precious recovery data",
            "staged recovery data destroyed at read {injected}"
        );
    }
}

#[test]
fn move_confirms_destination_before_clobbering_it() {
    // A laundered NotFound on the move's destination pre-check lets the
    // copy run; the copy then fails AlreadyExists, and its rollback
    // would delete the *pre-existing* destination file.
    let build = || {
        let (ram, mut fs) = formatted_fs(131_072);
        fs.create_directory_verified("/DIR").unwrap();
        for i in 0..20 {
            fs.create_empty(&format!("/DIR/F{i:02}.TXT")).unwrap();
        }
        fs.save_verified("/DIR/F17.TXT", b"existing destination")
            .unwrap();
        fs.save_verified("/SRC.TXT", b"source data").unwrap();
        (ram, fs)
    };

    // Twin-measure the two pre-check lookups.
    let (ram, mut fs) = build();
    let before = ram.reads_seen.get();
    fs.find_entry("/SRC.TXT").unwrap();
    fs.find_entry("/DIR/F17.TXT").unwrap();
    let lookup_reads = ram.reads_seen.get() - before;
    assert!(lookup_reads > 0);

    for injected in 0..lookup_reads {
        let (ram, mut fs) = build();
        ram.fail_one_read_after.set(Some(injected));
        let result = fs.move_entry_verified("/SRC.TXT", "/DIR/F17.TXT");
        ram.fail_one_read_after.set(None);
        assert!(result.is_err(), "move must not succeed at read {injected}");
        assert_eq!(
            fs.read_file("/DIR/F17.TXT").unwrap(),
            b"existing destination",
            "destination clobbered at read {injected}"
        );
        assert_eq!(
            fs.read_file("/SRC.TXT").unwrap(),
            b"source data",
            "source damaged at read {injected}"
        );
    }
}

#[test]
fn move_verify_flake_never_fails_a_landed_move() {
    // Once the copy is verified and the source delete confirmed, a
    // transient read during the post-move verification must never turn
    // the landed move into a reported failure -- "file not found" for
    // a move that succeeded invites deleting the only good copy.
    let build = || {
        let (ram, mut fs) = formatted_fs(131_072);
        fs.create_directory_verified("/DIR").unwrap();
        fs.save_verified("/SRC.TXT", b"source data").unwrap();
        (ram, fs)
    };
    // Twin-measure a clean move's reads.
    let (ram, mut fs) = build();
    let before = ram.reads_seen.get();
    fs.move_entry_verified("/SRC.TXT", "/DIR/DST.TXT").unwrap();
    let move_reads = ram.reads_seen.get() - before;
    assert!(move_reads > 0);

    for injected in 0..move_reads {
        let (ram, mut fs) = build();
        ram.fail_one_read_after.set(Some(injected));
        let result = fs.move_entry_verified("/SRC.TXT", "/DIR/DST.TXT");
        ram.fail_one_read_after.set(None);
        assert!(
            !matches!(result, Err(FsOpError::Fs(VolumeError::NotFound))),
            "move reported 'file not found' at read {injected}"
        );
        let landed = fs
            .read_file("/DIR/DST.TXT")
            .map(|data| data == b"source data")
            .unwrap_or(false)
            && !fs.entry_exists("/SRC.TXT").unwrap();
        if landed {
            assert!(
                result.is_ok(),
                "landed move reported {result:?} at read {injected}"
            );
        }
    }
}

#[test]
fn delete_verify_flake_never_reports_not_deleted() {
    // Once delete_entry_checked has confirmed the removal, a transient
    // read during delete_verified's advisory re-check must not convert
    // the completed delete into a "Not deleted" report.
    let contents = vec![0x55u8; 4096];
    let (ram, mut fs) = formatted_fs(131_072);
    fs.save_verified("/DOOMED.TXT", &contents).unwrap();
    let before = ram.reads_seen.get();
    fs.delete_verified("/DOOMED.TXT", false).unwrap();
    let delete_reads = ram.reads_seen.get() - before;
    assert!(delete_reads > 0);

    for injected in 0..delete_reads {
        let (ram, mut fs) = formatted_fs(131_072);
        fs.save_verified("/DOOMED.TXT", &contents).unwrap();
        ram.fail_one_read_after.set(Some(injected));
        let result = fs.delete_verified("/DOOMED.TXT", false);
        ram.fail_one_read_after.set(None);
        if !fs.entry_exists("/DOOMED.TXT").unwrap() {
            assert!(
                result.is_ok(),
                "completed delete reported {result:?} at read {injected}"
            );
        }
    }
}

#[test]
fn format_marks_phantom_fat_tail_entries_bad() {
    // The manager's free-cluster search scans whole FAT sectors without
    // re-checking its end bound, so zeroed spare entries in the FAT's
    // last sector would be handed out as allocatable clusters mapping
    // past the end of the partition once the card fills up.
    let sectors = 131_072u32;
    let ram = RamBlocks::new(sectors);
    let geometry =
        format_fat32(&mut stream(&ram), sectors, 0).unwrap();
    let phantom_offset = ((geometry.cluster_count + 2) as usize * 4) % 512;
    assert_ne!(phantom_offset, 0, "fixture must have a phantom tail");

    let first_fat = geometry.partition_start + 32;
    let blocks = ram.blocks.borrow();
    for copy in 0..2u32 {
        let last = (first_fat + (copy + 1) * geometry.fat_sectors - 1) as usize;
        let contents = &blocks[last].contents;
        assert!(
            contents[..phantom_offset].iter().all(|byte| *byte == 0),
            "FAT copy {copy}: real entries below the tail must stay free"
        );
        for entry in contents[phantom_offset..].chunks_exact(4) {
            assert_eq!(
                entry,
                [0xf7, 0xff, 0xff, 0x0f],
                "FAT copy {copy}: phantom tail entry not marked bad"
            );
        }
    }
    drop(blocks);

    // The volume still mounts and reports the FSInfo figure, which
    // never counted the phantoms.
    let layout = probe_fat(&mut stream(&ram), sectors).unwrap();
    let mut fs = mount(ram.clone(), layout).unwrap();
    assert_eq!(
        fs.free_space_bytes(),
        Some(
            u64::from(geometry.cluster_count - 1)
                * u64::from(geometry.sectors_per_cluster)
                * 512
        )
    );
}

#[test]
fn mount_repairs_zeroed_phantom_fat_tail() {
    // Foreign formatters commonly leave the FAT tail zeroed, exposing
    // the same phantom-cluster hazard the formatter guards against;
    // mount must apply the same bad-cluster marks.
    let sectors = 131_072u32;
    let ram = RamBlocks::new(sectors);
    let geometry =
        format_fat32(&mut stream(&ram), sectors, 0).unwrap();
    let phantom_offset = ((geometry.cluster_count + 2) as usize * 4) % 512;
    assert_ne!(phantom_offset, 0, "fixture must have a phantom tail");

    // Simulate the foreign card: zero the tail entries of both copies.
    let first_fat = geometry.partition_start + 32;
    let tail_sectors: [usize; 2] = core::array::from_fn(|copy| {
        (first_fat + (copy as u32 + 1) * geometry.fat_sectors - 1) as usize
    });
    {
        let mut blocks = ram.blocks.borrow_mut();
        for last in tail_sectors {
            blocks[last].contents[phantom_offset..].fill(0);
        }
    }

    let layout = probe_fat(&mut stream(&ram), sectors).unwrap();
    let _fs = mount(ram.clone(), layout).unwrap();

    let blocks = ram.blocks.borrow();
    for (copy, last) in tail_sectors.into_iter().enumerate() {
        let contents = &blocks[last].contents;
        assert!(
            contents[..phantom_offset].iter().all(|byte| *byte == 0),
            "FAT copy {copy}: real entries below the tail must stay free"
        );
        for entry in contents[phantom_offset..].chunks_exact(4) {
            assert_eq!(
                entry,
                [0xf7, 0xff, 0xff, 0x0f],
                "FAT copy {copy}: phantom tail entry not re-marked at mount"
            );
        }
    }
}

#[test]
fn mount_writes_nothing_to_a_healthy_fat() {
    // A card whose phantom tail is already marked (any card this
    // firmware formatted) must mount without a single write.
    let sectors = 131_072u32;
    let ram = RamBlocks::new(sectors);
    format_fat32(&mut stream(&ram), sectors, 0).unwrap();
    let layout = probe_fat(&mut stream(&ram), sectors).unwrap();
    let before = ram.writes_seen.get();
    let _fs = mount(ram.clone(), layout).unwrap();
    assert_eq!(ram.writes_seen.get(), before, "mount must not write");
}

#[test]
fn under_provisioned_fat32_is_rejected_outright() {
    // A single corrupted FATSz32 field yields a BPB whose declared FAT
    // cannot hold every derived cluster's entry, so the manager's
    // allocator would map high clusters past the FAT into the root
    // directory or user data. The parser refuses such a volume: the
    // probe reports it invalid (routing the card to the format prompt
    // instead of ever mounting it), and even a direct mount with a
    // stale layout must not write.
    let sectors = 131_072u32;
    let ram = RamBlocks::new(sectors);
    let geometry =
        format_fat32(&mut stream(&ram), sectors, 0).unwrap();
    let layout = probe_fat(&mut stream(&ram), sectors).unwrap();
    let doctored = geometry.fat_sectors / 2;
    {
        let mut blocks = ram.blocks.borrow_mut();
        for bpb in [geometry.partition_start, geometry.partition_start + 6] {
            put_u32(&mut blocks[bpb as usize].contents[36..40], doctored);
        }
    }
    let boot = read_device_sector(&ram, layout.start_lba).unwrap();
    assert!(matches!(parse_fat_boot_sector(&boot), BootSector::Invalid));
    assert!(matches!(
        probe_fat(&mut stream(&ram), sectors),
        Err(ProbeError::Invalid)
    ));
    let before = ram.writes_seen.get();
    // The manager may or may not still open the doctored volume; only
    // the absence of writes matters.
    let _ = mount(ram.clone(), layout);
    assert_eq!(ram.writes_seen.get(), before, "mount must not write");
}

#[test]
fn oversized_fat32_cluster_count_is_rejected() {
    // FAT32 cluster numbers top out at 0x0fff_fff6, so a BPB deriving
    // a cluster count past 0x0fff_fff5 is out of spec (and would
    // overflow the consumers' entry arithmetic); the parser refuses it.
    let sectors = 131_072u32;
    let ram = RamBlocks::new(sectors);
    let geometry =
        format_fat32(&mut stream(&ram), sectors, 0).unwrap();
    let mut boot = read_device_sector(&ram, geometry.partition_start).unwrap();
    put_u32(&mut boot[32..36], u32::MAX);
    assert!(matches!(parse_fat_boot_sector(&boot), BootSector::Invalid));
}

#[test]
fn mount_repairs_zeroed_phantom_fat16_tail() {
    // Foreign FAT16 formatters commonly leave the FAT tail zeroed, and
    // the manager's FAT16 free-cluster scan has the same whole-sector
    // overrun as FAT32's; mount must apply the same bad-cluster marks.
    let (ram, layout) = fat16_media_custom(16, false);
    let _fs = mount(ram.clone(), layout).unwrap();
    let first_phantom = ((FAT16_CLUSTERS + 2) * 2 % 512) as usize;
    {
        let blocks = ram.blocks.borrow();
        for copy in 0..2u32 {
            let last_fat = (FAT16_START + FAT16_RESERVED + (copy + 1) * 16 - 1) as usize;
            let contents = &blocks[last_fat].contents;
            assert!(
                contents[..first_phantom].iter().all(|byte| *byte == 0),
                "FAT copy {copy}: real entries below the tail must stay free"
            );
            for entry in contents[first_phantom..].chunks_exact(2) {
                assert_eq!(
                    entry,
                    [0xf7, 0xff],
                    "FAT copy {copy}: phantom tail entry not marked at mount"
                );
            }
        }
    }
    // Idempotent: the repaired card is now the healthy case.
    let before = ram.writes_seen.get();
    let _fs = mount(ram.clone(), layout).unwrap();
    assert_eq!(ram.writes_seen.get(), before, "second mount must not write");
}

#[test]
fn mount_writes_nothing_to_a_healthy_fat16() {
    // The FAT16 twin of the FAT32 assertion above: an already-marked
    // tail must mount without a single write.
    let (ram, layout) = fat16_media();
    let before = ram.writes_seen.get();
    let _fs = mount(ram.clone(), layout).unwrap();
    assert_eq!(ram.writes_seen.get(), before, "mount must not write");
}

#[test]
fn under_provisioned_fat16_is_rejected_outright() {
    // Eight FAT sectors cannot hold 4,087 two-byte entries; such a
    // volume is inconsistent beyond any repair's remit, so the parser
    // refuses it and the probe reports the card invalid (routing it to
    // the format prompt) without a single write.
    let (ram, media_sectors) = fat16_media_image(8, false);
    let boot = read_device_sector(&ram, FAT16_START).unwrap();
    assert!(matches!(parse_fat_boot_sector(&boot), BootSector::Invalid));
    let before = ram.writes_seen.get();
    assert!(matches!(
        probe_fat(&mut stream(&ram), media_sectors),
        Err(ProbeError::Invalid)
    ));
    assert_eq!(ram.writes_seen.get(), before, "probe must not write");
}

#[test]
fn failed_folder_move_removes_partial_destination() {
    let contents_a: Vec<u8> = (0..4096u32).map(|i| i as u8).collect();
    let contents_b: Vec<u8> = (0..4096u32).map(|i| (i * 7) as u8).collect();
    let build = || {
        let (ram, mut fs) = formatted_fs(131_072);
        fs.create_directory_verified("/SRC").unwrap();
        fs.save_verified("/SRC/A.TXT", &contents_a).unwrap();
        fs.save_verified("/SRC/B.TXT", &contents_b).unwrap();
        (ram, fs)
    };
    // Total writes of a successful move, measured on a twin with an
    // identical write history, bound the sweep and aim the companion.
    let (ram, mut fs) = build();
    let before = ram.writes_seen.get();
    fs.move_entry_verified("/SRC", "/DEST").unwrap();
    let move_writes = ram.writes_seen.get() - before;

    // Sweep a single-write corruption across the whole move. Every hit
    // on a copied file's data fails the copy verification and must roll
    // the partial destination back so a retry is not refused as
    // AlreadyExists; corruption of unrelated metadata may fail
    // differently, but a missing rollback would leave /DEST behind on
    // every data hit and score zero below.
    let mut cleaned = 0;
    for injected in 0..move_writes {
        let (ram, mut fs) = build();
        ram.corrupt_one_write_after.set(Some(injected));
        let Err(error) = fs.move_entry_verified("/SRC", "/DEST") else {
            continue;
        };
        assert!(!error.is_device_error());
        if !fs.entry_exists("/DEST").unwrap_or(true)
            && fs
                .read_file("/SRC/A.TXT")
                .is_ok_and(|bytes| bytes == contents_a)
            && fs
                .read_file("/SRC/B.TXT")
                .is_ok_and(|bytes| bytes == contents_b)
        {
            cleaned += 1;
        }
    }
    assert!(cleaned >= 4, "only {cleaned} failures rolled back cleanly");

    // Companion: a card whose writes die and stay dead. Not every fail
    // point surfaces as a device error (the manager reports hard
    // failures during cluster allocation as DiskFull; reads stay alive
    // here, so assess_failure's probe passes and those points keep
    // rollback enabled -- its failure then surfaces as
    // CleanupIncomplete rather than being swallowed), so scan for
    // the first one that does -- it lies in the copy phase, before any
    // source deletion -- and prove the move stopped with the source
    // intact instead of mutating further through a dead card.
    let mut device_error_proven = false;
    for injected in 0..move_writes {
        let (ram, mut fs) = build();
        ram.fail_writes_after.set(Some(injected));
        let result = fs.move_entry_verified("/SRC", "/DEST");
        ram.fail_writes.set(false);
        if result.as_ref().is_err_and(FsOpError::is_device_error) {
            assert_eq!(fs.read_file("/SRC/A.TXT").unwrap(), contents_a);
            assert_eq!(fs.read_file("/SRC/B.TXT").unwrap(), contents_b);
            device_error_proven = true;
            break;
        }
    }
    assert!(device_error_proven);
}

#[test]
fn stuck_rollback_surfaces_cleanup_incomplete() {
    let contents = vec![0x5au8; 4096];
    let build = || {
        let (ram, mut fs) = formatted_fs(131_072);
        fs.save_verified("/SRC.TXT", &contents).unwrap();
        (ram, fs)
    };
    let (ram, mut fs) = build();
    let before = ram.writes_seen.get();
    fs.move_entry_verified("/SRC.TXT", "/DST.TXT").unwrap();
    let move_writes = ram.writes_seen.get() - before;

    // Corrupt one write (a non-device failure that keeps rollback
    // enabled), then latch every later write dead: the rollback delete
    // of the partial destination cannot finish, and the ghost it leaves
    // must be reported instead of swallowed. Scan for the first
    // injection point that lands this way -- a hit on copied data fails
    // the copy verification with reads still alive.
    let mut proven = false;
    for injected in 0..move_writes {
        let (ram, mut fs) = build();
        ram.corrupt_one_write_after.set(Some(injected));
        ram.fail_writes_after.set(Some(injected + 1));
        let result = fs.move_entry_verified("/SRC.TXT", "/DST.TXT");
        ram.corrupt_one_write_after.set(None);
        ram.fail_writes_after.set(None);
        ram.fail_writes.set(false);
        if let Err(error @ FsOpError::CleanupIncomplete(_)) = result {
            assert_eq!(save_failure_reason(&error), "partial copy left");
            // The honest state: destination ghost listed, source intact.
            assert!(fs.entry_exists("/DST.TXT").unwrap());
            assert_eq!(fs.read_file("/SRC.TXT").unwrap(), contents);
            // The ghost blocks a retry until the user deletes it --
            // exactly what the error message warns about.
            assert!(matches!(
                fs.move_entry_verified("/SRC.TXT", "/DST.TXT"),
                Err(FsOpError::AlreadyExists)
            ));
            proven = true;
            break;
        }
    }
    assert!(proven, "no injection point produced CleanupIncomplete");
}

#[test]
fn large_folder_deletes_and_moves_within_bounds() {
    let (_ram, mut fs) = formatted_fs(131_072);
    fs.create_directory_verified("/BIG").unwrap();
    fs.create_directory_verified("/BIG/NESTED").unwrap();
    // Several CHILD_BATCH multiples of files, so the paged copy and the
    // re-list-from-front delete both take multiple passes.
    for index in 0..100 {
        fs.create_empty(&format!("/BIG/F{index:03}.TXT"))
            .unwrap();
    }
    fs.save_verified("/BIG/NESTED/DATA.TXT", b"nested data")
        .unwrap();
    fs.move_entry_verified("/BIG", "/MOVED").unwrap();
    assert!(!fs.entry_exists("/BIG").unwrap());
    assert_eq!(
        fs.read_file("/MOVED/NESTED/DATA.TXT").unwrap(),
        b"nested data"
    );
    assert!(fs.entry_exists("/MOVED/F099.TXT").unwrap());
    fs.delete_verified("/MOVED", true).unwrap();
    assert!(!fs.entry_exists("/MOVED").unwrap());
}

#[test]
fn too_deep_tree_is_refused_before_mutation() {
    let (_ram, mut fs) = formatted_fs(131_072);
    let mut path = String::new();
    for _ in 0..=MAX_TREE_DEPTH {
        path.push_str("/D");
        fs.create_directory_verified(&path).unwrap();
    }
    fs.save_verified("/D/CANARY.TXT", b"survives").unwrap();
    // The pre-scan meets the depth cap before either operation mutates
    // anything, so the shallow canary file must survive both refusals.
    assert!(matches!(
        fs.delete_verified("/D", true),
        Err(FsOpError::TooDeep)
    ));
    assert!(matches!(
        fs.move_entry_verified("/D", "/MOVED"),
        Err(FsOpError::TooDeep)
    ));
    assert_eq!(fs.read_file("/D/CANARY.TXT").unwrap(), b"survives");
    assert!(!fs.entry_exists("/MOVED").unwrap());
}

#[test]
fn fat32_delete_reclaims_all_but_one_cluster() {
    let sectors = 131_072u32;
    let ram = RamBlocks::new(sectors);
    let geometry = format_fat32(&mut stream(&ram), sectors, 0).unwrap();
    let fat_lba = geometry.partition_start + 32;
    // Non-zero entries in the first FAT = allocated clusters (plus the
    // two reserved head entries).
    let count_used = |ram: &RamBlocks| {
        let blocks = ram.blocks.borrow();
        let mut used = 0usize;
        for sector in 0..geometry.fat_sectors {
            for entry in blocks[(fat_lba + sector) as usize].contents.chunks_exact(4) {
                if u32::from_le_bytes(entry.try_into().unwrap()) != 0 {
                    used += 1;
                }
            }
        }
        used
    };
    let layout = probe_fat(&mut stream(&ram), sectors).unwrap();
    let mut fs = mount(ram.clone(), layout).unwrap();
    let baseline = count_used(&ram);
    let contents = vec![0x5au8; 8 * 1024];
    let file_clusters = (contents.len() as u32)
        .div_ceil(u32::from(geometry.sectors_per_cluster) * 512)
        as usize;
    assert!(file_clusters > 1);
    fs.save_verified("/BIG.TXT", &contents).unwrap();
    assert_eq!(count_used(&ram), baseline + file_clusters);
    fs.delete_verified("/BIG.TXT", false).unwrap();
    // The manager's truncate keeps the anchor cluster; everything else
    // must come back on a FAT32 mount.
    assert_eq!(count_used(&ram), baseline + 1);

    // Gating: the reclaim is disabled when the volume was not probed as
    // FAT32, and embedded-sdmmc's delete never touches the FAT, so the
    // whole chain stays allocated.
    drop(fs);
    let mut fs = mount(
        ram.clone(),
        MediaLayout {
            fat32: false,
            ..layout
        },
    )
    .unwrap();
    fs.save_verified("/LEAK.TXT", &contents).unwrap();
    let with_leak = count_used(&ram);
    fs.delete_verified("/LEAK.TXT", false).unwrap();
    assert_eq!(count_used(&ram), with_leak);
}

#[test]
fn free_space_tracks_saves_and_deletes() {
    let sectors = 131_072u32;
    let ram = RamBlocks::new(sectors);
    let geometry = format_fat32(&mut stream(&ram), sectors, 0).unwrap();
    let layout = probe_fat(&mut stream(&ram), sectors).unwrap();
    let mut fs = mount(ram.clone(), layout).unwrap();
    let cluster_bytes = u64::from(geometry.sectors_per_cluster) * 512;

    // Freshly formatted: every cluster is free except the root
    // directory's, exactly as the formatter recorded in FSInfo.
    let initial = fs.free_space_bytes().unwrap();
    assert_eq!(initial, u64::from(geometry.cluster_count - 1) * cluster_bytes);

    let contents = vec![0x5au8; 8 * 1024];
    let file_clusters = u64::from(
        (contents.len() as u32).div_ceil(u32::from(geometry.sectors_per_cluster) * 512),
    );
    fs.save_verified("/BIG.TXT", &contents).unwrap();
    assert_eq!(
        fs.free_space_bytes().unwrap(),
        initial - file_clusters * cluster_bytes
    );

    // The reclaim frees all but the anchor cluster, and that must show
    // up here even though the manager only writes its running count to
    // the FSInfo sector on a volume cycle. The second missing cluster
    // is the manager's truncate accounting drift (see the
    // free_space_bytes docs): the chain's final cluster is freed in the
    // FAT without being counted.
    fs.delete_verified("/BIG.TXT", false).unwrap();
    assert_eq!(fs.free_space_bytes().unwrap(), initial - 2 * cluster_bytes);

    // The measurement cycled the volume; prove the filesystem still
    // works through the reopened handle.
    fs.save_verified("/AGAIN.TXT", b"still mounted").unwrap();
    assert_eq!(fs.read_file("/AGAIN.TXT").unwrap(), b"still mounted");
}

#[test]
fn free_space_survives_transient_read_misses() {
    let sectors = 131_072u32;
    let ram = RamBlocks::new(sectors);
    let geometry = format_fat32(&mut stream(&ram), sectors, 0).unwrap();
    let layout = probe_fat(&mut stream(&ram), sectors).unwrap();
    // Transient flakes are the device layer's job, so this test
    // mounts through RetryBlocks to mirror the firmware's controller
    // device.
    let mut fs = mount(RetryBlocks(ram.clone()), layout).unwrap();
    let expected = u64::from(geometry.cluster_count - 1)
        * u64::from(geometry.sectors_per_cluster)
        * 512;

    // One transient miss per sector: real cards flake on single reads,
    // which the device layer retries.
    ram.fail_next_reads.set(1);
    assert_eq!(fs.free_space_bytes(), Some(expected));

    // A card that stops responding entirely reports unknown instead of
    // a stale or invented figure. The measurement was cached above, so
    // mark it stale the way any mutation would. The failed flush closed
    // the volume and the reopen failed too: the handle is now dead.
    fs.mark_free_space_stale();
    ram.fail_next_reads.set(u32::MAX);
    assert_eq!(fs.free_space_bytes(), None);
    // Still dead: each query retries only the reopen, and the card is
    // still not answering (3 device attempts = one logical read through
    // RetryBlocks).
    ram.fail_next_reads.set(3);
    assert_eq!(fs.free_space_bytes(), None);
    // Card recovered: the very next query repairs the handle and
    // re-measures -- browsing self-heals without waiting for a
    // mutation or a reseat. (The FlushFailed wait-for-a-mutation latch
    // only arises when the close itself is refused via
    // VolumeStillInUse, which no host fixture can produce since every
    // operation closes its handles.)
    ram.fail_next_reads.set(0);
    assert_eq!(fs.free_space_bytes(), Some(expected));
    // The repaired handle really works.
    fs.save_verified("/HEAL.TXT", b"alive").unwrap();
    assert_eq!(fs.read_file("/HEAL.TXT").unwrap(), b"alive");
}

#[test]
fn volume_dead_heal_survives_a_flake_after_the_reopen() {
    // Once the VolumeDead reopen has succeeded the handle is repaired;
    // a single read flake anywhere after it (the measurement, or
    // whatever comes next) must never re-kill the fresh handle.
    // Plain RamBlocks: a single injected flake must reach the library.
    let dead_fs = || {
        let (ram, mut fs) = formatted_fs(131_072);
        fs.free_space_bytes().unwrap();
        fs.mark_free_space_stale();
        ram.fail_next_reads.set(u32::MAX);
        assert_eq!(fs.free_space_bytes(), None, "the flush must kill the handle");
        ram.fail_next_reads.set(0);
        (ram, fs)
    };
    // Reads a bare successful reopen consumes, measured on a twin.
    let (ram, mut fs) = dead_fs();
    let before = ram.reads_seen.get();
    fs.reopen_volume().unwrap();
    let reopen_reads = ram.reads_seen.get() - before;

    for offset in 0..8u32 {
        let (ram, mut fs) = dead_fs();
        ram.fail_one_read_after.set(Some(reopen_reads + offset));
        // The reopen itself stays clean; the flake lands after it. The
        // figure may come back None (the flake hit the measurement) --
        // only the handle's health matters.
        let _ = fs.free_space_bytes();
        ram.fail_one_read_after.set(None);
        fs.save_verified("/HEAL.TXT", b"alive").unwrap_or_else(|error| {
            panic!("offset {offset}: handle still dead after heal: {error:?}")
        });
    }
}

#[test]
fn unknown_fsinfo_free_count_reports_none() {
    let sectors = 131_072u32;
    let ram = RamBlocks::new(sectors);
    let geometry = format_fat32(&mut stream(&ram), sectors, 0).unwrap();
    // A card formatted elsewhere may carry no free-cluster hint; the
    // manager then never maintains one either, so the figure must stay
    // unknown instead of surfacing 0xFFFF_FFFF clusters as bytes.
    ram.blocks.borrow_mut()[(geometry.partition_start + 1) as usize].contents[488..492]
        .copy_from_slice(&0xffff_ffffu32.to_le_bytes());
    let layout = probe_fat(&mut stream(&ram), sectors).unwrap();
    let mut fs = mount(ram.clone(), layout).unwrap();
    assert_eq!(fs.free_space_bytes(), None);
    fs.save_verified("/A.TXT", b"data").unwrap();
    assert_eq!(fs.free_space_bytes(), None);
}

/// The FAT16 fixture's geometry, shared with the tests that assert
/// against specific sectors so there is one source of truth.
const FAT16_START: u32 = 1;
const FAT16_RESERVED: u32 = 1;
const FAT16_ROOT_SECTORS: u32 = 32;
const FAT16_CLUSTERS: u32 = 4_085;

/// A minimal mountable FAT16 volume: MBR slot 0, one-sector reserved
/// area, two FATs, a 512-entry root directory, and just enough clusters
/// to clear the FAT12 boundary. `fat_sectors` sizes each FAT copy (16
/// holds every entry; less under-provisions the FAT), and `mark_tail`
/// pre-marks the phantom tail the way a careful formatter -- or this
/// crate's mount-time repair -- would, keeping the fixture's mounts
/// write-free.
fn fat16_media_custom(fat_sectors: u32, mark_tail: bool) -> (RamBlocks, MediaLayout) {
    let (ram, media_sectors) = fat16_media_image(fat_sectors, mark_tail);
    let layout = probe_fat(&mut stream(&ram), media_sectors).unwrap();
    assert!(!layout.fat32);
    (ram, layout)
}

/// Build the raw FAT16 image without probing it, so tests of volumes
/// the probe must refuse can share the fixture. Returns the media and
/// its sector count.
fn fat16_media_image(fat_sectors: u32, mark_tail: bool) -> (RamBlocks, u32) {
    let total = FAT16_RESERVED + 2 * fat_sectors + FAT16_ROOT_SECTORS + FAT16_CLUSTERS;
    let ram = RamBlocks::new(FAT16_START + total);
    {
        let mut blocks = ram.blocks.borrow_mut();
        let mbr = &mut blocks[0].contents;
        mbr[446 + 4] = 0x06;
        put_u32(&mut mbr[446 + 8..446 + 12], FAT16_START);
        put_u32(&mut mbr[446 + 12..446 + 16], total);
        mbr[510..512].copy_from_slice(&[0x55, 0xaa]);
        let bpb = &mut blocks[FAT16_START as usize].contents;
        put_u16(&mut bpb[11..13], 512);
        bpb[13] = 1;
        put_u16(&mut bpb[14..16], FAT16_RESERVED as u16);
        bpb[16] = 2;
        put_u16(&mut bpb[17..19], 512);
        bpb[21] = 0xf8;
        put_u16(&mut bpb[22..24], fat_sectors as u16);
        put_u32(&mut bpb[32..36], total);
        put_u32(&mut bpb[39..43], 0x1616_1616);
        bpb[510..512].copy_from_slice(&[0x55, 0xaa]);
        for copy in 0..2u32 {
            blocks[(FAT16_START + FAT16_RESERVED + copy * fat_sectors) as usize].contents
                [0..4]
                .copy_from_slice(&[0xf8, 0xff, 0xff, 0xff]);
        }
        // The FAT's last sector has spare entries beyond the volume's
        // real clusters, which the manager's free-cluster search would
        // hand out as allocatable clusters mapping past the end of the
        // media (mount repairs an unmarked tail for exactly that
        // reason).
        if mark_tail {
            let first_phantom = ((FAT16_CLUSTERS + 2) * 2 % 512) as usize;
            for copy in 0..2u32 {
                let last_fat =
                    (FAT16_START + FAT16_RESERVED + (copy + 1) * fat_sectors - 1) as usize;
                for entry in blocks[last_fat].contents[first_phantom..].chunks_exact_mut(2) {
                    entry.copy_from_slice(&[0xf7, 0xff]);
                }
            }
        }
    }
    (ram, FAT16_START + total)
}

fn fat16_media() -> (RamBlocks, MediaLayout) {
    fat16_media_custom(16, true)
}

#[test]
fn fat16_free_space_is_counted_from_the_fat() {
    let (ram, layout) = fat16_media();
    let mut fs = mount(ram.clone(), layout).unwrap();
    let cluster_bytes = 512u64; // one sector per cluster
    assert_eq!(fs.free_space_bytes(), Some(4_085 * cluster_bytes));

    let contents = [0x16u8; 1536]; // three clusters
    fs.save_verified("/DATA.TXT", &contents).unwrap();
    assert_eq!(fs.free_space_bytes(), Some((4_085 - 3) * cluster_bytes));

    // Without the FAT32-only reclaim a deleted file's chain stays
    // allocated, and counting the FAT reports that honestly.
    fs.delete_verified("/DATA.TXT", false).unwrap();
    assert_eq!(fs.free_space_bytes(), Some((4_085 - 3) * cluster_bytes));
}

#[test]
fn entries_of_the_wrong_kind_are_refused() {
    let (_ram, mut fs) = formatted_fs(131_072);
    fs.create_directory_verified("/DIR").unwrap();
    fs.save_verified("/FILE.TXT", b"text").unwrap();
    assert_eq!(fs.delete_verified("/FILE.TXT", true), Err(FsOpError::NotADirectory));
    assert_eq!(fs.delete_verified("/DIR", false), Err(FsOpError::IsADirectory));
    assert_eq!(
        fs.save_transactional("/DIR", b"text"),
        Err(SaveError {
            error: FsOpError::IsADirectory,
            backup_kept: None
        })
    );
    assert_eq!(
        fs.load_text("/DIR").err(),
        Some(LoadError::Filesystem(FsOpError::IsADirectory))
    );
    assert_eq!(
        fs.load_text("/NONE.TXT").err(),
        Some(LoadError::Filesystem(FsOpError::Fs(VolumeError::NotFound)))
    );
    assert!(fs.entry_exists("/DIR").unwrap());
    assert_eq!(fs.read_file("/FILE.TXT").unwrap(), b"text");
}

#[test]
fn documents_come_back_as_they_were_saved() {
    let (_ram, mut fs) = formatted_fs(131_072);
    for size in [0usize, 1, 511, 512, 513, 4_096, MAX_DOCUMENT_BYTES] {
        let contents: Vec<u8> = (0..size).map(|i| b'a' + (i % 26) as u8).collect();
        fs.save_transactional("/DOC.TXT", &contents).unwrap();
        assert_eq!(fs.load_text("/DOC.TXT").ok().unwrap().bytes(), contents);
        assert!(staging_leftovers(&mut fs).is_empty());
    }
    fs.save_verified("/LARGE.TXT", &vec![b'a'; MAX_DOCUMENT_BYTES + 1]).unwrap();
    assert_eq!(fs.load_text("/LARGE.TXT").err(), Some(LoadError::TooLarge));
    fs.save_verified("/BINARY.TXT", &[0xff, 0xfe]).unwrap();
    assert_eq!(fs.load_text("/BINARY.TXT").err(), Some(LoadError::InvalidUtf8));
}

#[test]
fn pages_side_by_side_show_every_entry_once() {
    let (_ram, mut fs) = formatted_fs(131_072);
    fs.create_directory_verified("/DIR").unwrap();
    for index in 0..21 {
        fs.create_empty(&format!("/DIR/F{index:02}.TXT")).unwrap();
    }
    let mut seen = Vec::new();
    let mut offset = 0;
    loop {
        let (page, total) = fs.read_directory_page("/DIR", offset, 8).unwrap();
        assert_eq!(total, 21);
        if page.is_empty() {
            break;
        }
        for (row, item) in page.iter().enumerate() {
            assert_eq!(
                fs.entry_index("/DIR", &item.path).unwrap(),
                Some(offset + row)
            );
        }
        offset += page.len();
        seen.extend(page.into_iter().map(|item| item.name));
    }
    let expected: Vec<String> = (0..21).map(|index| format!("F{index:02}.TXT")).collect();
    assert_eq!(seen, expected);
    assert_eq!(fs.entry_index("/DIR", "/DIR/NONE.TXT").unwrap(), None);
}

#[test]
fn a_mount_reports_what_the_filesystem_layer_says() {
    let (ram, layout) = fat16_media();
    ram.fail_reads.set(true);
    assert_eq!(
        mount(ram.clone(), layout).err(),
        Some(VolumeError::DeviceError(String::from("RamError")))
    );
    ram.fail_reads.set(false);
    assert!(mount(ram.clone(), layout).is_ok());
}

#[test]
fn a_refused_mount_gives_the_volume_back() {
    let (ram, layout) = fat16_media();
    ram.fail_reads.set(true);
    let refused = CardFs::mount_or_return(SdVolume::new(ram.clone()), layout).err().unwrap();
    assert_eq!(
        refused.error,
        VolumeError::DeviceError(String::from("RamError"))
    );
    ram.fail_reads.set(false);
    let fs = CardFs::mount_or_return(refused.volume.into_layer(), layout);
    assert!(CardFs::report_mount(fs).is_ok());
}

#[test]
fn a_loaded_document_keeps_its_newlines() {
    let (_ram, mut fs) = formatted_fs(131_072);
    for (text, typed) in [("a\r\nb", "a\r\nb\r\n"), ("a\nb", "a\nb\n"), ("ab", "ab\n")] {
        fs.save_verified("/DOC.TXT", text.as_bytes()).unwrap();
        let mut document = fs.load_text("/DOC.TXT").ok().unwrap();
        document.set_cursor_end();
        document.insert_newline().unwrap();
        assert_eq!(document.bytes(), typed.as_bytes());
    }
}

#[test]
fn a_save_leaves_everything_else_alone() {
    let (_ram, mut fs) = formatted_fs(131_072);
    fs.save_verified("/~WIO0000.TMP", b"someone else's").unwrap();
    fs.save_verified("/~WIO0001.BAK", b"another's").unwrap();
    fs.save_verified("/OTHER.TXT", b"other").unwrap();
    fs.create_directory_verified("/DIR").unwrap();
    fs.save_verified("/DIR/DOC.TXT", b"below").unwrap();
    for contents in [&b"first"[..], b"second", b""] {
        fs.save_transactional("/DOC.TXT", contents).unwrap();
        assert_eq!(fs.read_file("/DOC.TXT").unwrap(), contents);
        assert_eq!(fs.read_file("/~WIO0000.TMP").unwrap(), b"someone else's");
        assert_eq!(fs.read_file("/~WIO0001.BAK").unwrap(), b"another's");
        assert_eq!(fs.read_file("/OTHER.TXT").unwrap(), b"other");
        assert_eq!(fs.read_file("/DIR/DOC.TXT").unwrap(), b"below");
        let (page, total) = fs.read_directory_page("/", 0, 16).unwrap();
        assert_eq!(total, 5);
        assert_eq!(page.len(), 5);
    }
}

#[test]
fn a_failed_save_keeps_the_old_contents() {
    let old: Vec<u8> = (0..3_000u32).map(|i| b'a' + (i % 26) as u8).collect();
    let new: Vec<u8> = (0..5_000u32).map(|i| b'A' + (i % 26) as u8).collect();
    let build = || {
        let (ram, mut fs) = formatted_fs(131_072);
        fs.save_transactional("/DOC.TXT", &old).unwrap();
        (ram, fs)
    };
    let (ram, mut fs) = build();
    let before = ram.writes_seen.get();
    fs.save_transactional("/DOC.TXT", &new).unwrap();
    let writes = ram.writes_seen.get() - before;
    let mut failed = 0;
    for injected in 0..writes {
        let (ram, mut fs) = build();
        ram.fail_one_write_after.set(Some(injected));
        match fs.save_transactional("/DOC.TXT", &new) {
            Ok(()) => assert_eq!(fs.read_file("/DOC.TXT").unwrap(), new),
            Err(failure) => {
                failed += 1;
                let holder = failure.backup_kept.unwrap_or(String::from("/DOC.TXT"));
                assert_eq!(fs.read_file(&holder).unwrap(), old);
            }
        }
    }
    assert!(failed > 0);
}

#[test]
fn a_move_carries_the_whole_tree() {
    let (_ram, mut fs) = formatted_fs(131_072);
    fs.create_directory_verified("/SRC").unwrap();
    fs.create_directory_verified("/SRC/SUB").unwrap();
    fs.create_directory_verified("/SRC/SUB/EMPTY").unwrap();
    for index in 0..40 {
        let text = format!("file {index}");
        fs.save_verified(&format!("/SRC/F{index:02}.TXT"), text.as_bytes()).unwrap();
    }
    fs.save_verified("/SRC/SUB/DEEP.TXT", b"deep").unwrap();
    fs.save_verified("/OTHER.TXT", b"other").unwrap();
    fs.move_entry_verified("/SRC", "/DEST").unwrap();
    assert!(!fs.entry_exists("/SRC").unwrap());
    for index in 0..40 {
        let text = format!("file {index}");
        assert_eq!(
            fs.read_file(&format!("/DEST/F{index:02}.TXT")).unwrap(),
            text.as_bytes()
        );
    }
    assert_eq!(fs.read_file("/DEST/SUB/DEEP.TXT").unwrap(), b"deep");
    assert!(fs.entry_exists("/DEST/SUB/EMPTY").unwrap());
    assert_eq!(fs.read_file("/OTHER.TXT").unwrap(), b"other");
    assert_eq!(
        fs.move_entry_verified("/DEST", "/DEST/SUB/INNER"),
        Err(FsOpError::MoveIntoSelf)
    );
    fs.delete_verified("/DEST", true).unwrap();
    assert!(!fs.entry_exists("/DEST").unwrap());
    assert_eq!(fs.read_file("/OTHER.TXT").unwrap(), b"other");
    assert_eq!(
        fs.delete_verified("/DEST", true),
        Err(FsOpError::Fs(VolumeError::NotFound))
    );
}

#[test]
fn a_document_may_bear_a_staging_name_that_is_not_in_use() {
    let (_ram, mut fs) = formatted_fs(131_072);
    // The first free suffix is 0000: only its temporary name is in the way.
    for path in ["/~WIO0000.BAK", "/~WIO0001.TMP", "/~WIO0001.BAK"] {
        fs.save_transactional(path, b"text").unwrap();
        assert_eq!(fs.read_file(path).unwrap(), b"text");
        let (_, total) = fs.read_directory_page("/", 0, 8).unwrap();
        assert_eq!(total, 1);
        fs.delete_verified(path, false).unwrap();
    }
    fs.save_verified("/~WIO0000.TMP", b"old").unwrap();
    fs.save_transactional("/~WIO0000.TMP", b"new").unwrap();
    assert_eq!(fs.read_file("/~WIO0000.TMP").unwrap(), b"new");
    let (_, total) = fs.read_directory_page("/", 0, 8).unwrap();
    assert_eq!(total, 1);
}

#[test]
fn a_deep_tree_is_moved_and_deleted_whole() {
    let (_ram, mut fs) = formatted_fs(131_072);
    fs.create_directory_verified("/DIR").unwrap();
    let mut path = String::from("/DIR");
    for _ in 1..MAX_TREE_DEPTH {
        path.push_str("/D");
        fs.create_directory_verified(&path).unwrap();
        fs.save_verified(&format!("{path}/F.TXT"), b"text").unwrap();
    }
    fs.save_verified("/KEEP.TXT", b"kept").unwrap();
    fs.move_entry_verified("/DIR", "/MOVED").unwrap();
    assert_eq!(fs.read_file("/MOVED/D/D/F.TXT").unwrap(), b"text");
    fs.delete_verified("/MOVED", true).unwrap();
    fs.delete_verified("/KEEP.TXT", false).unwrap();
    let (_, total) = fs.read_directory_page("/", 0, 8).unwrap();
    assert_eq!(total, 0);
}
