use std::cell::{Cell, RefCell};
use std::rc::Rc;

use wio_terminal_sd_editor::blocks::{BlockAccess, RecordedBlocks};
use wio_terminal_sd_editor::bus::SelectedSdDevice;
use wio_terminal_sd_editor::console::{CardNeed, Console};
use wio_terminal_sd_editor::controller::ControllerDevice;
use wio_terminal_sd_editor::device::{
    accept_inserted_card, accept_layout, after_format, battery_status, complete_format,
    complete_mount, format_card, format_confirmed, format_prompt, is_due, mark_card_removed,
    mount_failure, mount_volume, probe_card, should_retry_mount, BatteryStatus, CardSlot,
    FormatFailure, SlotEvent, CARD_SETTLE_TICKS, FORMAT_HOLD_TICKS,
};
use wio_terminal_sd_editor::driver::CardDriver;
use wio_terminal_sd_editor::explorer::Explorer;
use wio_terminal_sd_editor::gauge::{
    read_battery, BatteryI2c, BUS_FREE_CYCLES, HALF_PERIOD_CYCLES,
};
use wio_terminal_sd_editor::handlers::open_editor;
use wio_terminal_sd_editor::mounting::CardSeat;
use wio_terminal_sd_editor::port::CardPort;
use wio_terminal_sd_editor::screens::{EditorMedia, MediaIdentity, MountFailure, Screen};
use wio_terminal_sd_editor::serial::SerialBus;
use wio_terminal_sd_editor::storage::Recorded;
use wio_terminal_sd_editor::stream::{SeekFrom, StreamErrorKind};
use wio_terminal_sd_editor::volume::{EntryFacts, EntryScan, OpenMode, VolumeAccess};
use wio_terminal_sd_editor::wires::{TwoWire, STRETCH_POLLS};
use wio_terminal_sd_editor::{
    format_fat32, Button, CardFs, MediaLayout, ProbeError, SdStream, SdStreamError, TextBuffer,
    RawButtons, VolumeError, SD_RETRY_ATTEMPTS,
};

/// A card whose commands fail as often as it is told.
struct FlakyCard {
    blocks: Rc<RefCell<Vec<[u8; 512]>>>,
    fail_next: Rc<Cell<u32>>,
    late_errors: Rc<Cell<bool>>,
    attempts: Rc<Cell<u32>>,
    recoveries: Rc<Cell<u32>>,
}

impl FlakyCard {
    fn new(count: usize) -> Self {
        FlakyCard {
            blocks: Rc::new(RefCell::new(vec![[0; 512]; count])),
            fail_next: Rc::new(Cell::new(0)),
            late_errors: Rc::new(Cell::new(false)),
            attempts: Rc::new(Cell::new(0)),
            recoveries: Rc::new(Cell::new(0)),
        }
    }

    fn flake(&self) -> bool {
        self.attempts.set(self.attempts.get() + 1);
        let left = self.fail_next.get();
        if left > 0 {
            self.fail_next.set(left - 1);
            return true;
        }
        false
    }
}

impl CardDriver for FlakyCard {
    type Error = &'static str;

    fn prepare(&mut self) -> bool {
        self.recoveries.set(self.recoveries.get() + 1);
        true
    }

    fn mark_uninit(&mut self) {}

    fn read(&mut self, start: u32, count: usize) -> Result<Vec<[u8; 512]>, &'static str> {
        if self.flake() {
            return Err("ReadError");
        }
        let start = start as usize;
        Ok(self.blocks.borrow()[start..start + count].to_vec())
    }

    fn write(&mut self, start: u32, blocks: &Vec<[u8; 512]>) -> Result<(), &'static str> {
        if self.flake() {
            return Err("WriteError");
        }
        let start = start as usize;
        self.blocks.borrow_mut()[start..start + blocks.len()].copy_from_slice(blocks);
        if self.late_errors.get() {
            Err("WriteError")
        } else {
            Ok(())
        }
    }

    fn num_blocks(&mut self) -> Result<u32, &'static str> {
        if self.flake() {
            return Err("NoCard");
        }
        Ok(self.blocks.borrow().len() as u32)
    }
}

#[test]
fn a_flake_is_retried_after_a_recovery() {
    let card = FlakyCard::new(4);
    let (fail_next, recoveries) = (card.fail_next.clone(), card.recoveries.clone());
    let mut device = ControllerDevice::new(card);
    fail_next.set(2);
    assert_eq!(device.num_blocks(), Ok(4));
    assert_eq!(recoveries.get(), 2);
}

#[test]
fn a_dead_card_costs_one_attempt_until_it_answers() {
    let card = FlakyCard::new(4);
    let (fail_next, recoveries) = (card.fail_next.clone(), card.recoveries.clone());
    let attempts = card.attempts.clone();
    let mut device = ControllerDevice::new(card);
    fail_next.set(u32::MAX);
    assert_eq!(device.read(0, 1), Err("ReadError"));
    assert_eq!(attempts.get(), SD_RETRY_ATTEMPTS as u32);
    assert_eq!(recoveries.get(), SD_RETRY_ATTEMPTS as u32 - 1);
    assert_eq!(device.read(0, 1), Err("ReadError"));
    assert_eq!(attempts.get(), SD_RETRY_ATTEMPTS as u32 + 1);
    assert_eq!(recoveries.get(), SD_RETRY_ATTEMPTS as u32 - 1);
    fail_next.set(0);
    assert_eq!(device.read(0, 1), Ok(vec![[0; 512]]));
    fail_next.set(1);
    assert_eq!(device.read(0, 1), Ok(vec![[0; 512]]));
}

#[test]
fn a_late_error_does_not_hide_a_write_that_landed() {
    let card = FlakyCard::new(4);
    let (blocks, late) = (card.blocks.clone(), card.late_errors.clone());
    let recoveries = card.recoveries.clone();
    let mut device = ControllerDevice::new(card);
    late.set(true);
    assert_eq!(device.write(2, vec![[7; 512]]), Ok(()));
    assert_eq!(blocks.borrow()[2], [7; 512]);
    assert_eq!(recoveries.get(), 0);
    // Several blocks are not read back.
    assert_eq!(device.write(0, vec![[8; 512], [9; 512]]), Err("WriteError"));
}

/// A bus that notes what is done with it.
struct Bus {
    steps: Rc<RefCell<Vec<String>>>,
    fail_at: Rc<Cell<Option<usize>>>,
}

impl Bus {
    fn step(&self, step: String) -> bool {
        let at = self.steps.borrow().len();
        self.steps.borrow_mut().push(step);
        self.fail_at.get() != Some(at)
    }
}

impl SerialBus for Bus {
    type Error = ();

    fn deselect(&mut self) -> bool {
        self.step(String::from("high"))
    }

    fn select(&mut self) -> bool {
        self.step(String::from("low"))
    }

    fn exchange(&mut self, bytes: &[u8]) -> Result<(), ()> {
        if self.step(format!("send {}", bytes.len())) {
            Ok(())
        } else {
            Err(())
        }
    }

    fn flush(&mut self) -> Result<(), ()> {
        if self.step(String::from("flush")) {
            Ok(())
        } else {
            Err(())
        }
    }
}

#[test]
fn a_card_is_clocked_unselected_and_then_selected() {
    let steps = Rc::new(RefCell::new(Vec::new()));
    let fail_at = Rc::new(Cell::new(None));
    let bus = Bus {
        steps: steps.clone(),
        fail_at: fail_at.clone(),
    };
    let mut device = SelectedSdDevice::new(bus).ok().unwrap();
    assert_eq!(*steps.borrow(), ["high", "send 10", "flush", "low"]);
    steps.borrow_mut().clear();
    assert_eq!(device.write_discarding_read(&[0; 70]), Ok(()));
    assert_eq!(*steps.borrow(), ["send 32", "send 32", "send 6"]);
    steps.borrow_mut().clear();
    fail_at.set(Some(1));
    assert_eq!(device.write_discarding_read(&[0; 70]), Err(()));
    assert_eq!(*steps.borrow(), ["send 32", "send 32"]);
    for at in 0..4 {
        steps.borrow_mut().clear();
        fail_at.set(Some(at));
        assert!(!device.prepare_card());
        assert_eq!(steps.borrow().len(), at + 1);
    }
    steps.borrow_mut().clear();
    fail_at.set(Some(2));
    let refused = SelectedSdDevice::new(Bus {
        steps: steps.clone(),
        fail_at: fail_at.clone(),
    });
    assert_eq!(*steps.borrow(), ["high", "send 10", "flush"]);
    fail_at.set(None);
    assert!(refused.err().unwrap().prepare_card());
}

/// A gauge on two wires: it follows the bits on them and answers reads.
struct Gauge {
    registers: Vec<(u8, u16)>,
    sda_driven: bool,
    scl_driven: bool,
    /// The gauge holds the data wire low.
    holding: bool,
    bits: Vec<bool>,
    sending: Vec<bool>,
    addressed: bool,
    register: Option<u8>,
    reading: bool,
    in_packet: bool,
    stuck_clock: bool,
    polls: Rc<Cell<usize>>,
    waited: Rc<Cell<u64>>,
    attached: bool,
}

impl Gauge {
    fn new(registers: &[(u8, u16)]) -> Self {
        Gauge {
            registers: registers.to_vec(),
            sda_driven: false,
            scl_driven: false,
            holding: false,
            bits: Vec::new(),
            sending: Vec::new(),
            addressed: false,
            register: None,
            reading: false,
            in_packet: false,
            stuck_clock: false,
            polls: Rc::new(Cell::new(0)),
            waited: Rc::new(Cell::new(0)),
            attached: true,
        }
    }

    fn sda(&self) -> bool {
        !(self.sda_driven || self.holding)
    }

    fn set_sda(&mut self, driven: bool) {
        let before = self.sda();
        self.sda_driven = driven;
        let after = self.sda();
        if !self.scl_driven && before != after {
            self.bits.clear();
            if before {
                // The data wire fell while the clock was high: a start.
                self.in_packet = true;
                self.addressed = false;
                self.reading = false;
                self.sending.clear();
            } else {
                self.in_packet = false;
                self.register = None;
            }
        }
    }

    fn clock_rose(&mut self) {
        if !self.in_packet || !self.attached {
            return;
        }
        self.bits.push(self.sda());
    }

    fn clock_fell(&mut self) {
        if !self.in_packet || !self.attached {
            return;
        }
        self.holding = false;
        if self.reading && self.addressed {
            if self.bits.len() == 9 {
                self.bits.clear();
            }
            // Show the next bit, except where the master acknowledges.
            if self.bits.len() < 8 && !self.sending.is_empty() {
                self.holding = !self.sending.remove(0);
            }
            return;
        }
        if self.bits.len() == 8 {
            let mut byte = 0u8;
            for bit in &self.bits {
                byte = (byte << 1) | u8::from(*bit);
            }
            self.holding = true;
            if !self.addressed {
                self.addressed = true;
                if byte == 0xab {
                    self.reading = true;
                    let wanted = self.register.unwrap_or(0);
                    let found = self.registers.iter().find(|entry| entry.0 == wanted);
                    let word = found.map_or(0xffff, |entry| entry.1);
                    for part in word.to_le_bytes() {
                        for bit in (0..8).rev() {
                            self.sending.push(part & (1 << bit) != 0);
                        }
                    }
                    // The acknowledgement comes before the first bit.
                    self.bits = vec![true; 8];
                } else if byte != 0xaa {
                    self.holding = false;
                }
            } else {
                self.register = Some(byte);
            }
            if !self.reading {
                return;
            }
        } else if self.bits.len() == 9 {
            self.bits.clear();
        }
    }
}

impl TwoWire for Gauge {
    fn drive_sda_low(&mut self) {
        self.set_sda(true);
    }

    fn release_sda(&mut self) {
        self.set_sda(false);
    }

    fn drive_scl_low(&mut self) {
        if !self.scl_driven {
            self.scl_driven = true;
            self.clock_fell();
        }
    }

    fn release_scl(&mut self) {
        if self.scl_driven {
            self.scl_driven = false;
            self.clock_rose();
        }
    }

    fn sda_is_high(&mut self) -> Option<bool> {
        Some(self.sda())
    }

    fn scl_is_high(&mut self) -> Option<bool> {
        self.polls.set(self.polls.get() + 1);
        Some(!self.stuck_clock && !self.scl_driven)
    }

    fn wait(&mut self, cycles: u32) {
        self.waited.set(self.waited.get() + u64::from(cycles));
    }
}

#[test]
fn the_gauge_is_read_over_its_two_wires() {
    let mut master = BatteryI2c::new(Gauge::new(&[(0x1c, 87), (0x10, 0x0123)]));
    assert_eq!(master.read_word(0x1c), Some(87));
    assert_eq!(master.read_word(0x10), Some(0x0123));
    assert_eq!(
        read_battery(&mut master),
        Some(BatteryStatus {
            percent: 87,
            charging: true
        })
    );
}

#[test]
fn a_discharging_battery_is_not_charging() {
    let mut master = BatteryI2c::new(Gauge::new(&[(0x1c, 100), (0x10, 0xff00)]));
    assert_eq!(
        read_battery(&mut master),
        Some(BatteryStatus {
            percent: 100,
            charging: false
        })
    );
    let mut master = BatteryI2c::new(Gauge::new(&[(0x1c, 101), (0x10, 1)]));
    assert_eq!(read_battery(&mut master), None);
}

#[test]
fn a_missing_chassis_does_not_acknowledge() {
    let mut gauge = Gauge::new(&[]);
    gauge.attached = false;
    let waited = gauge.waited.clone();
    let mut master = BatteryI2c::new(gauge);
    assert_eq!(master.read_word(0x1c), None);
    // A start, eight bits, the acknowledgement and a stop.
    let halves = u64::from(HALF_PERIOD_CYCLES);
    assert_eq!(waited.get(), (3 + 16 + 2 + 2) * halves + u64::from(BUS_FREE_CYCLES));
    assert_eq!(read_battery(&mut master), None);
}

#[test]
fn a_stuck_clock_is_waited_for_only_so_long() {
    let mut gauge = Gauge::new(&[]);
    gauge.stuck_clock = true;
    let polls = gauge.polls.clone();
    let mut master = BatteryI2c::new(gauge);
    assert_eq!(master.read_word(0x1c), None);
    assert_eq!(polls.get(), STRETCH_POLLS);
}

#[test]
fn the_words_of_the_gauge_make_a_status() {
    assert_eq!(battery_status(None, Some(5)), None);
    assert_eq!(battery_status(Some(101), Some(5)), None);
    assert_eq!(
        battery_status(Some(0), None),
        Some(BatteryStatus {
            percent: 0,
            charging: false
        })
    );
    assert_eq!(
        battery_status(Some(50), Some(0x7fff)),
        Some(BatteryStatus {
            percent: 50,
            charging: true
        })
    );
    assert_eq!(
        battery_status(Some(50), Some(0x8000)),
        Some(BatteryStatus {
            percent: 50,
            charging: false
        })
    );
}

#[test]
fn removal_acts_at_once_and_insertion_waits() {
    let mut slot = CardSlot::new(0);
    assert_eq!(slot.observe(true, 10), None);
    assert_eq!(slot.observe(true, 10 + CARD_SETTLE_TICKS - 1), None);
    assert_eq!(slot.observe(false, 10 + CARD_SETTLE_TICKS), None);
    assert_eq!(slot.observe(true, 300), None);
    assert_eq!(slot.observe(true, 300 + CARD_SETTLE_TICKS), Some(SlotEvent::Inserted));
    assert_eq!(slot.observe(true, 1_000), None);
    assert_eq!(slot.observe(false, 1_001), Some(SlotEvent::Removed));
    assert_eq!(slot.observe(false, 1_002), None);
}

#[test]
fn intervals_survive_a_wrapping_clock() {
    assert!(!is_due(20, 0, 21));
    assert!(is_due(21, 0, 21));
    assert!(is_due(5, u32::MAX - 20, 21));
    assert!(!is_due(5, u32::MAX - 14, 21));
}

#[test]
fn only_a_press_after_the_prompt_confirms() {
    let prompt = format_prompt(MountFailure::Invalid, 1_000);
    assert!(!format_confirmed(&prompt, FORMAT_HOLD_TICKS - 1, 5_000));
    assert!(format_confirmed(&prompt, FORMAT_HOLD_TICKS, 1_000 + FORMAT_HOLD_TICKS));
    // The button was already held when the prompt appeared.
    assert!(!format_confirmed(&prompt, FORMAT_HOLD_TICKS + 1, 1_000 + FORMAT_HOLD_TICKS));
    let cancelled = Screen::FormatPrompt {
        reason: "Unsupported filesystem",
        cancelled: true,
        opened_at: 0,
    };
    assert!(!format_confirmed(&cancelled, FORMAT_HOLD_TICKS, 10_000));
    assert!(!format_confirmed(&Screen::Missing, FORMAT_HOLD_TICKS, 10_000));
}

/// A card of blocks in memory.
#[derive(Clone)]
struct Ram {
    blocks: Rc<RefCell<Vec<[u8; 512]>>>,
    fail_reads: Rc<Cell<bool>>,
    fail_writes: Rc<Cell<bool>>,
}

impl Ram {
    fn new(sectors: usize) -> Ram {
        Ram {
            blocks: Rc::new(RefCell::new(vec![[0; 512]; sectors])),
            fail_reads: Rc::new(Cell::new(false)),
            fail_writes: Rc::new(Cell::new(false)),
        }
    }

    fn stream(&self) -> Recorded<SdStream<Ram>> {
        Recorded::new(SdStream::new(self.clone()).unwrap())
    }
}

impl BlockAccess for Ram {
    fn num_blocks(&mut self) -> Result<u32, String> {
        if self.fail_reads.get() {
            return Err(String::from("NoCard"));
        }
        Ok(self.blocks.borrow().len() as u32)
    }

    fn read_block(&mut self, index: u32) -> Result<[u8; 512], String> {
        if self.fail_reads.get() {
            return Err(String::from("ReadError"));
        }
        Ok(self.blocks.borrow()[index as usize])
    }

    fn write_block(&mut self, index: u32, contents: &[u8; 512]) -> Result<(), String> {
        if self.fail_writes.get() {
            return Err(String::from("WriteError"));
        }
        self.blocks.borrow_mut()[index as usize] = *contents;
        Ok(())
    }
}

#[test]
fn a_formatted_card_is_probed() {
    let ram = Ram::new(70_000);
    let length = 70_000u64 * 512;
    assert_eq!(probe_card(&mut ram.stream(), length), Err(MountFailure::Invalid));
    assert_eq!(format_card(&mut ram.stream(), length, 7), Ok(()));
    let (layout, identity) = probe_card(&mut ram.stream(), length).unwrap();
    assert!(layout.fat32);
    assert_eq!(layout.start_lba, 2_048);
    assert_eq!(identity.sectors, 70_000);
    assert_eq!(identity.partition_start, 2_048);
    assert_eq!(identity.volume_serial, layout.volume_serial);
    ram.fail_reads.set(true);
    assert!(SdStream::new(ram.clone()).is_err());
}

#[test]
fn formatting_names_its_failures() {
    let ram = Ram::new(1_000);
    assert_eq!(
        format_card(&mut ram.stream(), 1_000 * 512, 0),
        Err(FormatFailure::TooSmall)
    );
    assert_eq!(
        format_card(&mut ram.stream(), (1u64 << 32) * 512, 0),
        Err(FormatFailure::TooLarge)
    );
    // The search for a cluster size never settles on this one.
    assert_eq!(
        format_card(&mut ram.stream(), 68_639 * 512, 0),
        Err(FormatFailure::Failed)
    );
    let ram = Ram::new(70_000);
    ram.fail_writes.set(true);
    assert_eq!(
        format_card(&mut ram.stream(), 70_000 * 512, 0),
        Err(FormatFailure::Io)
    );
    assert_eq!(after_format(MountFailure::Io), FormatFailure::Io);
    assert_eq!(after_format(MountFailure::Invalid), FormatFailure::Failed);
}

#[test]
fn formatting_stays_on_the_card() {
    let ram = Ram::new(70_000);
    ram.blocks.borrow_mut()[69_998] = [0x5a; 512];
    let geometry = format_fat32(&mut ram.stream(), 69_000, 0).unwrap();
    assert!(geometry.partition_start + geometry.partition_sectors <= 69_000);
    assert_eq!(ram.blocks.borrow()[69_998], [0x5a; 512]);
}

#[test]
fn layouts_without_a_partition_table_are_unsupported() {
    let layout = MediaLayout {
        start_lba: 0,
        sector_count: 100_000,
        volume_serial: 5,
        partition_index: 0,
        fat32: true,
    };
    assert_eq!(
        accept_layout::<()>(Ok(layout), 100_000),
        Err(MountFailure::Unsupported)
    );
    assert_eq!(accept_layout(Err(ProbeError::Io(())), 1), Err(MountFailure::Io));
    assert_eq!(
        accept_layout::<()>(Err(ProbeError::Unsupported), 1),
        Err(MountFailure::Unsupported)
    );
    assert_eq!(
        accept_layout::<()>(Err(ProbeError::Invalid), 1),
        Err(MountFailure::Invalid)
    );
}

#[test]
fn mount_reports_are_classified() {
    assert_eq!(
        mount_failure(&VolumeError::DeviceError(String::from("ReadError"))),
        MountFailure::Io
    );
    assert_eq!(mount_failure(&VolumeError::Unsupported), MountFailure::Unsupported);
    assert_eq!(mount_failure(&VolumeError::NoSuchVolume), MountFailure::Invalid);
    assert!(matches!(
        format_prompt(MountFailure::Io, 3),
        Screen::Fatal("SD read failed; remove and reinsert")
    ));
    assert!(matches!(
        format_prompt(MountFailure::Unsupported, 3),
        Screen::FormatPrompt {
            reason: "Unsupported filesystem",
            cancelled: false,
            opened_at: 3
        }
    ));
}

/// A volume with nothing on it.
struct Empty {
    opens: bool,
}

impl VolumeAccess for Empty {
    type Dir = ();
    type File = ();

    fn read_sector(&mut self, _lba: u32) -> Option<[u8; 512]> {
        None
    }

    fn write_sector(&mut self, _lba: u32, _contents: &[u8; 512]) -> bool {
        false
    }

    fn drop_cache(&mut self) {}

    fn open_volume(&mut self, _partition: u8) -> Result<(), VolumeError> {
        if self.opens {
            Ok(())
        } else {
            Err(VolumeError::DeviceError(String::from("ReadError")))
        }
    }

    fn close_volume(&mut self) -> Result<(), VolumeError> {
        Ok(())
    }

    fn open_root_dir(&mut self) -> Result<(), VolumeError> {
        Ok(())
    }

    fn open_dir(&mut self, _parent: (), _name: &str) -> Result<(), VolumeError> {
        Err(VolumeError::NotFound)
    }

    fn close_dir(&mut self, _dir: ()) {}

    fn find_entry(&mut self, _dir: (), _name: &str) -> Result<EntryFacts, VolumeError> {
        Err(VolumeError::NotFound)
    }

    fn iterate_dir(&mut self, _dir: (), scan: EntryScan) -> Result<EntryScan, VolumeError> {
        Ok(scan)
    }

    fn make_dir(&mut self, _dir: (), _name: &str) -> Result<(), VolumeError> {
        Err(VolumeError::Unsupported)
    }

    fn delete_entry(&mut self, _dir: (), _name: &str) -> Result<(), VolumeError> {
        Err(VolumeError::NotFound)
    }

    fn open_file(&mut self, _dir: (), _name: &str, _mode: OpenMode) -> Result<(), VolumeError> {
        Err(VolumeError::NotFound)
    }

    fn read(&mut self, _file: (), _limit: usize) -> Result<Vec<u8>, VolumeError> {
        Err(VolumeError::BadHandle)
    }

    fn write(&mut self, _file: (), _bytes: &[u8]) -> Result<(), VolumeError> {
        Err(VolumeError::BadHandle)
    }

    fn close_file(&mut self, _file: ()) -> Result<(), VolumeError> {
        Ok(())
    }
}

const LAYOUT: MediaLayout = MediaLayout {
    start_lba: 1,
    sector_count: 100,
    volume_serial: 9,
    partition_index: 0,
    fat32: false,
};

fn identity(serial: u32) -> MediaIdentity {
    MediaIdentity {
        sectors: 101,
        partition_start: 1,
        volume_serial: serial,
    }
}

fn document() -> Screen {
    let buffer = TextBuffer::from_bytes(b"text".to_vec()).ok().unwrap();
    open_editor(
        Explorer::root(),
        String::from("/A.TXT"),
        String::from("A.TXT"),
        buffer,
        identity(9),
    )
}

#[test]
fn a_mounted_card_is_shown() {
    let mut card: Option<CardFs<Empty>> = None;
    let mut known = None;
    let fs = mount_volume(Empty { opens: true }, LAYOUT).ok().unwrap();
    let next = complete_mount(Screen::Missing, Ok((fs, identity(9))), &mut card, &mut known, 5);
    assert!(matches!(next, Screen::Explorer(_)));
    assert!(card.is_some());
    assert_eq!(known, Some(identity(9)));
    assert_eq!(
        mount_volume(Empty { opens: false }, LAYOUT).err().map(|refused| refused.0),
        Some(MountFailure::Io)
    );
}

#[test]
fn a_card_that_does_not_mount_is_offered_for_formatting() {
    let mut card: Option<CardFs<Empty>> = None;
    let mut known = None;
    let next = complete_mount(
        Screen::Missing,
        Err(MountFailure::Invalid),
        &mut card,
        &mut known,
        5,
    );
    assert!(matches!(next, Screen::FormatPrompt { cancelled: false, opened_at: 5, .. }));
    assert!(card.is_none());
    assert_eq!(known, None);
    let slot = CardSlot {
        acted_on: true,
        seen: true,
        seen_since: 0,
    };
    assert!(!should_retry_mount(&card, &slot, &next));
    assert!(should_retry_mount(&card, &slot, &Screen::Missing));
}

#[test]
fn an_open_document_survives_the_card() {
    let removed = mark_card_removed(document());
    assert!(matches!(&removed, Screen::Editor(editor) if editor.media == EditorMedia::Removed
        && editor.buffer.bytes() == b"text"));
    let other = accept_inserted_card(removed, identity(8));
    assert!(matches!(&other, Screen::Editor(editor) if editor.media == EditorMedia::Different));
    let same = accept_inserted_card(other, identity(9));
    assert!(matches!(&same, Screen::Editor(editor) if editor.media == EditorMedia::Ready));
    assert!(matches!(mark_card_removed(Screen::Explorer(Explorer::root())), Screen::Missing));
}

#[test]
fn a_fresh_format_shows_its_root_or_its_failure() {
    let mut card: Option<CardFs<Empty>> = None;
    let mut known = None;
    let next = complete_format(Err(FormatFailure::TooSmall), &mut card, &mut known);
    assert!(matches!(next, Screen::Fatal("Card too small for FAT32")));
    let fs = mount_volume(Empty { opens: true }, LAYOUT).ok().unwrap();
    let next = complete_format(Ok((fs, identity(9))), &mut card, &mut known);
    assert!(matches!(next, Screen::Explorer(_)));
    assert_eq!(known, Some(identity(9)));
}

#[test]
fn stream_errors_have_words_and_kinds() {
    assert_eq!(
        SdStreamError::DeviceRead(String::from("Timeout")).message(),
        "SD card read error: Timeout"
    );
    assert_eq!(
        SdStreamError::DeviceWrite(String::from("Timeout")).message(),
        "SD card write error: Timeout"
    );
    assert_eq!(
        SdStreamError::DeviceSize(String::from("Timeout")).message(),
        "SD card size error: Timeout"
    );
    assert_eq!(
        SdStreamError::OutOfBounds.message(),
        "SD access outside media bounds"
    );
    assert_eq!(SdStreamError::OutOfBounds.kind(), StreamErrorKind::InvalidInput);
    assert_eq!(
        SdStreamError::DeviceSize(String::new()).kind(),
        StreamErrorKind::Other
    );
}

#[test]
fn a_stream_stays_within_the_card() {
    let ram = Ram::new(2);
    let mut stream = SdStream::new(ram.clone()).unwrap();
    assert_eq!(stream.len(), 1_024);
    assert!(!stream.is_empty());
    assert_eq!(stream.seek(SeekFrom::End(-3)), Ok(1_021));
    assert_eq!(stream.write(&[1, 2, 3, 4]), Ok(3));
    assert_eq!(stream.seek(SeekFrom::Current(1)), Err(SdStreamError::OutOfBounds));
    assert_eq!(stream.seek(SeekFrom::Current(-4)), Ok(1_020));
    let mut bytes = [9; 8];
    assert_eq!(stream.read(&mut bytes), Ok(4));
    assert_eq!(bytes, [0, 1, 2, 3, 9, 9, 9, 9]);
    assert_eq!(stream.read(&mut bytes), Ok(0));
    ram.fail_writes.set(true);
    assert_eq!(stream.seek(SeekFrom::Start(0)), Ok(0));
    assert_eq!(
        stream.write(&[1; 512]),
        Err(SdStreamError::DeviceWrite(String::from("WriteError")))
    );
    ram.fail_reads.set(true);
    assert_eq!(
        stream.read(&mut bytes),
        Err(SdStreamError::DeviceRead(String::from("ReadError")))
    );
    assert!(matches!(
        SdStream::new(ram.clone()),
        Err(SdStreamError::DeviceSize(_))
    ));
    assert_eq!(stream.into_inner().blocks.borrow().len(), 2);
}

/// A slot that holds a card in memory.
struct RamPort {
    ram: Ram,
    prepared: Rc<Cell<bool>>,
    opens: bool,
    steps: Rc<RefCell<Vec<&'static str>>>,
}

impl CardPort for RamPort {
    type Blocks = Ram;
    type Layer = Empty;

    fn prepare(&mut self) -> bool {
        self.steps.borrow_mut().push("prepare");
        self.prepared.get()
    }

    fn mark_uninit(&mut self) {
        self.steps.borrow_mut().push("uninit");
    }

    fn keep_slow(&mut self) {
        self.steps.borrow_mut().push("slow");
    }

    fn blocks(&mut self) -> Ram {
        self.steps.borrow_mut().push("blocks");
        self.ram.clone()
    }

    fn layer(&mut self) -> Empty {
        self.steps.borrow_mut().push("layer");
        Empty { opens: self.opens }
    }
}

fn ram_port(ram: &Ram, opens: bool) -> RamPort {
    RamPort {
        ram: ram.clone(),
        prepared: Rc::new(Cell::new(true)),
        opens,
        steps: Rc::new(RefCell::new(Vec::new())),
    }
}

#[test]
fn a_card_is_formatted_and_mounted_in_its_slot() {
    let ram = Ram::new(70_000);
    let port = ram_port(&ram, true);
    let steps = port.steps.clone();
    let mut seat = CardSeat::new(port);
    assert_eq!(seat.mount_card().err(), Some(MountFailure::Invalid));
    assert_eq!(*steps.borrow(), ["prepare", "uninit", "blocks", "slow"]);
    steps.borrow_mut().clear();
    let (_, identity) = seat.format_and_mount(7).ok().unwrap();
    assert_eq!(identity.sectors, 70_000);
    assert_eq!(identity.partition_start, 2_048);
    assert_eq!(
        *steps.borrow(),
        ["blocks", "prepare", "uninit", "blocks", "slow", "layer"]
    );
    let (_, again) = seat.mount_card().ok().unwrap();
    assert_eq!(again, identity);
}

#[test]
fn a_slot_reports_why_nothing_was_mounted() {
    let ram = Ram::new(70_000);
    let port = ram_port(&ram, false);
    let prepared = port.prepared.clone();
    let mut seat = CardSeat::new(port);
    prepared.set(false);
    assert_eq!(seat.mount_card().err(), Some(MountFailure::Io));
    prepared.set(true);
    ram.fail_reads.set(true);
    assert_eq!(seat.mount_card().err(), Some(MountFailure::Io));
    assert_eq!(seat.format_and_mount(0).err(), Some(FormatFailure::Io));
    ram.fail_reads.set(false);
    // The fresh volume is found, but the filesystem layer cannot open it.
    assert_eq!(seat.format_and_mount(0).err(), Some(FormatFailure::Io));
    let small = Ram::new(1_000);
    let mut seat = CardSeat::new(ram_port(&small, true));
    assert_eq!(seat.format_and_mount(0).err(), Some(FormatFailure::TooSmall));
}

/// Sense the card at `now`.
fn sensed(console: Console<Empty>, present: bool, now: u32) -> (Console<Empty>, CardNeed) {
    console.sense_card(present, now)
}

#[test]
fn the_device_goes_from_card_to_card() {
    let mut console: Console<Empty> = Console::new(100);
    assert!(console.take_dirty());
    assert!(!console.take_dirty());
    assert!(!console.begin_poll(120));
    assert!(console.begin_poll(121));
    assert!(!console.begin_poll(121));
    // The battery is read at once, and then every two seconds.
    assert!(console.begin_battery_poll(121));
    assert!(!console.begin_battery_poll(122));
    console.note_battery(None);
    assert!(!console.take_dirty());
    console.note_battery(battery_status(Some(50), None));
    assert!(console.take_dirty());

    let (console, need) = sensed(console, true, 200);
    assert_eq!(need, CardNeed::Nothing);
    let (console, need) = sensed(console, true, 200 + CARD_SETTLE_TICKS);
    assert_eq!(need, CardNeed::Mount);
    // A card that does not mount is offered for formatting, and not tried again.
    let console = console.finish_mount(Err(MountFailure::Invalid), 500);
    assert!(matches!(console.screen, Screen::FormatPrompt { .. }));
    let (console, need) = sensed(console, true, 600);
    assert_eq!(need, CardNeed::Nothing);

    let hold = RawButtons::default().with(Button::TopRight, true);
    let (console, op) = console.press(hold, 600);
    assert!(op.is_none());
    let (console, _) = console.press(hold, 621);
    assert!(!console.format_due(621 + FORMAT_HOLD_TICKS - 1));
    assert!(console.format_due(621 + FORMAT_HOLD_TICKS));
    let fs = mount_volume(Empty { opens: true }, LAYOUT).ok().unwrap();
    let console = console.finish_format(Ok((fs, identity(9))));
    assert!(matches!(console.screen, Screen::Explorer(_)));
    assert!(console.card.is_some());
    assert_eq!(console.identity, Some(identity(9)));

    let (console, need) = sensed(console, false, 9_000);
    assert_eq!(need, CardNeed::Forget);
    assert!(matches!(console.screen, Screen::Missing));
    assert!(console.card.is_none());
    assert_eq!(console.identity, None);
}

#[test]
fn a_dismissed_failure_tries_the_card_again() {
    let mut console: Console<Empty> = Console::new(0);
    console.slot = CardSlot {
        acted_on: true,
        seen: true,
        seen_since: 0,
    };
    let console = console.finish_mount(Err(MountFailure::Io), 5);
    assert!(matches!(console.screen, Screen::Fatal(_)));
    let (console, need) = sensed(console, true, 10);
    assert_eq!(need, CardNeed::Nothing);
    let dismiss = RawButtons::default().with(Button::TopRight, true);
    let (console, _) = console.press(dismiss, 30);
    let (console, _) = console.press(dismiss, 51);
    assert!(matches!(console.screen, Screen::Missing));
    let (_, need) = sensed(console, true, 60);
    assert_eq!(need, CardNeed::Mount);
}

#[test]
fn a_refused_stream_gives_the_device_back() {
    let ram = Ram::new(3);
    ram.fail_reads.set(true);
    let refused = SdStream::open(ram.clone()).err().unwrap();
    let (error, device) = refused.into_parts();
    assert_eq!(error, SdStreamError::DeviceSize(String::from("NoCard")));
    ram.fail_reads.set(false);
    let mut stream = SdStream::open(device).ok().unwrap();
    assert_eq!(stream.len(), 3 * 512);
    assert_eq!(stream.seek(SeekFrom::Current(0)), Ok(0));

    let stream = SdStream::with_count(RecordedBlocks::new(ram.clone()), Ok(2)).ok().unwrap();
    assert_eq!(stream.len(), 1_024);
    let refusal = String::from("TimeoutCommand(9)");
    let unread = RecordedBlocks::new(ram.clone());
    let (error, _) = SdStream::with_count(unread, Err(refusal.clone())).err().unwrap();
    assert_eq!(error, SdStreamError::DeviceSize(refusal));
}

#[test]
fn a_card_settles_however_often_it_is_sensed() {
    let mut console: Console<Empty> = Console::new(0);
    for now in 0..CARD_SETTLE_TICKS {
        let (sensed, need) = console.sense_card(true, now);
        assert_eq!(need, CardNeed::Nothing);
        assert_eq!(sensed.slot.seen_since, 0);
        console = sensed;
    }
    let (console, need) = console.sense_card(true, CARD_SETTLE_TICKS);
    assert_eq!(need, CardNeed::Mount);
    assert!(console.slot.acted_on);
}
