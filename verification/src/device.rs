//! What the device does about its card, its battery and its clock.
use vstd::prelude::*;

use crate::boot::{probe_fat, probed, MediaLayout, ProbeError};
use crate::card::CardFs;
use crate::errors::VolumeError;
use crate::explorer::{refreshed, root_view, Explorer};
use crate::format::{format_fat32, formatted};
use crate::geometry::{
    is_geometry_for, no_cluster_size_works, FormatError, FormatGeometry, MIN_PARTITION_SECTORS,
    PARTITION_START,
};
use crate::handlers::card_sound;
use crate::input::ticks_since;
use crate::notice::Notice;
use crate::screens::{Editor, EditorMedia, MediaIdentity, MountFailure, Screen};
use crate::session::{volume_mounted, RefusedMount};
use crate::storage::{extends, since, ByteStorage, Recorded, StorageEvent};
use crate::volume::{Call, Volume, VolumeAccess};

verus! {

/// Ticks of the 1024 Hz clock between two polls of the buttons.
pub const POLL_TICKS: u32 = 21;

/// Ticks between two reads of the battery gauge.
pub const BATTERY_POLL_TICKS: u32 = 2 * 1024;

/// How long the top right button is held to confirm formatting.
pub const FORMAT_HOLD_TICKS: u32 = 2 * 1024;

/// How long a card must be seen before it is mounted. A card slides past the
/// switch before its contacts are seated.
pub const CARD_SETTLE_TICKS: u32 = 256;

/// Whether `interval` ticks have passed since `last`, on a clock that wraps.
pub fn is_due(now: u32, last: u32, interval: u32) -> (due: bool)
    ensures
        due == (ticks_since(now, last) >= interval),
{
    now.wrapping_sub(last) >= interval
}

/// What the card slot reports.
#[derive(Clone, Copy, Debug, PartialEq, Eq, Structural)]
pub enum SlotEvent {
    Removed,
    Inserted,
}

/// The card slot: what was last acted on, what was last seen, and since when.
#[derive(Clone, Copy, Debug, PartialEq, Eq, Structural)]
pub struct CardSlot {
    pub acted_on: bool,
    pub seen: bool,
    pub seen_since: u32,
}

/// The slot after one reading.
pub open spec fn slot_sensed(slot: CardSlot, present: bool, now: u32) -> CardSlot {
    if present != slot.seen {
        CardSlot { seen: present, seen_since: now, ..slot }
    } else {
        slot
    }
}

/// A reading that calls for action: an absence at once, a presence once it has
/// lasted.
pub open spec fn slot_event(slot: CardSlot, present: bool, now: u32) -> Option<SlotEvent> {
    let s = slot_sensed(slot, present, now);
    if s.seen == s.acted_on {
        None
    } else if !s.seen {
        Some(SlotEvent::Removed)
    } else if ticks_since(now, s.seen_since) >= CARD_SETTLE_TICKS {
        Some(SlotEvent::Inserted)
    } else {
        None
    }
}

impl CardSlot {
    /// An empty slot.
    pub fn new(now: u32) -> (slot: Self)
        ensures
            slot == (CardSlot { acted_on: false, seen: false, seen_since: now }),
    {
        CardSlot { acted_on: false, seen: false, seen_since: now }
    }

    /// Take one reading of the switch.
    pub fn observe(&mut self, present: bool, now: u32) -> (event: Option<SlotEvent>)
        ensures
            event == slot_event(*old(self), present, now),
            *final(self) == (CardSlot {
                acted_on: match event {
                    Some(SlotEvent::Inserted) => true,
                    Some(SlotEvent::Removed) => false,
                    None => old(self).acted_on,
                },
                ..slot_sensed(*old(self), present, now)
            }),
    {
        if present != self.seen {
            self.seen = present;
            self.seen_since = now;
        }
        if self.seen == self.acted_on {
            return None;
        }
        if !self.seen {
            self.acted_on = false;
            return Some(SlotEvent::Removed);
        }
        if now.wrapping_sub(self.seen_since) >= CARD_SETTLE_TICKS {
            self.acted_on = true;
            return Some(SlotEvent::Inserted);
        }
        None
    }
}

/// A removal is acted on with the first reading that misses the card.
pub proof fn removal_is_acted_on_at_once(slot: CardSlot, now: u32)
    requires
        slot.acted_on,
    ensures
        slot_event(slot, false, now) == Some(SlotEvent::Removed),
{
}

/// A card that was just seen for the first time is not mounted yet.
pub proof fn insertion_waits(slot: CardSlot, now: u32)
    requires
        !slot.seen,
        !slot.acted_on,
    ensures
        slot_event(slot, true, now) is None,
{
}

/// The charge of the battery chassis.
#[derive(Clone, Copy, Debug, PartialEq, Eq, Structural)]
pub struct BatteryStatus {
    pub percent: u8,
    pub charging: bool,
}

/// A word of the gauge as the signed number it stands for.
pub open spec fn is_positive_word(word: u16) -> bool {
    0 < word < 0x8000
}

/// What the gauge's two words say. Without a charge level there is no chassis;
/// without a current the level is still shown.
pub open spec fn battery_from(percent: Option<u16>, current: Option<u16>) -> Option<BatteryStatus> {
    match percent {
        Some(level) => if level <= 100 {
            Some(
                BatteryStatus {
                    percent: level as u8,
                    charging: current is Some && is_positive_word(current->0),
                },
            )
        } else {
            None
        },
        None => None,
    }
}

/// Read what the gauge's two words say.
pub fn battery_status(percent: Option<u16>, current: Option<u16>) -> (status: Option<BatteryStatus>)
    ensures
        status == battery_from(percent, current),
{
    let level = match percent {
        Some(level) => level,
        None => return None,
    };
    if level > 100 {
        return None;
    }
    let charging = match current {
        Some(word) => 0 < word && word < 0x8000,
        None => false,
    };
    Some(BatteryStatus { percent: level as u8, charging })
}

/// The button was held long enough, and was pressed only after the prompt had
/// appeared.
pub open spec fn hold_confirms(held: u32, now: u32, opened_at: u32) -> bool {
    held >= FORMAT_HOLD_TICKS && ticks_since(now, opened_at) >= held
}

/// Whether the prompt on the screen, if one is armed, is confirmed by a button that
/// has been held for `held` ticks.
pub fn format_confirmed(screen: &Screen, held: u32, now: u32) -> (confirmed: bool)
    ensures
        confirmed == (*screen matches Screen::FormatPrompt { cancelled, opened_at, .. } && !cancelled
            && hold_confirms(held, now, opened_at)),
{
    match screen {
        Screen::FormatPrompt { reason: _, cancelled, opened_at } => {
            !*cancelled && held >= FORMAT_HOLD_TICKS && now.wrapping_sub(*opened_at) >= held
        },
        _ => false,
    }
}

/// A button that was already held when the prompt appeared does not confirm it.
pub proof fn old_presses_do_not_confirm(held: u32, now: u32, opened_at: u32)
    requires
        held > ticks_since(now, opened_at),
    ensures
        !hold_confirms(held, now, opened_at),
{
}

/// The failure to mount that a failed probe stands for.
pub open spec fn probe_failure<E>(error: ProbeError<E>) -> MountFailure {
    match error {
        ProbeError::Io(_) => MountFailure::Io,
        ProbeError::Unsupported => MountFailure::Unsupported,
        ProbeError::Invalid => MountFailure::Invalid,
    }
}

/// What makes a card mountable: a volume in a partition. One that starts at sector
/// 0 is recognized, but the filesystem layer mounts partitions only.
pub open spec fn mountable<E>(verdict: Result<MediaLayout, ProbeError<E>>, sectors: u32) -> Result<
    (MediaLayout, MediaIdentity),
    MountFailure,
> {
    match verdict {
        Err(error) => Err(probe_failure(error)),
        Ok(layout) => if layout.start_lba == 0 {
            Err(MountFailure::Unsupported)
        } else {
            Ok(
                (
                    layout,
                    MediaIdentity {
                        sectors,
                        partition_start: layout.start_lba,
                        volume_serial: layout.volume_serial,
                    },
                ),
            )
        },
    }
}

/// Judge the verdict of a probe.
pub fn accept_layout<E>(verdict: Result<MediaLayout, ProbeError<E>>, sectors: u32) -> (result: Result<
    (MediaLayout, MediaIdentity),
    MountFailure,
>)
    ensures
        result == mountable(verdict, sectors),
{
    match verdict {
        Err(ProbeError::Io(_)) => Err(MountFailure::Io),
        Err(ProbeError::Unsupported) => Err(MountFailure::Unsupported),
        Err(ProbeError::Invalid) => Err(MountFailure::Invalid),
        Ok(layout) => {
            if layout.start_lba == 0 {
                return Err(MountFailure::Unsupported);
            }
            let identity = MediaIdentity {
                sectors,
                partition_start: layout.start_lba,
                volume_serial: layout.volume_serial,
            };
            Ok((layout, identity))
        },
    }
}

/// Whole sectors of a card with `length` bytes, as far as 32 bits go.
pub open spec fn sectors_of(length: u64) -> u32 {
    if length / 512 <= u32::MAX { (length / 512) as u32 } else { u32::MAX }
}

/// Looking for the volume on a card of `length` bytes.
pub open spec fn card_probed<E>(
    t: Seq<StorageEvent<E>>,
    length: u64,
    result: Result<(MediaLayout, MediaIdentity), MountFailure>,
) -> bool {
    exists|verdict: Result<MediaLayout, ProbeError<E>>| #[trigger]
        probed(t, sectors_of(length) as int, verdict) && result == mountable(
            verdict,
            sectors_of(length),
        )
}

/// Look for the volume on a card of `length` bytes.
pub fn probe_card<S: ByteStorage>(storage: &mut Recorded<S>, length: u64) -> (result: Result<
    (MediaLayout, MediaIdentity),
    MountFailure,
>)
    ensures
        extends(old(storage).log(), final(storage).log()),
        card_probed(since(old(storage).log(), final(storage).log()), length, result),
        result matches Ok((layout, _)) ==> layout.start_lba + layout.sector_count <= u32::MAX,
{
    let total: u64 = length / 512;
    let sectors: u32 = if total <= 0xffff_ffff { total as u32 } else { 0xffff_ffff };
    assert(sectors == sectors_of(length));
    let verdict = probe_fat(storage, sectors);
    accept_layout(verdict, sectors)
}

/// The failure to mount that the filesystem layer's report stands for.
pub open spec fn volume_failure(error: VolumeError) -> MountFailure {
    match error {
        VolumeError::DeviceError(_) => MountFailure::Io,
        VolumeError::Unsupported => MountFailure::Unsupported,
        _ => MountFailure::Invalid,
    }
}

/// The calls of a mount that failed: the answer to opening the volume makes the failure.
pub open spec fn mount_failed<D, F>(
    t: Seq<Call<D, F>>,
    layout: MediaLayout,
    failure: MountFailure,
) -> bool {
    exists|error: VolumeError| #[trigger]
        volume_mounted(t, layout, Err(error)) && failure == volume_failure(error)
}

/// Mount the volume that was found. A failure is classified, and comes with the volume and
/// the calls that were made.
pub fn mount_volume<M: VolumeAccess>(layer: M, layout: MediaLayout) -> (result: Result<
    CardFs<M>,
    (MountFailure, Volume<M>),
>)
    requires
        layout.start_lba + layout.sector_count <= u32::MAX,
    ensures
        match result {
            Ok(card) => card.is_fresh(layout),
            Err((failure, volume)) => mount_failed(volume.calls(), layout, failure),
        },
{
    match CardFs::mount_or_return(layer, layout) {
        Ok(card) => Ok(card),
        Err(refused) => {
            let RefusedMount { error, volume } = refused;
            let failure = mount_failure(&error);
            assert(volume_mounted(volume.calls(), layout, Err(error)));
            Err((failure, volume))
        },
    }
}

/// Classify a report of the filesystem layer at mount.
pub fn mount_failure(error: &VolumeError) -> (failure: MountFailure)
    ensures
        failure == volume_failure(*error),
{
    match error {
        VolumeError::DeviceError(_) => MountFailure::Io,
        VolumeError::Unsupported => MountFailure::Unsupported,
        _ => MountFailure::Invalid,
    }
}

/// The screen for a card that was not mounted. A card that could not be read is not
/// offered for formatting.
pub open spec fn prompt_for(failure: MountFailure, now: u32, screen: Screen) -> bool {
    match failure {
        MountFailure::Io => screen matches Screen::Fatal(message) && message@
            == "SD read failed; remove and reinsert"@,
        MountFailure::Unsupported => screen matches Screen::FormatPrompt {
            reason,
            cancelled,
            opened_at,
        } && reason@ == "Unsupported filesystem"@ && !cancelled && opened_at == now,
        MountFailure::Invalid => screen matches Screen::FormatPrompt {
            reason,
            cancelled,
            opened_at,
        } && reason@ == "Invalid or damaged filesystem"@ && !cancelled && opened_at == now,
    }
}

/// The screen for a card that was not mounted.
pub fn format_prompt(failure: MountFailure, now: u32) -> (screen: Screen)
    ensures
        prompt_for(failure, now, screen),
        screen.wf(),
{
    match failure {
        MountFailure::Io => Screen::Fatal("SD read failed; remove and reinsert"),
        MountFailure::Unsupported => Screen::FormatPrompt {
            reason: "Unsupported filesystem",
            cancelled: false,
            opened_at: now,
        },
        MountFailure::Invalid => Screen::FormatPrompt {
            reason: "Invalid or damaged filesystem",
            cancelled: false,
            opened_at: now,
        },
    }
}

/// The editor of a screen that holds an open document.
pub open spec fn open_document_of(screen: Screen) -> Option<Editor> {
    match screen {
        Screen::Editor(editor) => Some(editor),
        Screen::ExitPrompt { editor, .. } => Some(editor),
        _ => None,
    }
}

/// The same screen with another editor.
pub open spec fn with_editor(screen: Screen, editor: Editor) -> Screen {
    match screen {
        Screen::Editor(_) => Screen::Editor(editor),
        Screen::ExitPrompt { choice, .. } => Screen::ExitPrompt { editor, choice },
        other => other,
    }
}

/// The screen when the card was removed: an open document stays.
pub open spec fn without_card(screen: Screen) -> Screen {
    match open_document_of(screen) {
        Some(editor) => with_editor(screen, Editor { media: EditorMedia::Removed, ..editor }),
        None => Screen::Missing,
    }
}

/// The screen when the card was removed.
pub fn mark_card_removed(screen: Screen) -> (next: Screen)
    requires
        screen.wf(),
    ensures
        next == without_card(screen),
        next.wf(),
{
    match screen {
        Screen::Editor(editor) => {
            let mut editor = editor;
            editor.media = EditorMedia::Removed;
            Screen::Editor(editor)
        },
        Screen::ExitPrompt { editor, choice } => {
            let mut editor = editor;
            editor.media = EditorMedia::Removed;
            Screen::ExitPrompt { editor, choice }
        },
        _ => Screen::Missing,
    }
}

/// The editor when a card was mounted. Saving is enabled again only by the card
/// that the document came from; with another one the way back leads to its root.
pub open spec fn editor_with_card(editor: Editor, identity: MediaIdentity, next: Editor) -> bool {
    if editor.identity == identity {
        next == Editor { status: None, media: EditorMedia::Ready, ..editor }
    } else {
        &&& next.explorer@ == root_view()
        &&& next == Editor {
            status: None,
            media: EditorMedia::Different,
            explorer: next.explorer,
            ..editor
        }
    }
}

fn reinsert(editor: Editor, identity: MediaIdentity) -> (next: Editor)
    requires
        editor.wf(),
    ensures
        editor_with_card(editor, identity, next),
        next.wf(),
{
    let mut editor = editor;
    editor.status = None;
    if editor.identity == identity {
        editor.media = EditorMedia::Ready;
    } else {
        editor.media = EditorMedia::Different;
        editor.explorer = Explorer::root();
    }
    editor
}

/// The screen when a card was mounted, before anything is read from it.
pub open spec fn with_card(screen: Screen, identity: MediaIdentity, next: Screen) -> bool {
    match open_document_of(screen) {
        Some(editor) => exists|reopened: Editor| #[trigger]
            editor_with_card(editor, identity, reopened) && next == with_editor(screen, reopened),
        None => next matches Screen::Explorer(explorer) && explorer@ == root_view(),
    }
}

/// The screen when a card was mounted.
pub fn accept_inserted_card(screen: Screen, identity: MediaIdentity) -> (next: Screen)
    requires
        screen.wf(),
    ensures
        with_card(screen, identity, next),
        next.wf(),
{
    match screen {
        Screen::Editor(editor) => {
            let ghost before = editor;
            let editor = reinsert(editor, identity);
            assert(editor_with_card(before, identity, editor));
            Screen::Editor(editor)
        },
        Screen::ExitPrompt { editor, choice } => {
            let ghost before = editor;
            let editor = reinsert(editor, identity);
            assert(editor_with_card(before, identity, editor));
            Screen::ExitPrompt { editor, choice }
        },
        _ => Screen::Explorer(Explorer::root()),
    }
}

/// The editor when the card in the slot could not be mounted. One that could not be
/// read may still be the original.
pub open spec fn editor_without_mount(editor: Editor, failure: MountFailure) -> Editor {
    if failure == MountFailure::Io {
        Editor { media: EditorMedia::Removed, status: Some(Notice::ReadFailed), ..editor }
    } else {
        Editor { media: EditorMedia::Different, ..editor }
    }
}

fn mark_unmounted(editor: Editor, failure: MountFailure) -> (next: Editor)
    requires
        editor.wf(),
    ensures
        next == editor_without_mount(editor, failure),
        next.wf(),
{
    let mut editor = editor;
    if failure == MountFailure::Io {
        editor.media = EditorMedia::Removed;
        editor.status = Some(Notice::ReadFailed);
    } else {
        editor.media = EditorMedia::Different;
    }
    editor
}

/// Showing what follows a mount.
pub open spec fn mount_shown<M: VolumeAccess>(
    previous: Screen,
    mounted: Result<(CardFs<M>, MediaIdentity), MountFailure>,
    now: u32,
    card: Option<CardFs<M>>,
    identity: Option<MediaIdentity>,
    next: Screen,
) -> bool {
    match mounted {
        Ok((fs, id)) => {
            &&& identity == Some(id)
            &&& card matches Some(after) && match open_document_of(previous) {
                Some(_) => after == fs && with_card(previous, id, next),
                None => next matches Screen::Explorer(shown) && refreshed(
                    fs,
                    after,
                    root_view(),
                    shown@,
                ),
            }
        },
        Err(failure) => match open_document_of(previous) {
            Some(editor) => next == with_editor(previous, editor_without_mount(editor, failure)),
            None => prompt_for(failure, now, next),
        },
    }
}

/// Go on after an attempt to mount the card, from the screen that was shown before
/// it.
pub fn complete_mount<M: VolumeAccess>(
    previous: Screen,
    mounted: Result<(CardFs<M>, MediaIdentity), MountFailure>,
    card: &mut Option<CardFs<M>>,
    identity: &mut Option<MediaIdentity>,
    now: u32,
) -> (next: Screen)
    requires
        previous.wf(),
        mounted matches Ok((fs, _)) ==> fs.wf(),
        card_sound(*old(card)),
    ensures
        next.wf(),
        card_sound(*final(card)),
        mount_shown(previous, mounted, now, *final(card), *final(identity), next),
        mounted is Err ==> *final(card) == *old(card) && *final(identity) == *old(identity),
{
    match mounted {
        Ok((fs, id)) => {
            let mut fs = fs;
            let ghost first = fs;
            let screen = accept_inserted_card(previous, id);
            let next = match screen {
                Screen::Explorer(explorer) => {
                    let mut explorer = explorer;
                    explorer.refresh(&mut fs);
                    Screen::Explorer(explorer)
                },
                other => other,
            };
            *card = Some(fs);
            *identity = Some(id);
            next
        },
        Err(failure) => match previous {
            Screen::Editor(editor) => Screen::Editor(mark_unmounted(editor, failure)),
            Screen::ExitPrompt { editor, choice } => Screen::ExitPrompt {
                editor: mark_unmounted(editor, failure),
                choice,
            },
            _ => format_prompt(failure, now),
        },
    }
}

/// Why formatting failed.
#[derive(Clone, Copy, Debug, PartialEq, Eq, Structural)]
pub enum FormatFailure {
    Io,
    TooSmall,
    TooLarge,
    Failed,
}

/// The failure to format that the formatter's report stands for.
pub open spec fn format_failure<E>(error: FormatError<E>) -> FormatFailure {
    match error {
        FormatError::Io(_) => FormatFailure::Io,
        FormatError::TooSmall => FormatFailure::TooSmall,
        _ => FormatFailure::Failed,
    }
}

/// What the formatter reported.
pub open spec fn format_report<E>(result: Result<FormatGeometry, FormatError<E>>) -> Result<
    (),
    FormatFailure,
> {
    match result {
        Ok(_) => Ok(()),
        Err(error) => Err(format_failure(error)),
    }
}

/// Formatting a card of `length` bytes. One with more sectors than 32 bits address is
/// refused, and so is one that is too small or for which no layout settles.
pub open spec fn card_formatted<E>(
    t: Seq<StorageEvent<E>>,
    length: u64,
    seed: u32,
    result: Result<(), FormatFailure>,
) -> bool {
    if length / 512 > u32::MAX {
        t.len() == 0 && result == Err::<(), FormatFailure>(FormatFailure::TooLarge)
    } else {
        let sectors = (length / 512) as u32;
        if sectors < PARTITION_START + MIN_PARTITION_SECTORS {
            t.len() == 0 && result == Err::<(), FormatFailure>(FormatFailure::TooSmall)
        } else {
            ||| no_cluster_size_works(sectors) && t.len() == 0 && result == Err::<
                (),
                FormatFailure,
            >(FormatFailure::Failed)
            ||| exists|g: FormatGeometry, outcome: Result<FormatGeometry, FormatError<E>>|
                is_geometry_for(g, sectors, seed) && #[trigger] formatted(t, g, sectors, outcome)
                    && result == format_report(outcome)
        }
    }
}

/// Format a card of `length` bytes. One with more sectors than 32 bits address is
/// refused.
pub fn format_card<S: ByteStorage>(storage: &mut Recorded<S>, length: u64, seed: u32) -> (result: Result<
    (),
    FormatFailure,
>)
    ensures
        extends(old(storage).log(), final(storage).log()),
        card_formatted(since(old(storage).log(), final(storage).log()), length, seed, result),
{
    let total: u64 = length / 512;
    proof {
        crate::storage::no_more(storage.log());
    }
    if total > 0xffff_ffff {
        return Err(FormatFailure::TooLarge);
    }
    match format_fat32(storage, total as u32, seed) {
        Ok(_) => Ok(()),
        Err(FormatError::Io(_)) => Err(FormatFailure::Io),
        Err(FormatError::TooSmall) => Err(FormatFailure::TooSmall),
        Err(_) => Err(FormatFailure::Failed),
    }
}

/// The words for a card that could not be formatted.
pub open spec fn format_failure_text(failure: FormatFailure) -> Seq<char> {
    match failure {
        FormatFailure::Io => "Formatting failed: SD I/O error"@,
        FormatFailure::TooSmall => "Card too small for FAT32"@,
        FormatFailure::TooLarge => "Card too large to format"@,
        FormatFailure::Failed => "Formatting failed verification"@,
    }
}

fn describe_format_failure(failure: FormatFailure) -> (text: &'static str)
    ensures
        text@ == format_failure_text(failure),
{
    match failure {
        FormatFailure::Io => "Formatting failed: SD I/O error",
        FormatFailure::TooSmall => "Card too small for FAT32",
        FormatFailure::TooLarge => "Card too large to format",
        FormatFailure::Failed => "Formatting failed verification",
    }
}

/// The failure to format that a failed mount of the fresh volume stands for.
pub open spec fn fresh_mount_failure(failure: MountFailure) -> FormatFailure {
    if failure == MountFailure::Io {
        FormatFailure::Io
    } else {
        FormatFailure::Failed
    }
}

/// Showing what follows formatting: the root of the fresh volume, if it mounts.
pub open spec fn format_shown<M: VolumeAccess>(
    outcome: Result<(CardFs<M>, MediaIdentity), FormatFailure>,
    card: Option<CardFs<M>>,
    identity: Option<MediaIdentity>,
    next: Screen,
) -> bool {
    match outcome {
        Ok((fs, id)) => {
            &&& identity == Some(id)
            &&& card matches Some(after) && (next matches Screen::Explorer(shown) && refreshed(
                fs,
                after,
                root_view(),
                shown@,
            ))
        },
        Err(failure) => next matches Screen::Fatal(message) && message@ == format_failure_text(
            failure,
        ),
    }
}

/// Go on after formatting and mounting the card.
pub fn complete_format<M: VolumeAccess>(
    outcome: Result<(CardFs<M>, MediaIdentity), FormatFailure>,
    card: &mut Option<CardFs<M>>,
    identity: &mut Option<MediaIdentity>,
) -> (next: Screen)
    requires
        outcome matches Ok((fs, _)) ==> fs.wf(),
        card_sound(*old(card)),
    ensures
        next.wf(),
        card_sound(*final(card)),
        format_shown(outcome, *final(card), *final(identity), next),
        outcome is Err ==> *final(card) == *old(card) && *final(identity) == *old(identity),
{
    match outcome {
        Ok((fs, id)) => {
            let mut fs = fs;
            let mut explorer = Explorer::root();
            explorer.refresh(&mut fs);
            *card = Some(fs);
            *identity = Some(id);
            Screen::Explorer(explorer)
        },
        Err(failure) => Screen::Fatal(describe_format_failure(failure)),
    }
}

/// Name a failed mount of the fresh volume.
pub fn after_format(failure: MountFailure) -> (named: FormatFailure)
    ensures
        named == fresh_mount_failure(failure),
{
    match failure {
        MountFailure::Io => FormatFailure::Io,
        _ => FormatFailure::Failed,
    }
}

/// Whether the mount is tried again without a change in the slot: an unmountable
/// card stayed in it while its screen was dismissed.
pub fn should_retry_mount<M: VolumeAccess>(
    card: &Option<CardFs<M>>,
    slot: &CardSlot,
    screen: &Screen,
) -> (retry: bool)
    ensures
        retry == (*card is None && slot.acted_on && *screen is Missing),
{
    card.is_none() && slot.acted_on && matches!(screen, Screen::Missing)
}

/// A card that could not be read is not offered for formatting.
pub proof fn unread_cards_are_not_offered_for_formatting(now: u32, screen: Screen)
    requires
        prompt_for(MountFailure::Io, now, screen),
    ensures
        !(screen is FormatPrompt),
{
}

/// A document survives the removal of its card, and any card that is inserted after
/// it: text, cursor and the mark for changes are kept. Only the card that it came
/// from makes it savable again.
pub proof fn documents_survive_the_card(
    screen: Screen,
    identity: MediaIdentity,
    next: Screen,
)
    requires
        open_document_of(screen) is Some,
        with_card(without_card(screen), identity, next),
    ensures
        ({
            let before = open_document_of(screen)->0;
            &&& open_document_of(next) matches Some(after) && after.buffer == before.buffer
                && after.path == before.path && (after.media == EditorMedia::Ready <==> before.identity
                == identity)
        }),
{
}

} // verus!
