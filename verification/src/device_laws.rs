//! What the device does about its card, its battery and its buttons.
use vstd::prelude::*;

use crate::buttons::button_pressed;
use crate::card::CardFs;
use crate::console::{card_need, press_made, CardNeed, Console};
use crate::device::{
    battery_from, fresh_mount_failure, format_shown, hold_confirms, mount_shown, mountable,
    open_document_of, sectors_of, slot_event, slot_sensed, volume_failure, without_card, CardSlot,
    FormatFailure, SlotEvent,
};
use crate::errors::VolumeError;
use crate::explorer::Explorer;
use crate::input::{
    debounced, first_down, first_repeat, goes_down, polled, reported, ticks_after, ticks_since,
    Button, ButtonState, RawButtons,
};
use crate::screens::{EditorMedia, HandleResult, MediaIdentity, MountFailure, PendingFsOp, Screen};
use crate::typing_laws::refreshing_keeps_the_path;
use crate::volume::VolumeAccess;

verus! {

/// A card is taken for removed as soon as it is not seen, and for inserted once it has been
/// seen for a quarter of a second without a break. Nothing is reported twice.
pub proof fn slots_report_changes(slot: CardSlot, present: bool, now: u32)
    ensures
        slot_event(slot, present, now) == Some(SlotEvent::Removed) <==> !present && slot.acted_on,
        slot_event(slot, present, now) == Some(SlotEvent::Inserted) <==> present && slot.seen
            && !slot.acted_on && ticks_since(now, slot.seen_since) >= 256,
        slot_sensed(slot, present, now).seen == present,
        slot_sensed(slot, present, now).seen_since == if slot.seen == present {
            slot.seen_since
        } else {
            now
        },
{
}

/// The card is forgotten exactly when it is gone, and a card is mounted when it has settled
/// or when the display still asks for one.
pub proof fn cards_are_mounted_and_forgotten(
    slot: CardSlot,
    present: bool,
    now: u32,
    waiting: bool,
)
    ensures
        ({
            let need = card_need(slot_event(slot, present, now), waiting);
            &&& need == CardNeed::Forget <==> !present && slot.acted_on
            &&& present && slot.seen && !slot.acted_on && ticks_since(now, slot.seen_since) >= 256
                ==> need == CardNeed::Mount
            &&& need == CardNeed::Mount && !waiting ==> present && slot.seen && !slot.acted_on
                && ticks_since(now, slot.seen_since) >= 256
        }),
{
}

/// The battery is shown when its level is known and makes sense. It charges when the current
/// that flows into it, a signed number, is above zero.
pub proof fn the_gauge_is_believed(percent: Option<u16>, current: Option<u16>)
    ensures
        battery_from(percent, current) is Some <==> (percent matches Some(level) && level <= 100),
        battery_from(percent, current) matches Some(status) ==> {
            &&& Some(status.percent as u16) == percent
            &&& status.charging <==> (current matches Some(word) && word != 0 && word <= 32767)
        },
{
}

/// A press confirms formatting when it began after the question was asked and has lasted for
/// two seconds, and otherwise not.
pub proof fn formatting_is_confirmed_by_a_long_press(asked: u32, pressed: u32, now: u32)
    requires
        asked <= now,
        pressed <= now,
    ensures
        hold_confirms((now - pressed) as u32, now, asked) <==> pressed >= asked && now - pressed
            >= 2 * 1024,
{
}

/// A document that is open when a card is mounted stays as it is. It can be saved again only
/// if the card is the one that it came from; after another card the way back leads to that
/// card's root.
pub proof fn mounting_keeps_the_document<M: VolumeAccess>(
    previous: Screen,
    fs: CardFs<M>,
    id: MediaIdentity,
    now: u32,
    card: Option<CardFs<M>>,
    identity: Option<MediaIdentity>,
    next: Screen,
)
    requires
        mount_shown(previous, Ok((fs, id)), now, card, identity, next),
        open_document_of(previous) is Some,
    ensures
        ({
            let before = open_document_of(previous)->0;
            &&& card == Some(fs)
            &&& identity == Some(id)
            &&& open_document_of(next) matches Some(after) && {
                &&& after.buffer == before.buffer
                &&& after.path == before.path
                &&& after.name == before.name
                &&& after.identity == before.identity
                &&& after.status is None
                &&& after.media == EditorMedia::Ready <==> before.identity == id
                &&& before.identity != id ==> after.media == EditorMedia::Different
                    && after.explorer.path@ == "/"@
                &&& before.identity == id ==> after.explorer == before.explorer
            }
            &&& next is ExitPrompt <==> previous is ExitPrompt
        }),
{
}

/// Without a document a card that was mounted is shown from its root, whatever was shown
/// before.
pub proof fn mounting_shows_the_root<M: VolumeAccess>(
    previous: Screen,
    fs: CardFs<M>,
    id: MediaIdentity,
    now: u32,
    card: Option<CardFs<M>>,
    identity: Option<MediaIdentity>,
    next: Screen,
)
    requires
        mount_shown(previous, Ok((fs, id)), now, card, identity, next),
        open_document_of(previous) is None,
    ensures
        identity == Some(id),
        card is Some,
        next matches Screen::Explorer(explorer) && explorer.path@ == "/"@,
{
    let explorer = next->Explorer_0;
    refreshing_keeps_the_path(fs, card->0, crate::explorer::root_view(), explorer@);
}

/// A card that could not be mounted never makes a document savable, and never harms it.
/// Without a document formatting is offered, but only for a card that could be read.
pub proof fn failed_mounts_are_shown<M: VolumeAccess>(
    previous: Screen,
    failure: MountFailure,
    now: u32,
    card: Option<CardFs<M>>,
    identity: Option<MediaIdentity>,
    next: Screen,
)
    requires
        mount_shown(
            previous,
            Err::<(CardFs<M>, MediaIdentity), MountFailure>(failure),
            now,
            card,
            identity,
            next,
        ),
    ensures
        open_document_of(previous) matches Some(before) ==> (open_document_of(next) matches Some(
            after,
        ) && after.buffer == before.buffer && after.path == before.path && after.identity
            == before.identity && after.explorer == before.explorer && after.media
            == if failure == MountFailure::Io {
            EditorMedia::Removed
        } else {
            EditorMedia::Different
        }),
        open_document_of(previous) is None ==> {
            &&& next is Fatal <==> failure == MountFailure::Io
            &&& next is FormatPrompt <==> failure != MountFailure::Io
            &&& next matches Screen::FormatPrompt { cancelled, opened_at, .. } ==> !cancelled
                && opened_at == now
        },
{
}

/// When the card is gone a document stays, and cannot be saved; anything else gives way to
/// the request for a card.
pub proof fn removing_keeps_the_document(screen: Screen)
    ensures
        open_document_of(screen) matches Some(before) ==> (open_document_of(
            without_card(screen),
        ) matches Some(after) && after.buffer == before.buffer && after.path == before.path
            && after.name == before.name && after.identity == before.identity && after.explorer
            == before.explorer && after.media == EditorMedia::Removed),
        open_document_of(screen) is None ==> without_card(screen) is Missing,
{
}

/// A card that was formatted is shown from its root. One that was not is not shown at all.
pub proof fn formatted_cards_are_shown<M: VolumeAccess>(
    outcome: Result<(CardFs<M>, MediaIdentity), FormatFailure>,
    card: Option<CardFs<M>>,
    identity: Option<MediaIdentity>,
    next: Screen,
)
    requires
        format_shown(outcome, card, identity, next),
    ensures
        outcome matches Ok((_, id)) ==> identity == Some(id) && card is Some && (
        next matches Screen::Explorer(explorer) && explorer.path@ == "/"@),
        outcome is Err ==> next is Fatal,
{
    if let Ok((fs, id)) = outcome {
        let explorer = next->Explorer_0;
        refreshing_keeps_the_path(fs, card->0, crate::explorer::root_view(), explorer@);
    }
}

/// Cards are told apart by their size, by where the volume begins and by its serial number,
/// and a volume that is not in a partition is not mounted.
pub proof fn cards_are_told_apart<E>(
    verdict: Result<crate::boot::MediaLayout, crate::boot::ProbeError<E>>,
    sectors: u32,
)
    ensures
        mountable(verdict, sectors) is Ok <==> (verdict matches Ok(layout) && layout.start_lba > 0),
        mountable(verdict, sectors) matches Ok((layout, identity)) ==> verdict == Ok::<
            crate::boot::MediaLayout,
            crate::boot::ProbeError<E>,
        >(layout) && identity.sectors == sectors && identity.partition_start == layout.start_lba
            && identity.volume_serial == layout.volume_serial,
        mountable(verdict, sectors) == Err::<
            (crate::boot::MediaLayout, MediaIdentity),
            MountFailure,
        >(MountFailure::Io) <==> (verdict matches Err(crate::boot::ProbeError::Io(_))),
{
}

/// The card's sectors are counted in whole.
pub proof fn sectors_are_whole(length: u64)
    requires
        length < 512 * 0x1_0000_0000,
    ensures
        sectors_of(length) * 512 <= length < (sectors_of(length) + 1) * 512,
{
}

/// A volume that failed because the card could not be read is never taken for a damaged one.
pub proof fn unread_volumes_are_not_damaged(error: VolumeError)
    ensures
        volume_failure(error) == MountFailure::Io <==> error is DeviceError,
        fresh_mount_failure(volume_failure(error)) == FormatFailure::Io <==> error is DeviceError,
{
}

/// While the device asks whether to format, one button calls it off and one takes that back.
/// A failure is dismissed by a button of its own. Screens that wait are not disturbed, and
/// none of this touches the card.
pub proof fn prompts_are_answered<M: VolumeAccess>(
    before: Option<CardFs<M>>,
    after: Option<CardFs<M>>,
    screen: Screen,
    button: Button,
    verdict: Result<(), &'static str>,
    identity: Option<MediaIdentity>,
    result: HandleResult,
)
    requires
        button_pressed(before, after, screen, button, verdict, identity, result),
        screen is FormatPrompt || screen is Fatal || screen is Missing || screen is Mounting
            || screen is Formatting,
    ensures
        after == before,
        result is Screen,
        screen matches Screen::FormatPrompt { reason, cancelled, opened_at } ==> (
        result->Screen_0 matches Screen::FormatPrompt {
            reason: words,
            cancelled: off,
            opened_at: since,
        } && words == reason && since == opened_at && (button == Button::TopLeft ==> off) && (button
            == Button::TopRight ==> !off) && (button != Button::TopLeft && button
            != Button::TopRight ==> off == cancelled)),
        screen is Fatal ==> (result->Screen_0 is Missing <==> button == Button::TopRight),
        screen is Fatal && button != Button::TopRight ==> result->Screen_0 == screen,
        !(screen is FormatPrompt) && !(screen is Fatal) ==> result->Screen_0 == screen,
{
}

proof fn the_first_to_go_down(buttons: Seq<ButtonState>, raw: RawButtons, now: u32, from: int)
    requires
        0 <= from <= 8,
    ensures
        ({
            let p = first_down(buttons, raw, now, from);
            &&& from <= p <= 8
            &&& p < 8 ==> goes_down(buttons[p], raw.is_down(p), now)
            &&& forall|i: int|
                from <= i < p ==> !goes_down(#[trigger] buttons[i], raw.is_down(i), now)
        }),
    decreases 8 - from,
{
    if from < 8 {
        the_first_to_go_down(buttons, raw, now, from + 1);
    }
}

/// A direction of the joystick, by its place.
pub open spec fn is_direction(place: int) -> bool {
    place == Button::Up.place() || place == Button::Left.place() || place == Button::Right.place()
        || place == Button::Down.place()
}

proof fn the_first_to_repeat(buttons: Seq<ButtonState>, now: u32, from: int)
    requires
        0 <= from <= 8,
    ensures
        ({
            let p = first_repeat(buttons, now, from);
            &&& from <= p <= 8
            &&& p < 8 ==> is_direction(p) && crate::input::repeat_due(buttons[p], now)
            &&& forall|i: int|
                from <= i < p && is_direction(i) ==> !crate::input::repeat_due(
                    #[trigger] buttons[i],
                    now,
                )
        }),
    decreases 8 - from,
{
    if from < 8 {
        the_first_to_repeat(buttons, now, from + 1);
    }
}

/// A button that is down for the first time since it was let go, and has been for the time
/// that it takes a contact to settle.
pub open spec fn newly_down(b: ButtonState, down: bool, now: u32) -> bool {
    down && b.observed && !b.stable && ticks_since(now, b.changed_at) >= 21
}

/// A direction that is held down, and whose next repeat has come.
pub open spec fn held_on(b: ButtonState, down: bool, now: u32) -> bool {
    down && b.stable && ticks_since(now, b.next_repeat) < 0x7fff_ffff
}

/// What a poll reports is a button that is down: one that has just settled, or else a
/// direction that was held until its repeat. A press is repeated after 410 ticks, and every
/// 102 ticks from then on. Nothing that should be reported is passed over for anything but an
/// earlier button.
pub proof fn polls_report_what_is_held(buttons: Seq<ButtonState>, raw: RawButtons, now: u32)
    requires
        buttons.len() == 8,
    ensures
        ({
            let p = reported(buttons, raw, now);
            let next = polled(buttons, raw, now);
            &&& 0 <= p <= 8
            &&& next.len() == 8
            &&& p < 8 ==> {
                ||| newly_down(buttons[p], raw.is_down(p), now) && next[p].stable
                    && next[p].pressed_at == now && next[p].next_repeat == ticks_after(now, 410)
                ||| is_direction(p) && held_on(buttons[p], raw.is_down(p), now) && next[p].stable
                    && next[p].pressed_at == buttons[p].pressed_at && next[p].next_repeat
                    == ticks_after(now, 102)
            }
            &&& forall|i: int|
                0 <= i < 8 && newly_down(#[trigger] buttons[i], raw.is_down(i), now) ==> p <= i
            &&& forall|i: int|
                0 <= i < 8 && is_direction(i) && held_on(
                    #[trigger] buttons[i],
                    raw.is_down(i),
                    now,
                ) ==> p <= i || newly_down(buttons[p], raw.is_down(p), now)
        }),
{
    let down = first_down(buttons, raw, now, 0);
    the_first_to_go_down(buttons, raw, now, 0);
    let all = Seq::new(8, |i: int| debounced(buttons[i], raw.is_down(i), now));
    the_first_to_repeat(all, now, 0);
    let again = first_repeat(all, now, 0);
    let p = reported(buttons, raw, now);
    let next = polled(buttons, raw, now);
    assert forall|i: int| 0 <= i < 8 && newly_down(#[trigger] buttons[i], raw.is_down(i), now)
        implies p <= i by {
        assert(goes_down(buttons[i], raw.is_down(i), now));
    }
    if down == 8 {
        assert(all =~= Seq::new(
            8,
            |i: int|
                if i <= down {
                    debounced(buttons[i], raw.is_down(i), now)
                } else {
                    buttons[i]
                },
        ));
        if again < 8 {
            assert(all[again] == debounced(buttons[again], raw.is_down(again), now));
            assert(!goes_down(buttons[again], raw.is_down(again), now));
        }
        assert forall|i: int|
            0 <= i < 8 && is_direction(i) && held_on(#[trigger] buttons[i], raw.is_down(i), now)
            implies p <= i by {
            assert(all[i] == debounced(buttons[i], raw.is_down(i), now));
            assert(crate::input::repeat_due(all[i], now));
        }
    }
}

/// A button counts as down, or as up again, only after it was read so for the time that it
/// takes a contact to settle. When it does not change, its last press stands.
pub proof fn readings_settle(buttons: Seq<ButtonState>, raw: RawButtons, now: u32, i: int)
    requires
        buttons.len() == 8,
        0 <= i < 8,
    ensures
        ({
            let next = polled(buttons, raw, now);
            &&& next[i].stable != buttons[i].stable ==> next[i].stable == raw.is_down(i)
                && buttons[i].observed == raw.is_down(i) && ticks_since(now, buttons[i].changed_at)
                >= 21
            &&& next[i].stable == buttons[i].stable ==> next[i].pressed_at == buttons[i].pressed_at
            &&& reported(buttons, raw, now) == 8 ==> next[i].observed == raw.is_down(i)
            &&& reported(buttons, raw, now) == 8 && buttons[i].observed == raw.is_down(i)
                && ticks_since(now, buttons[i].changed_at) >= 21 ==> next[i].stable == raw.is_down(i)
        }),
{
    the_first_to_go_down(buttons, raw, now, 0);
    let all = Seq::new(8, |i: int| debounced(buttons[i], raw.is_down(i), now));
    the_first_to_repeat(all, now, 0);
    let down = first_down(buttons, raw, now, 0);
    if down == 8 {
        assert(all =~= Seq::new(
            8,
            |i: int|
                if i <= down {
                    debounced(buttons[i], raw.is_down(i), now)
                } else {
                    buttons[i]
                },
        ));
        assert(!goes_down(buttons[i], raw.is_down(i), now));
    }
}

/// A poll without an event changes nothing but what is known of the buttons. One with an event
/// hands that button to the screen, and the display is drawn anew; whatever the press does, the
/// slot, the battery and the identity of the card stay. An operation that takes its time is
/// handed out behind a notice.
pub proof fn presses_reach_the_screen<M: VolumeAccess>(
    before: Console<M>,
    raw: RawButtons,
    now: u32,
    after: Console<M>,
    op: Option<PendingFsOp>,
)
    requires
        press_made(before, raw, now, after, op),
    ensures
        after.slot == before.slot && after.battery == before.battery && after.identity
            == before.identity && after.last_poll == before.last_poll,
        reported(before.input.buttons(), raw, now) == 8 ==> op is None && after.screen
            == before.screen && after.card == before.card && after.dirty == before.dirty,
        reported(before.input.buttons(), raw, now) != 8 ==> {
            &&& after.dirty
            &&& op is Some ==> after.screen is Mounting
            &&& exists|button: Button, verdict: Result<(), &'static str>, result: HandleResult|
                {
                    &&& button.place() == reported(before.input.buttons(), raw, now)
                    &&& #[trigger] button_pressed(
                        before.card,
                        after.card,
                        before.screen,
                        button,
                        verdict,
                        before.identity,
                        result,
                    )
                    &&& op is None ==> result == HandleResult::Screen(after.screen)
                    &&& op is Some ==> result == HandleResult::Op(op->0)
                }
        },
{
}

} // verus!
