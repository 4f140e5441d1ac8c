//! The device as a whole: what it shows, and what it does about each poll.
use vstd::prelude::*;

use crate::buttons::{button_pressed, handle_button};
use crate::card::CardFs;
use crate::device::{
    complete_format, complete_mount, format_confirmed, format_shown, hold_confirms, is_due,
    mark_card_removed, mount_shown, should_retry_mount, slot_event, slot_sensed, without_card, BatteryStatus,
    CardSlot, FormatFailure, SlotEvent, BATTERY_POLL_TICKS, POLL_TICKS,
};
use crate::handlers::card_sound;
use crate::input::{polled, reported, ticks_since, Button, ButtonState, InputEngine, RawButtons};
use crate::names::{says, short_form};
use crate::naming::name_problem;
use crate::operations::{op_run, run_fs_op};
use crate::screens::{HandleResult, MediaIdentity, MountFailure, PendingFsOp, Screen};
use crate::view::{content_view, draw, drawn, frame_view, Widget};
use crate::volume::VolumeAccess;

verus! {

/// What is to be done about the card.
#[derive(Clone, Copy, Debug, PartialEq, Eq, Structural)]
pub enum CardNeed {
    Nothing,
    /// The card is gone: the driver must initialize the next one.
    Forget,
    /// A card is there to be mounted.
    Mount,
}

/// Everything that the device knows.
pub struct Console<M: VolumeAccess> {
    pub screen: Screen,
    pub card: Option<CardFs<M>>,
    pub identity: Option<MediaIdentity>,
    pub input: InputEngine,
    pub slot: CardSlot,
    pub battery: Option<BatteryStatus>,
    pub last_poll: u32,
    pub last_battery_poll: u32,
    /// What is shown is no longer what should be.
    pub dirty: bool,
}

/// What a reading of the card switch calls for: a card that settled is mounted, and so is
/// one that is still there when the screen waits for a card.
pub open spec fn card_need(event: Option<SlotEvent>, waiting: bool) -> CardNeed {
    match event {
        Some(SlotEvent::Removed) => CardNeed::Forget,
        Some(SlotEvent::Inserted) => CardNeed::Mount,
        None => if waiting {
            CardNeed::Mount
        } else {
            CardNeed::Nothing
        },
    }
}

/// The buttons are polled; the console is left to a press.
pub open spec fn press_made<M: VolumeAccess>(
    before: Console<M>,
    raw: RawButtons,
    now: u32,
    after: Console<M>,
    op: Option<PendingFsOp>,
) -> bool {
    let place = reported(before.input.buttons(), raw, now);
    &&& after.input.buttons() == polled(before.input.buttons(), raw, now)
    &&& if place == 8 {
        &&& op is None
        &&& after == Console { input: after.input, ..before }
    } else {
        &&& after == Console {
            input: after.input,
            screen: after.screen,
            card: after.card,
            dirty: true,
            ..before
        }
        &&& exists|button: Button, verdict: Result<(), &'static str>, result: HandleResult|
            {
                &&& button.place() == place
                &&& before.screen matches Screen::Naming(entry) ==> says(
                    verdict,
                    name_problem(entry@, short_form(entry.name@)),
                )
                &&& #[trigger] button_pressed(
                    before.card,
                    after.card,
                    before.screen,
                    button,
                    verdict,
                    before.identity,
                    result,
                )
                &&& match result {
                    HandleResult::Screen(next) => op is None && after.screen == next,
                    HandleResult::Op(pending) => op == Some(pending) && after.screen is Mounting,
                }
            }
    }
}

impl<M: VolumeAccess> Console<M> {
    /// What holds between any two steps: the screen is sound, and a mounted card is sound
    /// and has an identity.
    pub open spec fn wf(&self) -> bool {
        &&& self.screen.wf()
        &&& card_sound(self.card)
        &&& self.card is Some ==> self.identity is Some
    }

    /// The device as it is switched on: without a card, and with the battery to be read
    /// at once.
    pub fn new(now: u32) -> (console: Self)
        ensures
            console.wf(),
            console.screen is Missing,
            console.card is None,
            console.identity is None,
            console.slot == (CardSlot { acted_on: false, seen: false, seen_since: now }),
            console.battery is None,
            console.last_poll == now,
            ticks_since(now, console.last_battery_poll) == BATTERY_POLL_TICKS,
            console.dirty,
            console.input.buttons().len() == 8,
            forall|i: int| 0 <= i < 8 ==> #[trigger] console.input.buttons()[i] == (ButtonState {
                observed: false,
                stable: false,
                changed_at: 0,
                pressed_at: 0,
                next_repeat: 0,
            }),
    {
        let last_battery_poll: u32 = now.wrapping_sub(BATTERY_POLL_TICKS);
        Console {
            screen: Screen::Missing,
            card: None,
            identity: None,
            input: InputEngine::new(),
            slot: CardSlot::new(now),
            battery: None,
            last_poll: now,
            last_battery_poll,
            dirty: true,
        }
    }

    /// Whether the next poll is due, which then counts as begun.
    pub fn begin_poll(&mut self, now: u32) -> (due: bool)
        ensures
            due == (ticks_since(now, old(self).last_poll) >= POLL_TICKS),
            due <==> ticks_since(now, old(self).last_poll) >= 21,
            *final(self) == (Console {
                last_poll: if due {
                    now
                } else {
                    old(self).last_poll
                },
                ..*old(self)
            }),
    {
        let due = is_due(now, self.last_poll, POLL_TICKS);
        if due {
            self.last_poll = now;
        }
        due
    }

    /// Whether the battery is to be read, which then counts as done.
    pub fn begin_battery_poll(&mut self, now: u32) -> (due: bool)
        ensures
            due == (ticks_since(now, old(self).last_battery_poll) >= BATTERY_POLL_TICKS),
            due <==> ticks_since(now, old(self).last_battery_poll) >= 2048,
            *final(self) == (Console {
                last_battery_poll: if due {
                    now
                } else {
                    old(self).last_battery_poll
                },
                ..*old(self)
            }),
    {
        let due = is_due(now, self.last_battery_poll, BATTERY_POLL_TICKS);
        if due {
            self.last_battery_poll = now;
        }
        due
    }

    /// Take note of the battery; only a change is shown anew.
    pub fn note_battery(&mut self, reading: Option<BatteryStatus>)
        ensures
            *final(self) == (Console {
                battery: reading,
                dirty: old(self).dirty || reading != old(self).battery,
                ..*old(self)
            }),
    {
        let changed: bool = match (reading, self.battery) {
            (Some(a), Some(b)) => a != b,
            (None, None) => false,
            _ => true,
        };
        if changed {
            self.battery = reading;
            self.dirty = true;
        }
    }

    /// Take one reading of the card switch. A card that is gone is unmounted.
    pub fn sense_card(self, present: bool, now: u32) -> (sensed: (Self, CardNeed))
        requires
            self.wf(),
        ensures
            sensed.0.wf(),
            ({
                let event = slot_event(self.slot, present, now);
                let waiting = self.card is None && sensed.0.slot.acted_on && self.screen is Missing;
                &&& sensed.1 == card_need(event, waiting)
                &&& sensed.0.slot == (CardSlot {
                    acted_on: match event {
                        Some(SlotEvent::Inserted) => true,
                        Some(SlotEvent::Removed) => false,
                        None => self.slot.acted_on,
                    },
                    ..slot_sensed(self.slot, present, now)
                })
                &&& sensed.0 == if sensed.1 == CardNeed::Forget {
                    Console {
                        slot: sensed.0.slot,
                        screen: without_card(self.screen),
                        card: None,
                        identity: None,
                        dirty: true,
                        ..self
                    }
                } else {
                    Console { slot: sensed.0.slot, ..self }
                }
            }),
    {
        let mut console = self;
        let event = console.slot.observe(present, now);
        match event {
            Some(SlotEvent::Removed) => {
                let Console {
                    screen,
                    card: _,
                    identity: _,
                    input,
                    slot,
                    battery,
                    last_poll,
                    last_battery_poll,
                    dirty: _,
                } = console;
                let screen = mark_card_removed(screen);
                (
                    Console {
                        screen,
                        card: None,
                        identity: None,
                        input,
                        slot,
                        battery,
                        last_poll,
                        last_battery_poll,
                        dirty: true,
                    },
                    CardNeed::Forget,
                )
            },
            Some(SlotEvent::Inserted) => (console, CardNeed::Mount),
            None => {
                if should_retry_mount(&console.card, &console.slot, &console.screen) {
                    (console, CardNeed::Mount)
                } else {
                    (console, CardNeed::Nothing)
                }
            },
        }
    }

    /// Go on after an attempt to mount the card.
    pub fn finish_mount(
        self,
        mounted: Result<(CardFs<M>, MediaIdentity), MountFailure>,
        now: u32,
    ) -> (next: Self)
        requires
            self.wf(),
            mounted matches Ok((fs, _)) ==> fs.wf(),
        ensures
            next.wf(),
            mount_shown(self.screen, mounted, now, next.card, next.identity, next.screen),
            mounted is Err ==> next.card == self.card && next.identity == self.identity,
            next == (Console {
                screen: next.screen,
                card: next.card,
                identity: next.identity,
                dirty: true,
                ..self
            }),
    {
        let Console {
            screen,
            card,
            identity,
            input,
            slot,
            battery,
            last_poll,
            last_battery_poll,
            dirty: _,
        } = self;
        let mut card = card;
        let mut identity = identity;
        let screen = complete_mount(screen, mounted, &mut card, &mut identity, now);
        Console {
            screen,
            card,
            identity,
            input,
            slot,
            battery,
            last_poll,
            last_battery_poll,
            dirty: true,
        }
    }

    /// Poll the buttons. An operation that takes its time is handed out, so that a notice
    /// can be shown before it is run.
    pub fn press(self, raw: RawButtons, now: u32) -> (pressed: (Self, Option<PendingFsOp>))
        requires
            self.wf(),
        ensures
            pressed.0.wf(),
            pressed.1 matches Some(op) ==> op.wf(),
            press_made(self, raw, now, pressed.0, pressed.1),
    {
        let ghost before = self;
        let Console {
            screen,
            card,
            identity,
            input,
            slot,
            battery,
            last_poll,
            last_battery_poll,
            dirty,
        } = self;
        let mut card = card;
        let mut input = input;
        let button = match input.update(raw, now) {
            Some(button) => button,
            None => {
                return (
                    Console {
                        screen,
                        card,
                        identity,
                        input,
                        slot,
                        battery,
                        last_poll,
                        last_battery_poll,
                        dirty,
                    },
                    None,
                );
            },
        };
        let result = handle_button(screen, button, &mut card, identity);
        let ghost pressed = result;
        let ghost verdict = choose|verdict: Result<(), &'static str>|
            (before.screen matches Screen::Naming(entry) ==> says(
                verdict,
                name_problem(entry@, short_form(entry.name@)),
            )) && #[trigger] button_pressed(
                before.card,
                card,
                before.screen,
                button,
                verdict,
                before.identity,
                pressed,
            );
        let (screen, op) = match result {
            HandleResult::Screen(next) => (next, None),
            HandleResult::Op(op) => (Screen::Mounting, Some(op)),
        };
        let console = Console {
            screen,
            card,
            identity,
            input,
            slot,
            battery,
            last_poll,
            last_battery_poll,
            dirty: true,
        };
        proof {
            assert(button_pressed(
                before.card,
                console.card,
                before.screen,
                button,
                verdict,
                before.identity,
                pressed,
            ));
        }
        (console, op)
    }

    /// Run an operation that was handed out.
    pub fn finish_op(self, op: PendingFsOp) -> (next: Self)
        requires
            self.wf(),
            op.wf(),
        ensures
            next.wf(),
            match self.card {
                None => next.card is None && next.screen is Missing,
                Some(before) => next.card matches Some(after) && op_run(
                    before,
                    after,
                    op,
                    next.screen,
                ),
            },
            next == (Console { screen: next.screen, card: next.card, dirty: true, ..self }),
    {
        let mut console = self;
        let screen = run_fs_op(op, &mut console.card);
        console.screen = screen;
        console.dirty = true;
        console
    }

    /// Whether formatting the card was confirmed.
    pub fn format_due(&self, now: u32) -> (due: bool)
        ensures
            due == (self.screen matches Screen::FormatPrompt { cancelled, opened_at, .. } && !cancelled
                && hold_confirms(self.held_since(now), now, opened_at)),
    {
        let held: u32 = self.input.held_ticks(Button::TopRight, now);
        format_confirmed(&self.screen, held, now)
    }

    /// How long the top right button has been down.
    pub open spec fn held_since(&self, now: u32) -> u32 {
        let button: ButtonState = self.input.buttons()[Button::TopRight.place()];
        if button.stable {
            ticks_since(now, button.pressed_at) as u32
        } else {
            0
        }
    }

    /// Go on after formatting and mounting the card.
    pub fn finish_format(
        self,
        outcome: Result<(CardFs<M>, MediaIdentity), FormatFailure>,
    ) -> (next: Self)
        requires
            self.wf(),
            outcome matches Ok((fs, _)) ==> fs.wf(),
        ensures
            next.wf(),
            format_shown(outcome, next.card, next.identity, next.screen),
            outcome is Err ==> next.card == self.card && next.identity == self.identity,
            next == (Console {
                screen: next.screen,
                card: next.card,
                identity: next.identity,
                dirty: true,
                ..self
            }),
    {
        let mut console = self;
        let screen = complete_format(outcome, &mut console.card, &mut console.identity);
        console.screen = screen;
        console.dirty = true;
        console
    }

    /// What is to be shown.
    pub fn picture(&self) -> (widgets: Vec<Widget>)
        requires
            self.wf(),
        ensures
            drawn(widgets@) == frame_view(
                content_view(self.screen, self.battery is Some),
                self.battery,
            ),
    {
        draw(&self.screen, self.battery)
    }

    /// Whether the display is to be drawn anew, which then counts as done.
    pub fn take_dirty(&mut self) -> (dirty: bool)
        ensures
            dirty == old(self).dirty,
            *final(self) == (Console { dirty: false, ..*old(self) }),
    {
        let dirty = self.dirty;
        self.dirty = false;
        dirty
    }
}

/// A card that cannot be mounted is tried once: whatever comes of it, the screen no
/// longer waits for a card.
pub proof fn mounts_are_tried_once<M: VolumeAccess>(
    previous: Screen,
    mounted: Result<(CardFs<M>, MediaIdentity), MountFailure>,
    now: u32,
    card: Option<CardFs<M>>,
    identity: Option<MediaIdentity>,
    next: Screen,
)
    requires
        mount_shown(previous, mounted, now, card, identity, next),
    ensures
        !(next is Missing),
{
}

} // verus!
