//! Debouncing and key repeat.
use vstd::prelude::*;

verus! {

#[derive(Clone, Copy, Debug, PartialEq, Eq, Structural)]
pub enum Button {
    TopLeft,
    TopMiddle,
    TopRight,
    Up,
    Left,
    Click,
    Right,
    Down,
}

impl Button {
    /// All buttons, in the order in which they are polled.
    pub const ALL: [Button; 8] = [
        Button::TopLeft,
        Button::TopMiddle,
        Button::TopRight,
        Button::Up,
        Button::Left,
        Button::Click,
        Button::Right,
        Button::Down,
    ];

    /// Place of the button in the polling order.
    pub open spec fn place(self) -> int {
        match self {
            Button::TopLeft => 0,
            Button::TopMiddle => 1,
            Button::TopRight => 2,
            Button::Up => 3,
            Button::Left => 4,
            Button::Click => 5,
            Button::Right => 6,
            Button::Down => 7,
        }
    }

    /// Place of the button in the polling order.
    pub fn index(self) -> (index: usize)
        ensures
            index == self.place(),
            index < 8,
    {
        match self {
            Button::TopLeft => 0,
            Button::TopMiddle => 1,
            Button::TopRight => 2,
            Button::Up => 3,
            Button::Left => 4,
            Button::Click => 5,
            Button::Right => 6,
            Button::Down => 7,
        }
    }

    /// The button at a place of the polling order.
    pub fn at(index: usize) -> (button: Button)
        requires
            index < 8,
        ensures
            button.place() == index,
    {
        match index {
            0 => Button::TopLeft,
            1 => Button::TopMiddle,
            2 => Button::TopRight,
            3 => Button::Up,
            4 => Button::Left,
            5 => Button::Click,
            6 => Button::Right,
            _ => Button::Down,
        }
    }

    /// Holding the button repeats it: the four directions of the joystick.
    pub open spec fn is_repeating(self) -> bool {
        self == Button::Up || self == Button::Left || self == Button::Right || self == Button::Down
    }

    fn repeats(self) -> (yes: bool)
        ensures
            yes == self.is_repeating(),
    {
        matches!(self, Button::Up | Button::Left | Button::Right | Button::Down)
    }
}

/// Which buttons are down at one moment.
#[derive(Clone, Copy, Debug, PartialEq, Eq)]
pub struct RawButtons {
    down: [bool; 8],
}

impl RawButtons {
    /// Button `place` is down.
    pub closed spec fn is_down(&self, place: int) -> bool {
        self.down@[place]
    }

    /// The same buttons, with `button` set to `pressed`.
    pub fn with(self, button: Button, pressed: bool) -> (buttons: Self)
        ensures
            forall|i: int|
                0 <= i < 8 ==> #[trigger] buttons.is_down(i) == (if i == button.place() {
                    pressed
                } else {
                    self.is_down(i)
                }),
    {
        let mut down = self.down;
        down[button.index()] = pressed;
        RawButtons { down }
    }

    pub fn pressed(self, button: Button) -> (down: bool)
        ensures
            down == self.is_down(button.place()),
    {
        self.down[button.index()]
    }
}

impl Default for RawButtons {
    /// Nothing is pressed.
    fn default() -> (buttons: Self)
        ensures
            forall|i: int| 0 <= i < 8 ==> !#[trigger] buttons.is_down(i),
    {
        RawButtons { down: [false; 8] }
    }
}

/// What is known of one button. Times are ticks of a 1024 Hz clock that wraps.
#[derive(Clone, Copy)]
pub struct ButtonState {
    /// Last reading.
    pub observed: bool,
    /// Reading after debouncing.
    pub stable: bool,
    /// When the reading last changed.
    pub changed_at: u32,
    /// When the button last went down after debouncing.
    pub pressed_at: u32,
    /// When holding it next repeats.
    pub next_repeat: u32,
}

/// Debounces buttons and repeats held directions.
pub struct InputEngine {
    buttons: [ButtonState; 8],
}

/// Ticks from `earlier` to `now` on a clock that wraps.
pub open spec fn ticks_since(now: u32, earlier: u32) -> int {
    (now - earlier) % 0x1_0000_0000
}

/// `ticks` after `now` on a clock that wraps.
pub open spec fn ticks_after(now: u32, ticks: u32) -> u32 {
    ((now + ticks) % 0x1_0000_0000) as u32
}

/// The button after one reading.
pub open spec fn sensed(b: ButtonState, raw: bool, now: u32) -> ButtonState {
    if raw != b.observed {
        ButtonState { observed: raw, changed_at: now, ..b }
    } else {
        b
    }
}

/// A reading that differs from the debounced state has lasted long enough.
pub open spec fn has_settled(b: ButtonState, now: u32) -> bool {
    b.observed != b.stable && ticks_since(now, b.changed_at) >= InputEngine::DEBOUNCE_TICKS
}

/// The button after one reading and debouncing.
pub open spec fn debounced(b: ButtonState, raw: bool, now: u32) -> ButtonState {
    let s = sensed(b, raw, now);
    if !has_settled(s, now) {
        s
    } else if s.observed {
        ButtonState {
            stable: true,
            pressed_at: now,
            next_repeat: ticks_after(now, InputEngine::FIRST_REPEAT_TICKS),
            ..s
        }
    } else {
        ButtonState { stable: false, ..s }
    }
}

/// This reading makes the button go down.
pub open spec fn goes_down(b: ButtonState, raw: bool, now: u32) -> bool {
    raw && has_settled(sensed(b, raw, now), now)
}

/// Holding the button repeats it now. A release that was seen stops repeats at
/// once, before it is debounced.
pub open spec fn repeat_due(b: ButtonState, now: u32) -> bool {
    b.stable && b.observed && ticks_since(now, b.next_repeat) < 0x7fff_ffff
}

/// The first button from `from` on that this reading makes go down, or 8.
pub open spec fn first_down(buttons: Seq<ButtonState>, raw: RawButtons, now: u32, from: int) -> int
    decreases 8 - from,
{
    if from >= 8 {
        8
    } else if goes_down(buttons[from], raw.is_down(from), now) {
        from
    } else {
        first_down(buttons, raw, now, from + 1)
    }
}

/// The first direction from `from` on whose repeat is due, or 8.
pub open spec fn first_repeat(buttons: Seq<ButtonState>, now: u32, from: int) -> int
    decreases 8 - from,
{
    if from >= 8 {
        8
    } else if (from == 3 || from == 4 || from == 6 || from == 7) && repeat_due(buttons[from], now) {
        from
    } else {
        first_repeat(buttons, now, from + 1)
    }
}

/// The buttons after a poll: those up to the one that goes down are debounced; if
/// none does, a repeat that is due is put off to its next time.
pub open spec fn polled(buttons: Seq<ButtonState>, raw: RawButtons, now: u32) -> Seq<ButtonState> {
    let down = first_down(buttons, raw, now, 0);
    let debounced_all = Seq::new(
        8,
        |i: int| if i <= down { debounced(buttons[i], raw.is_down(i), now) } else { buttons[i] },
    );
    let again = first_repeat(debounced_all, now, 0);
    if down < 8 || again >= 8 {
        debounced_all
    } else {
        debounced_all.update(
            again,
            ButtonState {
                next_repeat: ticks_after(now, InputEngine::REPEAT_TICKS),
                ..debounced_all[again]
            },
        )
    }
}

/// The place of the button that a poll reports, or 8.
pub open spec fn reported(buttons: Seq<ButtonState>, raw: RawButtons, now: u32) -> int {
    let down = first_down(buttons, raw, now, 0);
    if down < 8 {
        down
    } else {
        first_repeat(
            Seq::new(8, |i: int| debounced(buttons[i], raw.is_down(i), now)),
            now,
            0,
        )
    }
}

impl InputEngine {
    pub const DEBOUNCE_TICKS: u32 = 21;

    pub const FIRST_REPEAT_TICKS: u32 = 410;

    pub const REPEAT_TICKS: u32 = 102;

    /// The state of each button, by place.
    pub closed spec fn buttons(&self) -> Seq<ButtonState> {
        self.buttons@
    }

    /// All buttons up.
    pub fn new() -> (engine: Self)
        ensures
            engine.buttons().len() == 8,
            forall|i: int| 0 <= i < 8 ==> #[trigger] engine.buttons()[i] == (ButtonState {
                observed: false,
                stable: false,
                changed_at: 0,
                pressed_at: 0,
                next_repeat: 0,
            }),
    {
        let up = ButtonState {
            observed: false,
            stable: false,
            changed_at: 0,
            pressed_at: 0,
            next_repeat: 0,
        };
        InputEngine { buttons: [up; 8] }
    }

    /// Take one reading of all buttons. Reports at most one event: the first
    /// button that goes down, or else the first repeat that is due.
    pub fn update(&mut self, raw: RawButtons, now: u32) -> (event: Option<Button>)
        ensures
            final(self).buttons() == polled(old(self).buttons(), raw, now),
            match event {
                Some(button) => button.place() == reported(old(self).buttons(), raw, now),
                None => reported(old(self).buttons(), raw, now) == 8,
            },
    {
        let ghost start = self.buttons@;
        let ghost down = first_down(start, raw, now, 0);
        let mut i: usize = 0;
        while i < 8
            invariant
                i <= 8,
                start == old(self).buttons@,
                start.len() == 8,
                down == first_down(start, raw, now, 0) == first_down(start, raw, now, i as int),
                forall|j: int|
                    0 <= j < i ==> #[trigger] self.buttons@[j] == debounced(
                        start[j],
                        raw.is_down(j),
                        now,
                    ),
                forall|j: int| i <= j < 8 ==> #[trigger] self.buttons@[j] == start[j],
            decreases 8 - i,
        {
            let pressed = raw.down[i];
            let mut b = self.buttons[i];
            if pressed != b.observed {
                b = ButtonState { observed: pressed, changed_at: now, ..b };
            }
            if b.observed != b.stable && now.wrapping_sub(b.changed_at)
                >= InputEngine::DEBOUNCE_TICKS {
                if b.observed {
                    self.buttons[i] = ButtonState {
                        stable: true,
                        pressed_at: now,
                        next_repeat: now.wrapping_add(InputEngine::FIRST_REPEAT_TICKS),
                        ..b
                    };
                    proof {
                        assert(down == i);
                        assert(self.buttons@ =~= polled(start, raw, now));
                    }
                    return Some(Button::at(i));
                }
                b = ButtonState { stable: false, ..b };
            }
            self.buttons[i] = b;
            i = i + 1;
        }
        let ghost middle = self.buttons@;
        proof {
            assert(middle =~= Seq::new(8, |i: int| debounced(start[i], raw.is_down(i), now)));
            assert(middle =~= Seq::new(
                8,
                |i: int| if i <= down { debounced(start[i], raw.is_down(i), now) } else { start[i] },
            ));
        }
        let mut i: usize = 0;
        while i < 8
            invariant
                i <= 8,
                self.buttons@ == middle,
                middle.len() == 8,
                start == old(self).buttons@,
                down == first_down(start, raw, now, 0) == 8,
                middle == Seq::new(8, |i: int| debounced(start[i], raw.is_down(i), now)),
                middle == Seq::new(
                    8,
                    |i: int|
                        if i <= down {
                            debounced(start[i], raw.is_down(i), now)
                        } else {
                            start[i]
                        },
                ),
                first_repeat(middle, now, 0) == first_repeat(middle, now, i as int),
            ensures
                i == 8,
                self.buttons@ == middle,
                first_repeat(middle, now, 0) == 8,
            decreases 8 - i,
        {
            let b = self.buttons[i];
            let button = Button::at(i);
            if button.repeats() && b.stable && b.observed && now.wrapping_sub(b.next_repeat)
                < 0x7fff_ffff {
                self.buttons[i] = ButtonState {
                    next_repeat: now.wrapping_add(InputEngine::REPEAT_TICKS),
                    ..b
                };
                return Some(button);
            }
            i = i + 1;
        }
        None
    }

    pub fn is_pressed(&self, button: Button) -> (down: bool)
        ensures
            down == self.buttons()[button.place()].stable,
    {
        self.buttons[button.index()].stable
    }

    /// How long `button` has been down.
    pub fn held_ticks(&self, button: Button, now: u32) -> (ticks: u32)
        ensures
            ticks == (if self.buttons()[button.place()].stable {
                ticks_since(now, self.buttons()[button.place()].pressed_at)
            } else {
                0
            }),
    {
        let b = self.buttons[button.index()];
        if b.stable {
            now.wrapping_sub(b.pressed_at)
        } else {
            0
        }
    }
}

impl Default for InputEngine {
    fn default() -> (engine: Self)
        ensures
            engine.buttons().len() == 8,
            forall|i: int| 0 <= i < 8 ==> #[trigger] engine.buttons()[i] == (ButtonState {
                observed: false,
                stable: false,
                changed_at: 0,
                pressed_at: 0,
                next_repeat: 0,
            }),
    {
        InputEngine::new()
    }
}

/// A reading must last for the whole debounce time before it is reported: right
/// after a change nothing goes down.
pub proof fn bounces_are_not_reported(b: ButtonState, raw: bool, now: u32)
    requires
        raw != b.observed,
    ensures
        !goes_down(b, raw, now),
        debounced(b, raw, now).stable == b.stable,
{
}

/// A press is reported once: however often the button is read while it stays
/// down, it does not go down again.
pub proof fn a_press_is_reported_once(b: ButtonState, now: u32, later: u32)
    requires
        goes_down(b, true, now),
    ensures
        debounced(b, true, now).stable,
        !goes_down(debounced(b, true, now), true, later),
        debounced(debounced(b, true, now), true, later) == debounced(b, true, now),
{
}

/// A button that was let go does not repeat, not even before the release is
/// debounced.
pub proof fn a_released_button_does_not_repeat(b: ButtonState, now: u32)
    ensures
        !repeat_due(debounced(b, false, now), now),
{
}

/// Right after a press or a repeat no repeat is due until its time has come.
pub proof fn repeats_wait_for_their_time(now: u32, wait: u32, passed: u32)
    requires
        passed < wait <= 0x7fff_ffff,
    ensures
        ticks_since(ticks_after(now, passed), ticks_after(now, wait)) >= 0x7fff_ffff,
        ticks_since(ticks_after(now, wait), ticks_after(now, wait)) == 0,
{
}

} // verus!
