//! Every button on every screen.
use vstd::prelude::*;

use crate::card::CardFs;
use crate::editing::{editor_pressed, exit_pressed, handle_editor, handle_exit};
use crate::handlers::{
    action_menu_pressed, card_sound, explorer_pressed, handle_action_menu, handle_explorer,
    handle_new_menu, new_menu_pressed,
};
use crate::input::Button;
use crate::names::{says, short_form};
use crate::naming::{handle_name_entry, name_entry_pressed, name_problem};
use crate::operations::{
    delete_prompt_pressed, handle_delete_prompt, handle_move_picker, picker_pressed,
};
use crate::screens::{HandleResult, MediaIdentity, Screen};
use crate::volume::VolumeAccess;

verus! {

/// A button on any screen, with the given verdict on the name that is being
/// entered, if one is.
pub open spec fn button_pressed<M: VolumeAccess>(
    before: Option<CardFs<M>>,
    after: Option<CardFs<M>>,
    screen: Screen,
    button: Button,
    verdict: Result<(), &'static str>,
    identity: Option<MediaIdentity>,
    result: HandleResult,
) -> bool {
    match screen {
        Screen::Explorer(explorer) => result matches HandleResult::Screen(next) && match before {
            None => after is None && next is Missing,
            Some(b) => after matches Some(a) && explorer_pressed(
                b,
                a,
                explorer,
                button,
                identity,
                next,
            ),
        },
        Screen::NewMenu(menu) => after == before && (result matches HandleResult::Screen(next)
            && new_menu_pressed(menu, button, next)),
        Screen::ActionMenu(menu) => result matches HandleResult::Screen(next)
            && action_menu_pressed(before, after, menu, button, next),
        Screen::Naming(entry) => name_entry_pressed(
            before,
            after,
            entry,
            button,
            verdict,
            identity,
            result,
        ),
        Screen::MovePicker(picker) => match before {
            None => after is None && result == HandleResult::Screen(Screen::Missing),
            Some(b) => after matches Some(a) && picker_pressed(b, a, picker, button, result),
        },
        Screen::DeletePrompt { explorer, item, choice } => after == before
            && delete_prompt_pressed(explorer, item, choice, button, result),
        Screen::Editor(editor) => result matches HandleResult::Screen(next) && editor_pressed(
            before,
            after,
            editor,
            button,
            next,
        ),
        Screen::ExitPrompt { editor, choice } => result matches HandleResult::Screen(next)
            && exit_pressed(before, after, editor, choice, button, next),
        Screen::FormatPrompt { reason, cancelled, opened_at } => after == before && result
            == HandleResult::Screen(
            Screen::FormatPrompt {
                reason,
                cancelled: if button == Button::TopLeft {
                    true
                } else if button == Button::TopRight {
                    false
                } else {
                    cancelled
                },
                opened_at,
            },
        ),
        Screen::Fatal(_) => after == before && result == HandleResult::Screen(
            if button == Button::TopRight {
                Screen::Missing
            } else {
                screen
            },
        ),
        _ => after == before && result == HandleResult::Screen(screen),
    }
}

/// What `button` does on `screen`.
pub fn handle_button<M: VolumeAccess>(
    screen: Screen,
    button: Button,
    card: &mut Option<CardFs<M>>,
    identity: Option<MediaIdentity>,
) -> (result: HandleResult)
    requires
        screen.wf(),
        card_sound(*old(card)),
        *old(card) is Some ==> identity is Some,
    ensures
        card_sound(*final(card)),
        *final(card) is Some <==> *old(card) is Some,
        result.wf(),
        exists|verdict: Result<(), &'static str>|
            (screen matches Screen::Naming(entry) ==> says(
                verdict,
                name_problem(entry@, short_form(entry.name@)),
            )) && #[trigger] button_pressed(
                *old(card),
                *final(card),
                screen,
                button,
                verdict,
                identity,
                result,
            ),
{
    let ghost before = *card;
    let ghost shown = screen;
    let result = match screen {
        Screen::Explorer(explorer) => HandleResult::Screen(
            handle_explorer(explorer, button, card, identity),
        ),
        Screen::NewMenu(menu) => HandleResult::Screen(handle_new_menu(menu, button)),
        Screen::ActionMenu(menu) => HandleResult::Screen(handle_action_menu(menu, button, card)),
        Screen::Naming(entry) => handle_name_entry(entry, button, card, identity),
        Screen::MovePicker(picker) => handle_move_picker(picker, button, card),
        Screen::DeletePrompt { explorer, item, choice } => handle_delete_prompt(
            explorer,
            item,
            choice,
            button,
        ),
        Screen::Editor(editor) => HandleResult::Screen(handle_editor(editor, button, card)),
        Screen::ExitPrompt { editor, choice } => HandleResult::Screen(
            handle_exit(editor, choice, button, card),
        ),
        Screen::FormatPrompt { reason, cancelled, opened_at } => {
            let cancelled = match button {
                Button::TopLeft => true,
                Button::TopRight => false,
                _ => cancelled,
            };
            HandleResult::Screen(Screen::FormatPrompt { reason, cancelled, opened_at })
        },
        Screen::Fatal(message) => if button == Button::TopRight {
            HandleResult::Screen(Screen::Missing)
        } else {
            HandleResult::Screen(Screen::Fatal(message))
        },
        other => HandleResult::Screen(other),
    };
    proof {
        if !(shown is Naming) {
            let verdict: Result<(), &'static str> = Ok(());
            assert(button_pressed(before, *card, shown, button, verdict, identity, result));
        } else {
            let entry = shown->Naming_0;
            let verdict = choose|verdict: Result<(), &'static str>|
                says(verdict, name_problem(entry@, short_form(entry.name@)))
                    && #[trigger] name_entry_pressed(
                    before,
                    *card,
                    entry,
                    button,
                    verdict,
                    identity,
                    result,
                );
            assert(button_pressed(before, *card, shown, button, verdict, identity, result));
        }
    }
    result
}

} // verus!
