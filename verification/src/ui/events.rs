//! What a key press does to the picker with a search filter.
use vstd::prelude::*;

use crate::templates::views;
use crate::ui::app::{moved_down, moved_up, reset_cursor, App};
use crate::ui::{selected_spec, toggled};

verus! {

/// A key press, as the picker tells keys apart.
#[derive(Debug, Clone, Copy, PartialEq, Eq, Structural)]
pub enum Key {
    Up,
    Down,
    Enter,
    Esc,
    Backspace,
    Char(char),
    /// Any other key.
    Other,
}

/// What the picker does after a key press.
#[derive(Debug)]
pub enum KeyOutcome {
    /// Keep running.
    Continue,
    /// Stop without a selection.
    Cancel,
    /// Stop with these languages selected.
    Confirm(Vec<String>),
}

/// Unicode's control characters (general category `Cc`), the set that
/// `char::is_control` tests.
pub open spec fn is_control_spec(c: char) -> bool {
    let u = c as u32;
    u <= 0x1F || (0x7F <= u <= 0x9F)
}

/// Whether `c` is a control character.
pub fn is_control(c: char) -> (b: bool)
    ensures
        b == is_control_spec(c),
{
    let u = c as u32;
    u <= 0x1F || (0x7F <= u && u <= 0x9F)
}

/// The keys that are commands rather than search text.
pub open spec fn is_command(key: Key) -> bool {
    key == Key::Esc || key == Key::Char('q') || key == Key::Enter || key == Key::Up || key
        == Key::Char('k') || key == Key::Down || key == Key::Char('j') || key == Key::Char(' ')
}

/// What a key press does: `q` or Esc cancels, Enter confirms the ticked
/// languages, Up/`k` and Down/`j` move among the shown languages, Space flips
/// the box under the cursor, Backspace shortens the search text, and any
/// other printable character is added to it.
pub fn handle_key(app: &mut App, key: Key) -> (out: KeyOutcome)
    requires
        old(app).wf(),
    ensures
        final(app).wf(),
        final(app).languages() == old(app).languages(),
        key == Key::Esc || key == Key::Char('q') ==> out is Cancel && *final(app) == *old(app),
        key == Key::Enter ==> (out matches KeyOutcome::Confirm(sel) && views(sel@)
            == selected_spec(old(app).languages(), old(app).selected()) && *final(app)
            == *old(app)),
        key == Key::Up || key == Key::Char('k') ==> out is Continue && final(app).selected() == old(
            app,
        ).selected() && final(app).query() == old(app).query() && final(app).cursor() == moved_up(
            old(app).filtered(),
            old(app).cursor(),
        ) && final(app).scroll() == old(app).scroll(),
        key == Key::Down || key == Key::Char('j') ==> out is Continue && final(app).selected()
            == old(app).selected() && final(app).query() == old(app).query() && final(app).cursor()
            == moved_down(old(app).filtered(), old(app).cursor()) && final(app).scroll() == old(
            app,
        ).scroll(),
        key == Key::Char(' ') ==> out is Continue && final(app).selected() == toggled(
            old(app).selected(),
            old(app).cursor(),
        ) && final(app).query() == old(app).query() && final(app).cursor() == old(app).cursor()
            && final(app).scroll() == old(app).scroll(),
        key == Key::Backspace ==> out is Continue && final(app).selected() == old(app).selected()
            && final(app).query() == (if old(app).query().len() > 0 {
            old(app).query().drop_last()
        } else {
            old(app).query()
        }) && final(app).cursor() == reset_cursor(
            final(app).filtered(),
            old(app).cursor(),
            old(app).languages().len() as int,
        ) && final(app).scroll() == 0,
        key matches Key::Char(c) ==> (!is_command(key) && !is_control_spec(c) ==> out is Continue
            && final(app).selected() == old(app).selected() && final(app).query() == old(
            app,
        ).query().push(c) && final(app).cursor() == reset_cursor(
            final(app).filtered(),
            old(app).cursor(),
            old(app).languages().len() as int,
        ) && final(app).scroll() == 0),
        key == Key::Other || (key matches Key::Char(c) && !is_command(key) && is_control_spec(c))
            ==> out is Continue && *final(app) == *old(app),
{
    match key {
        Key::Esc => KeyOutcome::Cancel,
        Key::Enter => KeyOutcome::Confirm(app.get_selected_languages()),
        Key::Up => {
            app.move_cursor_up();
            KeyOutcome::Continue
        },
        Key::Down => {
            app.move_cursor_down();
            KeyOutcome::Continue
        },
        Key::Backspace => {
            app.backspace_search();
            KeyOutcome::Continue
        },
        Key::Char(c) => {
            if c == 'q' {
                KeyOutcome::Cancel
            } else if c == 'k' {
                app.move_cursor_up();
                KeyOutcome::Continue
            } else if c == 'j' {
                app.move_cursor_down();
                KeyOutcome::Continue
            } else if c == ' ' {
                app.toggle_selection();
                KeyOutcome::Continue
            } else if !is_control(c) {
                app.add_to_search(c);
                KeyOutcome::Continue
            } else {
                KeyOutcome::Continue
            }
        },
        Key::Other => KeyOutcome::Continue,
    }
}

} // verus!
