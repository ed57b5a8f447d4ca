//! The state of the template picker. This module holds the plain picker (a
//! sorted list with a cursor and check boxes); `app` holds the picker with a
//! search filter that the program runs, `events` what a key press does to it,
//! and `render` what is drawn of it.
pub mod app;
pub mod events;
pub mod render;

use vstd::prelude::*;

use crate::sync::CacheAction;
use crate::templates::views;
use crate::text::{lex_le, sort_strings, sorted_strings};
use crate::sync::{decimal_spec, format_u64};
use crate::ui::events::{Key, KeyOutcome};
use crate::ui::render::{count_ticked, footer_text, row_label, window, ListRow};

verus! {

/// The state of a background download of the templates, shown to the picker.
#[derive(Debug, Clone, Copy, PartialEq, Eq, Structural)]
pub enum FetchStatus {
    /// No download runs.
    Idle,
    /// A download runs.
    Fetching,
    /// The download has finished and its templates are in the cache.
    Fetched,
}

impl FetchStatus {
    /// The status when the picker starts: a download runs exactly when the
    /// cached templates are used and refreshed behind the picker's back.
    pub fn initial(action: CacheAction) -> (s: FetchStatus)
        ensures
            s == (if action == CacheAction::UseCachedAndRefresh {
                FetchStatus::Fetching
            } else {
                FetchStatus::Idle
            }),
    {
        match action {
            CacheAction::UseCachedAndRefresh => FetchStatus::Fetching,
            _ => FetchStatus::Idle,
        }
    }
}

/// The languages whose check box is ticked, in list order.
pub open spec fn selected_spec(languages: Seq<Seq<char>>, selected: Seq<bool>) -> Seq<Seq<char>>
    decreases selected.len(),
{
    if selected.len() == 0 {
        Seq::empty()
    } else {
        let prev = selected_spec(languages, selected.drop_last());
        if selected.last() {
            prev.push(languages[selected.len() - 1])
        } else {
            prev
        }
    }
}

/// The languages whose check box is ticked.
pub(crate) fn collect_selected(languages: &Vec<String>, selected: &Vec<bool>) -> (out: Vec<String>)
    requires
        selected@.len() == languages@.len(),
    ensures
        views(out@) == selected_spec(views(languages@), selected@),
{
    let n = selected.len();
    let mut out: Vec<String> = Vec::new();
    for i in 0..n
        invariant
            n == selected@.len(),
            selected@.len() == languages@.len(),
            views(out@) == selected_spec(views(languages@), selected@.take(i as int)),
    {
        assert(selected@.take(i + 1).drop_last() =~= selected@.take(i as int));
        if selected[i] {
            out.push(languages[i].clone());
            assert(views(out@) =~= selected_spec(views(languages@), selected@.take(i as int)).push(
                languages@[i as int]@,
            ));
        }
    }
    assert(selected@.take(n as int) =~= selected@);
    out
}

/// Each ticked language is the language at some position below the number
/// of boxes.
proof fn lemma_selected_from(languages: Seq<Seq<char>>, selected: Seq<bool>, j: int)
    requires
        0 <= j < selected_spec(languages, selected).len(),
    ensures
        exists|k: int|
            0 <= k < selected.len() && selected[k] && #[trigger] languages[k]
                == selected_spec(languages, selected)[j],
    decreases selected.len(),
{
    let prev = selected_spec(languages, selected.drop_last());
    if j < prev.len() {
        lemma_selected_from(languages, selected.drop_last(), j);
        let k = choose|k: int|
            0 <= k < selected.drop_last().len() && selected.drop_last()[k] && #[trigger] languages[k]
                == prev[j];
        assert(selected[k] && languages[k] == selected_spec(languages, selected)[j]);
    } else {
        let k = selected.len() - 1;
        assert(selected[k] && languages[k] == selected_spec(languages, selected)[j]);
    }
}

/// Every ticked language is given back, and only those: as many names as
/// ticked boxes, the name of each ticked box among them.
pub proof fn lemma_selected_complete(languages: Seq<Seq<char>>, selected: Seq<bool>)
    requires
        selected.len() <= languages.len(),
    ensures
        selected_spec(languages, selected).len() == selected.filter(|b: bool| b).len(),
        forall|k: int|
            0 <= k < selected.len() && selected[k] ==> selected_spec(languages, selected).contains(
                #[trigger] languages[k],
            ),
    decreases selected.len(),
{
    reveal_with_fuel(Seq::<bool>::filter, 1);
    if selected.len() > 0 {
        let sel = selected.drop_last();
        let prev = selected_spec(languages, sel);
        let out = selected_spec(languages, selected);
        lemma_selected_complete(languages, sel);
        assert forall|k: int| 0 <= k < selected.len() && selected[k] implies out.contains(
            #[trigger] languages[k],
        ) by {
            if k < sel.len() {
                assert(sel[k]);
                assert(prev.contains(languages[k]));
                let j = choose|j: int| 0 <= j < prev.len() && prev[j] == languages[k];
                assert(out[j] == prev[j]);
            } else {
                assert(out[prev.len() as int] == languages[k]);
            }
        }
    }
}

/// The ticked languages of a sorted list come out sorted, and each of them
/// is a language of the list whose box is ticked.
pub proof fn lemma_selected_sorted(strings: Seq<String>, selected: Seq<bool>)
    requires
        sorted_strings(strings),
        selected.len() <= strings.len(),
    ensures
        ({
            let out = selected_spec(views(strings), selected);
            &&& forall|i: int, j: int| 0 <= i < j < out.len() ==> lex_le(#[trigger] out[i], #[trigger] out[j])
            &&& forall|j: int|
                0 <= j < out.len() ==> exists|k: int|
                    0 <= k < selected.len() && selected[k] && #[trigger] views(strings)[k]
                        == #[trigger] out[j]
        }),
    decreases selected.len(),
{
    let langs = views(strings);
    let out = selected_spec(langs, selected);
    assert forall|j: int| 0 <= j < out.len() implies exists|k: int|
        0 <= k < selected.len() && selected[k] && #[trigger] views(strings)[k] == #[trigger] out[j] by {
        lemma_selected_from(langs, selected, j);
        let k = choose|k: int|
            0 <= k < selected.len() && selected[k] && #[trigger] langs[k] == out[j];
        assert(0 <= k < selected.len() && selected[k] && views(strings)[k] == out[j]);
    }
    if selected.len() > 0 {
        let n = selected.len() - 1;
        let sel = selected.drop_last();
        lemma_selected_sorted(strings, sel);
        let prev = selected_spec(langs, sel);
        assert forall|i: int, j: int| 0 <= i < j < out.len() implies lex_le(
            #[trigger] out[i],
            #[trigger] out[j],
        ) by {
            if j < prev.len() {
                assert(out[i] == prev[i] && out[j] == prev[j]);
            } else {
                assert(out[i] == prev[i]);
                assert(out[j] == langs[n]);
                lemma_selected_from(langs, sel, i);
                let k = choose|k: int| 0 <= k < sel.len() && sel[k] && #[trigger] langs[k] == prev[i];
                assert(lex_le(strings[k]@, strings[n]@));
            }
        }
    }
}

/// `selected` with the box at `cursor` flipped (when there is one there).
pub open spec fn toggled(selected: Seq<bool>, cursor: int) -> Seq<bool> {
    if 0 <= cursor < selected.len() {
        selected.update(cursor, !selected[cursor])
    } else {
        selected
    }
}

/// Flipping a box twice leaves every box as it was.
pub proof fn lemma_toggle_twice(selected: Seq<bool>, cursor: int)
    ensures
        toggled(toggled(selected, cursor), cursor) == selected,
{
    assert(toggled(toggled(selected, cursor), cursor) =~= selected);
}

/// The scroll offset after `update_scroll`: moved just enough that the
/// cursor is inside a window of `height` rows.
pub open spec fn scrolled(scroll: int, cursor: int, height: int) -> int {
    if cursor < scroll {
        cursor
    } else if cursor >= scroll + height {
        cursor - height + 1
    } else {
        scroll
    }
}

/// After scrolling, the cursor is in the window (when the window has rows).
pub proof fn lemma_scrolled_shows_cursor(scroll: int, cursor: int, height: int)
    requires
        height > 0,
    ensures
        scrolled(scroll, cursor, height) <= cursor < scrolled(scroll, cursor, height) + height,
{
}

/// What the plain picker draws, as text.
pub struct PlainListView {
    /// The rows of the language list that fit in the window.
    pub rows: Vec<ListRow>,
    /// The title of the language list.
    pub title: String,
    /// The footer line.
    pub footer: String,
}

/// The title of the plain picker's list: the number of languages, twice.
pub open spec fn plain_title_spec(n: nat) -> Seq<char> {
    "Languages ("@ + decimal_spec(n) + "/"@ + decimal_spec(n) + ")"@
}

/// A list of languages to pick from, with check boxes, a cursor and a scroll
/// offset.
pub struct App {
    languages: Vec<String>,
    selected_indices: Vec<bool>,
    cursor_position: usize,
    scroll_offset: usize,
}

impl App {
    /// The languages, sorted.
    pub closed spec fn languages(&self) -> Seq<Seq<char>> {
        views(self.languages@)
    }

    /// The language strings themselves.
    pub closed spec fn language_strings(&self) -> Seq<String> {
        self.languages@
    }

    /// The languages are the views of the language strings.
    pub proof fn lemma_languages_are_views(&self)
        ensures
            self.languages() == views(self.language_strings()),
    {
    }

    /// The check boxes, one per language.
    pub closed spec fn selected(&self) -> Seq<bool> {
        self.selected_indices@
    }

    /// The position of the cursor in the list.
    pub closed spec fn cursor(&self) -> int {
        self.cursor_position as int
    }

    /// The first row shown.
    pub closed spec fn scroll(&self) -> int {
        self.scroll_offset as int
    }

    /// One box per language; the cursor is on a language, or at 0 in an
    /// empty list.
    pub open spec fn wf(&self) -> bool {
        &&& self.selected().len() == self.languages().len()
        &&& self.languages().len() == 0 ==> self.cursor() == 0
        &&& self.languages().len() > 0 ==> 0 <= self.cursor() < self.languages().len()
        &&& 0 <= self.scroll() <= usize::MAX
    }

    /// A picker over `languages`, sorted, none ticked, the cursor and the
    /// view at the top.
    pub fn new(languages: Vec<String>) -> (app: Self)
        ensures
            app.wf(),
            app.languages() == views(app.language_strings()),
            sorted_strings(app.language_strings()),
            app.language_strings().to_multiset() == languages@.to_multiset(),
            app.selected() == Seq::new(languages@.len(), |i: int| false),
            app.cursor() == 0,
            app.scroll() == 0,
    {
        let n = languages.len();
        let ghost input = languages@;
        let languages = sort_strings(languages);
        proof {
            vstd::seq_lib::to_multiset_len(languages@);
            vstd::seq_lib::to_multiset_len(input);
        }
        let selected_indices = vec![false; n];
        let app = App { languages, selected_indices, cursor_position: 0, scroll_offset: 0 };
        assert(app.selected() =~= Seq::new(n as nat, |i: int| false));
        app
    }

    /// The languages whose box is ticked, in list order.
    pub fn get_selected_languages(&self) -> (out: Vec<String>)
        requires
            self.wf(),
        ensures
            views(out@) == selected_spec(self.languages(), self.selected()),
    {
        collect_selected(&self.languages, &self.selected_indices)
    }

    /// Moves the cursor one row up, unless it is on the first row.
    fn move_cursor_up(&mut self)
        requires
            old(self).wf(),
        ensures
            final(self).wf(),
            final(self).languages() == old(self).languages(),
            final(self).selected() == old(self).selected(),
            final(self).scroll() == old(self).scroll(),
            final(self).cursor() == (if old(self).cursor() > 0 {
                old(self).cursor() - 1
            } else {
                old(self).cursor()
            }),
    {
        if self.cursor_position > 0 {
            self.cursor_position -= 1;
        }
    }

    /// Moves the cursor one row down, unless it is on the last row.
    fn move_cursor_down(&mut self)
        requires
            old(self).wf(),
            old(self).languages().len() > 0,
        ensures
            final(self).wf(),
            final(self).languages() == old(self).languages(),
            final(self).selected() == old(self).selected(),
            final(self).scroll() == old(self).scroll(),
            final(self).cursor() == (if old(self).cursor() < old(self).languages().len() - 1 {
                old(self).cursor() + 1
            } else {
                old(self).cursor()
            }),
    {
        if self.cursor_position < self.languages.len() - 1 {
            self.cursor_position += 1;
        }
    }

    /// Flips the box under the cursor.
    fn toggle_selection(&mut self)
        requires
            old(self).wf(),
        ensures
            final(self).wf(),
            final(self).languages() == old(self).languages(),
            final(self).selected() == toggled(old(self).selected(), old(self).cursor()),
            final(self).cursor() == old(self).cursor(),
            final(self).scroll() == old(self).scroll(),
    {
        if self.cursor_position < self.selected_indices.len() {
            let c = self.cursor_position;
            let flipped = !self.selected_indices[c];
            self.selected_indices.set(c, flipped);
        }
    }

    /// Scrolls so that the cursor is inside a window of `visible_height` rows.
    fn update_scroll(&mut self, visible_height: usize)
        requires
            old(self).wf(),
            old(self).scroll() + visible_height <= usize::MAX,
        ensures
            final(self).wf(),
            final(self).languages() == old(self).languages(),
            final(self).selected() == old(self).selected(),
            final(self).cursor() == old(self).cursor(),
            final(self).scroll() == scrolled(
                old(self).scroll(),
                old(self).cursor(),
                visible_height as int,
            ),
    {
        let n = self.languages.len();
        if self.cursor_position < self.scroll_offset {
            self.scroll_offset = self.cursor_position;
        } else if self.cursor_position >= self.scroll_offset + visible_height {
            assert(self.cursor_position < n || self.cursor_position == 0);
            self.scroll_offset = self.cursor_position - visible_height + 1;
        }
    }

    /// What a key press does: `q` or Esc cancels, Enter confirms the ticked
    /// languages, Up/`k` and Down/`j` move the cursor, Space flips a box;
    /// other keys do nothing.
    pub fn handle_key(&mut self, key: Key) -> (out: KeyOutcome)
        requires
            old(self).wf(),
            key == Key::Down || key == Key::Char('j') ==> old(self).languages().len() > 0,
        ensures
            final(self).wf(),
            final(self).languages() == old(self).languages(),
            final(self).scroll() == old(self).scroll(),
            key == Key::Esc || key == Key::Char('q') ==> out == KeyOutcome::Cancel && *final(self)
                == *old(self),
            key == Key::Enter ==> (out matches KeyOutcome::Confirm(sel) && views(sel@)
                == selected_spec(old(self).languages(), old(self).selected()) && *final(self)
                == *old(self)),
            key == Key::Up || key == Key::Char('k') ==> out == KeyOutcome::Continue
                && final(self).selected() == old(self).selected() && final(self).cursor() == (if old(
                self,
            ).cursor() > 0 {
                old(self).cursor() - 1
            } else {
                old(self).cursor()
            }),
            key == Key::Down || key == Key::Char('j') ==> out == KeyOutcome::Continue
                && final(self).selected() == old(self).selected() && final(self).cursor() == (if old(
                self,
            ).cursor() < old(self).languages().len() - 1 {
                old(self).cursor() + 1
            } else {
                old(self).cursor()
            }),
            key == Key::Char(' ') ==> out == KeyOutcome::Continue && final(self).selected()
                == toggled(old(self).selected(), old(self).cursor()) && final(self).cursor() == old(
                self,
            ).cursor(),
            !(key == Key::Esc || key == Key::Char('q') || key == Key::Enter || key == Key::Up
                || key == Key::Char('k') || key == Key::Down || key == Key::Char('j') || key
                == Key::Char(' ')) ==> out == KeyOutcome::Continue && *final(self) == *old(self),
    {
        match key {
            Key::Esc => KeyOutcome::Cancel,
            Key::Enter => KeyOutcome::Confirm(self.get_selected_languages()),
            Key::Up => {
                self.move_cursor_up();
                KeyOutcome::Continue
            },
            Key::Down => {
                self.move_cursor_down();
                KeyOutcome::Continue
            },
            Key::Char(c) => {
                if c == 'q' {
                    KeyOutcome::Cancel
                } else if c == 'k' {
                    self.move_cursor_up();
                    KeyOutcome::Continue
                } else if c == 'j' {
                    self.move_cursor_down();
                    KeyOutcome::Continue
                } else if c == ' ' {
                    self.toggle_selection();
                    KeyOutcome::Continue
                } else {
                    KeyOutcome::Continue
                }
            },
            _ => KeyOutcome::Continue,
        }
    }

    /// Scrolls the list so that the cursor is inside a window of
    /// `list_height` rows, then gives what is drawn: the rows of the window,
    /// the title and the footer.
    pub fn list_view(&mut self, list_height: usize) -> (v: PlainListView)
        requires
            old(self).wf(),
            old(self).scroll() + list_height <= usize::MAX,
        ensures
            final(self).wf(),
            final(self).languages() == old(self).languages(),
            final(self).selected() == old(self).selected(),
            final(self).cursor() == old(self).cursor(),
            final(self).scroll() == scrolled(
                old(self).scroll(),
                old(self).cursor(),
                list_height as int,
            ),
            v.title@ == plain_title_spec(old(self).languages().len()),
            v.footer@ == crate::ui::render::footer_spec(count_ticked(old(self).selected())),
            ({
                let shown = window(
                    Seq::new(old(self).languages().len(), |i: int| i),
                    final(self).scroll(),
                    list_height as int,
                );
                &&& v.rows@.len() == shown.len()
                &&& forall|k: int|
                    0 <= k < shown.len() ==> {
                        let i = shown[k];
                        &&& (#[trigger] v.rows@[k]).index == i
                        &&& v.rows@[k].label@ == row_label(old(self).selected()[i], old(self).languages()[i])
                        &&& v.rows@[k].is_cursor == (i == old(self).cursor())
                        &&& v.rows@[k].is_selected == old(self).selected()[i]
                    }
            }),
    {
        self.update_scroll(list_height);
        let n = self.languages.len();
        let start = self.scroll_offset;
        let ghost all = Seq::new(n as nat, |i: int| i);
        let ghost shown = window(all, start as int, list_height as int);
        let mut rows: Vec<ListRow> = Vec::new();
        let mut k: usize = start;
        while k < n && k - start < list_height
            invariant
                n == self.languages@.len(),
                self.wf(),
                all == Seq::new(n as nat, |i: int| i),
                shown == window(all, start as int, list_height as int),
                start <= k,
                k <= n || k == start,
                rows@.len() == k - start,
                k - start <= list_height,
                forall|j: int|
                    0 <= j < k - start ==> {
                        let i = shown[j];
                        &&& (#[trigger] rows@[j]).index == i
                        &&& rows@[j].label@ == row_label(self.selected()[i], self.languages()[i])
                        &&& rows@[j].is_cursor == (i == self.cursor())
                        &&& rows@[j].is_selected == self.selected()[i]
                    },
            decreases n - k,
        {
            assert(shown[(k - start) as int] == k as int);
            let ticked = self.selected_indices[k];
            let mut label = if ticked {
                String::from_str("[\u{2713}]")
            } else {
                String::from_str("[ ]")
            };
            label.append(" ");
            label.append(self.languages[k].as_str());
            rows.push(
                ListRow { index: k, label, is_cursor: k == self.cursor_position, is_selected: ticked },
            );
            k = k + 1;
        }
        let count = format_u64(n as u64);
        let mut title = String::from_str("Languages (");
        title.append(count.as_str());
        title.append("/");
        title.append(count.as_str());
        title.append(")");
        let footer = footer_text(&self.selected_indices);
        PlainListView { rows, title, footer }
    }
}

} // verus!
