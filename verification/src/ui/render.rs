//! What the picker with a search filter draws: the search box, the window of
//! shown languages, the list title and the footer.
use vstd::prelude::*;

use crate::sync::{decimal_spec, format_u64};
use crate::templates::{lemma_first_index, views};
use crate::ui::app::{equals, lemma_filtered_ascending, position, position_in, App};

verus! {

/// One row of the language list.
pub struct ListRow {
    /// The index of the language in the picker's list.
    pub index: usize,
    /// The check box and the language name.
    pub label: String,
    /// The cursor is on this row.
    pub is_cursor: bool,
    /// The language's box is ticked.
    pub is_selected: bool,
}

/// Everything that the picker draws, as text.
pub struct ListView {
    /// The text of the search box.
    pub search_text: String,
    /// The search box shows its placeholder (the search text is empty).
    pub search_is_placeholder: bool,
    /// The rows of the language list that fit in the window.
    pub rows: Vec<ListRow>,
    /// The title of the language list.
    pub title: String,
    /// The footer line.
    pub footer: String,
}

/// The check box drawn before a language.
pub open spec fn checkbox(ticked: bool) -> Seq<char> {
    if ticked {
        "[\u{2713}]"@
    } else {
        "[ ]"@
    }
}

/// The label of a row.
pub open spec fn row_label(ticked: bool, language: Seq<char>) -> Seq<char> {
    checkbox(ticked) + " "@ + language
}

/// Where the cursor stands among the shown languages (0 when not shown).
pub open spec fn cursor_rank(f: Seq<int>, cursor: int) -> int {
    match position(f, cursor) {
        Some(p) => p,
        None => 0,
    }
}

/// The first shown language in a window of `height` rows: the stored offset,
/// moved just enough that the cursor's row is inside.
pub open spec fn window_start(rank: int, scroll: int, height: int) -> int {
    if rank < scroll {
        rank
    } else if rank >= scroll + height {
        if rank - (height - 1) > 0 {
            rank - (height - 1)
        } else {
            0
        }
    } else {
        scroll
    }
}

/// The shown indices from position `start` on, at most `height` of them.
pub open spec fn window(f: Seq<int>, start: int, height: int) -> Seq<int> {
    if start >= f.len() {
        Seq::empty()
    } else if f.len() - start <= height {
        f.subrange(start, f.len() as int)
    } else {
        f.subrange(start, start + height)
    }
}

/// The number of ticked boxes.
pub open spec fn count_ticked(s: Seq<bool>) -> nat
    decreases s.len(),
{
    if s.len() == 0 {
        0
    } else {
        count_ticked(s.drop_last()) + if s.last() {
            1nat
        } else {
            0nat
        }
    }
}

/// The title of the language list.
pub open spec fn title_spec(shown: nat) -> Seq<char> {
    if shown == 0 {
        "No matches"@
    } else {
        "Languages ("@ + decimal_spec(shown) + " matches)"@
    }
}

/// The footer line.
pub open spec fn footer_spec(ticked: nat) -> Seq<char> {
    "Selected: "@ + decimal_spec(ticked) + " language(s)"@
}

/// The drawing needs `height - 1` when the cursor's row is not above the
/// stored offset, and the stored offset plus `height` to fit in a `usize`.
pub open spec fn can_draw(app: App, height: int) -> bool {
    &&& app.scroll() + height <= usize::MAX
    &&& height > 0 || cursor_rank(app.filtered(), app.cursor()) < app.scroll()
}

fn count_selected(s: &Vec<bool>) -> (n: usize)
    ensures
        n == count_ticked(s@),
{
    let len = s.len();
    let mut n: usize = 0;
    for i in 0..len
        invariant
            len == s@.len(),
            n == count_ticked(s@.take(i as int)),
            n <= i,
    {
        assert(s@.take(i + 1).drop_last() =~= s@.take(i as int));
        if s[i] {
            n = n + 1;
        }
    }
    assert(s@.take(len as int) =~= s@);
    n
}

/// The footer line for the boxes `selected`.
pub(crate) fn footer_text(selected: &Vec<bool>) -> (s: String)
    ensures
        s@ == footer_spec(count_ticked(selected@)),
{
    let ticked = count_selected(selected);
    let mut footer = String::from_str("Selected: ");
    let count = format_u64(ticked as u64);
    footer.append(count.as_str());
    footer.append(" language(s)");
    footer
}

/// What the picker draws in a list window of `list_height` rows.
pub fn list_view(app: &App, list_height: usize) -> (v: ListView)
    requires
        app.wf(),
        can_draw(*app, list_height as int),
    ensures
        v.search_is_placeholder == (app.query().len() == 0),
        v.search_text@ == (if app.query().len() == 0 {
            "Type to filter..."@
        } else {
            app.query()
        }),
        v.title@ == title_spec(app.filtered().len()),
        v.footer@ == footer_spec(count_ticked(app.selected())),
        ({
            let shown = window(
                app.filtered(),
                window_start(
                    cursor_rank(app.filtered(), app.cursor()),
                    app.scroll(),
                    list_height as int,
                ),
                list_height as int,
            );
            &&& v.rows@.len() == shown.len()
            &&& forall|k: int|
                0 <= k < shown.len() ==> {
                    let i = shown[k];
                    &&& (#[trigger] v.rows@[k]).index == i
                    &&& v.rows@[k].label@ == row_label(app.selected()[i], app.languages()[i])
                    &&& v.rows@[k].is_cursor == (i == app.cursor())
                    &&& v.rows@[k].is_selected == app.selected()[i]
                }
        }),
{
    let languages = app.languages_ref();
    let selected = app.selected_ref();
    let query = app.query_ref();
    let cursor = app.cursor_value();
    let scroll = app.scroll_value();
    let filtered = app.get_filtered_indices();
    let ghost f = app.filtered();
    proof {
        lemma_filtered_ascending(app.languages(), app.query());
    }
    let placeholder = query.as_str().is_empty();
    let search_text = if placeholder {
        String::from_str("Type to filter...")
    } else {
        query.clone()
    };
    let rank: usize = match position_in(&filtered, cursor) {
        Some(p) => {
            proof {
                lemma_first_index(f, equals(cursor as int));
            }
            p
        },
        None => 0,
    };
    let start: usize = if rank < scroll {
        rank
    } else if rank >= scroll + list_height {
        rank.saturating_sub(list_height - 1)
    } else {
        scroll
    };
    let ghost shown = window(f, start as int, list_height as int);
    let mut rows: Vec<ListRow> = Vec::new();
    let n = filtered.len();
    let mut k: usize = start;
    while k < n && k - start < list_height
        invariant
            n == filtered@.len(),
            f == filtered@.map_values(|i: usize| i as int),
            crate::ui::app::ascending_below(f, languages@.len() as int),
            views(languages@) == app.languages(),
            selected@ == app.selected(),
            selected@.len() == languages@.len(),
            cursor as int == app.cursor(),
            shown == window(f, start as int, list_height as int),
            start <= k,
            k <= n || k == start,
            rows@.len() == k - start,
            k - start <= list_height,
            forall|j: int|
                0 <= j < k - start ==> {
                    let i = shown[j];
                    &&& (#[trigger] rows@[j]).index == i
                    &&& rows@[j].label@ == row_label(app.selected()[i], app.languages()[i])
                    &&& rows@[j].is_cursor == (i == app.cursor())
                    &&& rows@[j].is_selected == app.selected()[i]
                },
        decreases n - k,
    {
        let i = filtered[k];
        assert(shown[(k - start) as int] == f[k as int]);
        assert(f[k as int] == i as int);
        let ticked = selected[i];
        let mut label = if ticked {
            String::from_str("[\u{2713}]")
        } else {
            String::from_str("[ ]")
        };
        label.append(" ");
        label.append(languages[i].as_str());
        rows.push(ListRow { index: i, label, is_cursor: i == cursor, is_selected: ticked });
        k = k + 1;
    }
    assert(rows@.len() == shown.len());
    let shown_count = filtered.len();
    let title = if shown_count == 0 {
        String::from_str("No matches")
    } else {
        let mut t = String::from_str("Languages (");
        let count = format_u64(shown_count as u64);
        t.append(count.as_str());
        t.append(" matches)");
        t
    };
    let footer = footer_text(selected);
    ListView { search_text, search_is_placeholder: placeholder, rows, title, footer }
}

/// The row of a shown cursor is drawn: the window holds the cursor's place
/// among the shown languages.
pub proof fn lemma_cursor_row_drawn(f: Seq<int>, rank: int, scroll: int, height: int)
    requires
        0 <= rank < f.len(),
        0 <= scroll,
        height > 0,
    ensures
        ({
            let start = window_start(rank, scroll, height);
            &&& start <= rank < start + height
            &&& window(f, start, height)[rank - start] == f[rank]
        }),
{
}

/// The footer counts every ticked box: the count is the number of ticked
/// boxes, and ticking one more box adds one.
pub proof fn lemma_count_ticked(s: Seq<bool>, b: bool)
    ensures
        count_ticked(s) == s.filter(|x: bool| x).len(),
        count_ticked(s.push(b)) == count_ticked(s) + (if b {
            1nat
        } else {
            0nat
        }),
        count_ticked(s) <= s.len(),
    decreases s.len(),
{
    reveal_with_fuel(Seq::<bool>::filter, 1);
    assert(s.push(b).drop_last() =~= s);
    if s.len() > 0 {
        lemma_count_ticked(s.drop_last(), b);
    }
}

} // verus!
