//! The picker with a search filter: the list shows the languages whose
//! lower-case name contains the lower-case search text, and the cursor moves
//! among those.
use vstd::prelude::*;
use vstd::utf8::is_ascii_chars;

use crate::templates::{first_index, lemma_first_index, views};
use crate::text::{
    ascii_lower, chars_of, contains_chars, contains_spec, lowercase, occurs_at, pop_char, push_char, sort_strings,
    sorted_strings, to_lowercase,
};
use crate::ui::{collect_selected, scrolled, selected_spec, toggled};

verus! {

/// The indices of the languages (given lower-cased) that contain `query`
/// (given lower-cased), in list order.
pub open spec fn matching_spec(lowered: Seq<Seq<char>>, query: Seq<char>) -> Seq<int>
    decreases lowered.len(),
{
    if lowered.len() == 0 {
        Seq::empty()
    } else {
        let prev = matching_spec(lowered.drop_last(), query);
        if contains_spec(lowered.last(), query) {
            prev.push(lowered.len() - 1)
        } else {
            prev
        }
    }
}

/// The indices of the languages shown for the search text `query`: all of
/// them for an empty query, else those whose lower-case name contains the
/// lower-case query.
pub open spec fn filtered_spec(languages: Seq<Seq<char>>, query: Seq<char>) -> Seq<int> {
    if query.len() == 0 {
        Seq::new(languages.len(), |i: int| i)
    } else {
        matching_spec(languages.map_values(|l: Seq<char>| lowercase(l)), lowercase(query))
    }
}

/// The indices in `f` ascend strictly and lie below `n`.
pub open spec fn ascending_below(f: Seq<int>, n: int) -> bool {
    &&& forall|i: int, j: int| 0 <= i < j < f.len() ==> #[trigger] f[i] < #[trigger] f[j]
    &&& forall|i: int| 0 <= i < f.len() ==> 0 <= #[trigger] f[i] < n
}

proof fn lemma_matching_ascending(lowered: Seq<Seq<char>>, query: Seq<char>)
    ensures
        ascending_below(matching_spec(lowered, query), lowered.len() as int),
    decreases lowered.len(),
{
    if lowered.len() > 0 {
        lemma_matching_ascending(lowered.drop_last(), query);
    }
}

/// The shown indices ascend strictly and index the list.
pub proof fn lemma_filtered_ascending(languages: Seq<Seq<char>>, query: Seq<char>)
    ensures
        ascending_below(filtered_spec(languages, query), languages.len() as int),
{
    if query.len() > 0 {
        lemma_matching_ascending(languages.map_values(|l: Seq<char>| lowercase(l)), lowercase(query));
    }
}

/// The test for being `c`.
pub open spec fn equals(c: int) -> spec_fn(int) -> bool {
    |x: int| x == c
}

/// Where `c` stands in `f`.
pub open spec fn position(f: Seq<int>, c: int) -> Option<int> {
    first_index(f, equals(c))
}

/// The cursor after moving up among the shown indices `f`: to the previous
/// shown index, unless the cursor is on the first one or not shown.
pub open spec fn moved_up(f: Seq<int>, c: int) -> int {
    match position(f, c) {
        Some(p) => if p > 0 {
            f[p - 1]
        } else {
            c
        },
        None => c,
    }
}

/// The cursor after moving down among the shown indices `f`: to the next
/// shown index, unless the cursor is on the last one or not shown.
pub open spec fn moved_down(f: Seq<int>, c: int) -> int {
    match position(f, c) {
        Some(p) => if p < f.len() - 1 {
            f[p + 1]
        } else {
            c
        },
        None => c,
    }
}

/// The cursor after the search text changed: it stays if it is on a shown
/// language, else goes to the first shown one, or to 0 when none is shown.
pub open spec fn reset_cursor(f: Seq<int>, c: int, n: int) -> int {
    if f.len() == 0 {
        0
    } else if c >= n || !f.contains(c) {
        f[0]
    } else {
        c
    }
}

/// Within strictly ascending indices, the position of an element is its index.
pub proof fn lemma_position_of_element(f: Seq<int>, n: int, p: int)
    requires
        ascending_below(f, n),
        0 <= p < f.len(),
    ensures
        position(f, f[p]) == Some(p),
{
    let pred = equals(f[p]);
    lemma_first_index(f, pred);
    match first_index(f, pred) {
        Some(q) => {
            if q < p {
                assert(f[q] < f[p]);
            }
        },
        None => {
            assert(pred(f[p]));
        },
    }
}

/// Moving down and then up returns the cursor to where it was, when it was
/// not on the last shown language.
pub proof fn lemma_down_then_up(f: Seq<int>, n: int, c: int)
    requires
        ascending_below(f, n),
        position(f, c) matches Some(p) && p + 1 < f.len(),
    ensures
        moved_up(f, moved_down(f, c)) == c,
{
    let p = position(f, c)->0;
    lemma_first_index(f, equals(c));
    lemma_position_of_element(f, n, p + 1);
}

/// Moving up and then down returns the cursor to where it was, when it was
/// not on the first shown language.
pub proof fn lemma_up_then_down(f: Seq<int>, n: int, c: int)
    requires
        ascending_below(f, n),
        position(f, c) matches Some(p) && p > 0,
    ensures
        moved_down(f, moved_up(f, c)) == c,
{
    let p = position(f, c)->0;
    lemma_first_index(f, equals(c));
    lemma_position_of_element(f, n, p - 1);
}

/// Typing a character and deleting it again restores the search text, and
/// so the shown languages.
pub proof fn lemma_type_then_delete(languages: Seq<Seq<char>>, query: Seq<char>, c: char)
    ensures
        query.push(c).drop_last() == query,
        filtered_spec(languages, query.push(c).drop_last()) == filtered_spec(languages, query),
{
    assert(query.push(c).drop_last() =~= query);
}

/// The indices that `matching_spec` gives are those of the names that
/// contain the query.
pub proof fn lemma_matching_members(lowered: Seq<Seq<char>>, query: Seq<char>, i: int)
    ensures
        matching_spec(lowered, query).contains(i) <==> (0 <= i < lowered.len() && contains_spec(
            lowered[i],
            query,
        )),
    decreases lowered.len(),
{
    if lowered.len() > 0 {
        let prev = matching_spec(lowered.drop_last(), query);
        lemma_matching_members(lowered.drop_last(), query, i);
        lemma_matching_ascending(lowered.drop_last(), query);
        if contains_spec(lowered.last(), query) {
            let m = prev.push(lowered.len() - 1);
            if prev.contains(i) {
                let k = choose|k: int| 0 <= k < prev.len() && prev[k] == i;
                assert(m[k] == i);
            }
            if m.contains(i) && i != lowered.len() - 1 {
                let k = choose|k: int| 0 <= k < m.len() && m[k] == i;
                assert(prev[k] == i);
            }
            if i == lowered.len() - 1 {
                assert(m[prev.len() as int] == i);
            }
        }
    }
}

/// A name that contains a query followed by a character contains the query.
proof fn lemma_contains_shorter(hay: Seq<char>, query: Seq<char>, x: char)
    requires
        contains_spec(hay, query.push(x)),
    ensures
        contains_spec(hay, query),
{
    let start = choose|start: int| occurs_at(hay, query.push(x), start);
    assert(hay.subrange(start, start + query.len()) =~= query.push(x).subrange(
        0,
        query.len() as int,
    ));
    assert(query.push(x).subrange(0, query.len() as int) =~= query);
    assert(occurs_at(hay, query, start));
}

/// A longer lower-case query never adds matches: every name that contains
/// the query followed by a character contains the query.
pub proof fn lemma_longer_query_narrows(lowered: Seq<Seq<char>>, query: Seq<char>, x: char)
    ensures
        forall|k: int|
            0 <= k < matching_spec(lowered, query.push(x)).len() ==> matching_spec(
                lowered,
                query,
            ).contains(#[trigger] matching_spec(lowered, query.push(x))[k]),
{
    assert forall|k: int| 0 <= k < matching_spec(lowered, query.push(x)).len() implies matching_spec(
        lowered,
        query,
    ).contains(#[trigger] matching_spec(lowered, query.push(x))[k]) by {
        let i = matching_spec(lowered, query.push(x))[k];
        lemma_matching_members(lowered, query.push(x), i);
        lemma_matching_members(lowered, query, i);
        lemma_contains_shorter(lowered[i], query, x);
    }
}

/// Typing a character into an ASCII search text never adds shown languages:
/// each language shown afterwards was shown before. This holds wherever
/// lower-casing acts on ASCII text as ASCII lower-casing, which is what
/// `to_lowercase` ensures of it.
pub proof fn lemma_typing_narrows(languages: Seq<Seq<char>>, query: Seq<char>, c: char)
    requires
        is_ascii_chars(query.push(c)),
    ensures
        (query.len() > 0 ==> lowercase(query) == query.map_values(|d: char| ascii_lower(d)))
            && lowercase(query.push(c)) == query.push(c).map_values(|d: char| ascii_lower(d))
            ==> forall|k: int|
            0 <= k < filtered_spec(languages, query.push(c)).len() ==> filtered_spec(
                languages,
                query,
            ).contains(#[trigger] filtered_spec(languages, query.push(c))[k]),
{
    let after = filtered_spec(languages, query.push(c));
    let before = filtered_spec(languages, query);
    if (query.len() > 0 ==> lowercase(query) == query.map_values(|d: char| ascii_lower(d)))
        && lowercase(query.push(c)) == query.push(c).map_values(|d: char| ascii_lower(d)) {
        lemma_filtered_ascending(languages, query.push(c));
        if query.len() == 0 {
            assert forall|k: int| 0 <= k < after.len() implies before.contains(#[trigger] after[k]) by {
                assert(before[after[k]] == after[k]);
            }
        } else {
            let lowered = languages.map_values(|l: Seq<char>| lowercase(l));
            assert(lowercase(query.push(c)) =~= lowercase(query).push(ascii_lower(c)));
            lemma_longer_query_narrows(lowered, lowercase(query), ascii_lower(c));
        }
    }
}

/// The shown languages are exactly those that match the search: for an
/// empty search every language, else each language whose lower-case name
/// contains the whole lower-case search text. They are listed once each, in
/// list order.
pub proof fn lemma_filtered_members(languages: Seq<Seq<char>>, query: Seq<char>, i: int)
    ensures
        query.len() == 0 ==> (filtered_spec(languages, query).contains(i) <==> 0 <= i
            < languages.len()),
        query.len() > 0 ==> (filtered_spec(languages, query).contains(i) <==> (0 <= i
            < languages.len() && contains_spec(lowercase(languages[i]), lowercase(query)))),
        ascending_below(filtered_spec(languages, query), languages.len() as int),
{
    lemma_filtered_ascending(languages, query);
    if query.len() == 0 {
        if 0 <= i < languages.len() {
            assert(filtered_spec(languages, query)[i] == i);
        }
    } else {
        let lowered = languages.map_values(|l: Seq<char>| lowercase(l));
        lemma_matching_members(lowered, lowercase(query), i);
    }
}

/// After the search text changes, a cursor whose language is still shown
/// stays where it is; a cursor whose language is hidden goes to the first
/// shown language, or to 0 when none is shown.
pub proof fn lemma_reset_cursor(f: Seq<int>, c: int, n: int)
    requires
        ascending_below(f, n),
    ensures
        f.contains(c) ==> reset_cursor(f, c, n) == c,
        !f.contains(c) && f.len() > 0 ==> reset_cursor(f, c, n) == f[0],
        f.len() == 0 ==> reset_cursor(f, c, n) == 0,
        f.len() > 0 ==> f.contains(reset_cursor(f, c, n)),
{
    if f.contains(c) {
        let k = choose|k: int| 0 <= k < f.len() && f[k] == c;
        assert(f[k] < n);
    }
    if f.len() > 0 {
        assert(f[0] == f[0]);
    }
}

/// With an empty search text every language is shown, in list order.
pub proof fn lemma_empty_search_shows_all(languages: Seq<Seq<char>>)
    ensures
        filtered_spec(languages, Seq::empty()) == Seq::new(languages.len(), |i: int| i),
{
}

/// A picker with a search filter, over a sorted list of languages.
pub struct App {
    languages: Vec<String>,
    selected_indices: Vec<bool>,
    cursor_position: usize,
    scroll_offset: usize,
    search_query: String,
}

impl App {
    /// The languages, sorted.
    pub closed spec fn languages(&self) -> Seq<Seq<char>> {
        views(self.languages@)
    }

    /// The language strings themselves.
    pub closed spec fn language_strings(&self) -> Seq<String> {
        self.languages@
    }

    /// The languages are the views of the language strings.
    pub proof fn lemma_languages_are_views(&self)
        ensures
            self.languages() == views(self.language_strings()),
    {
    }

    /// The check boxes, one per language.
    pub closed spec fn selected(&self) -> Seq<bool> {
        self.selected_indices@
    }

    /// The index of the language under the cursor.
    pub closed spec fn cursor(&self) -> int {
        self.cursor_position as int
    }

    /// The stored scroll offset.
    pub closed spec fn scroll(&self) -> int {
        self.scroll_offset as int
    }

    /// The search text.
    pub closed spec fn query(&self) -> Seq<char> {
        self.search_query@
    }

    /// The indices of the languages shown for the search text.
    pub open spec fn filtered(&self) -> Seq<int> {
        filtered_spec(self.languages(), self.query())
    }

    /// One box per language; the cursor stands on a shown language, or at 0
    /// when no language is shown.
    pub open spec fn wf(&self) -> bool {
        &&& self.selected().len() == self.languages().len()
        &&& self.filtered().len() > 0 ==> self.filtered().contains(self.cursor())
        &&& self.filtered().len() == 0 ==> self.cursor() == 0
        &&& 0 <= self.cursor() <= usize::MAX
        &&& 0 <= self.scroll() <= usize::MAX
    }

    proof fn lemma_wf(&self)
        requires
            self.wf(),
        ensures
            self.languages().len() == self.languages@.len(),
            self.selected().len() == self.selected_indices@.len(),
            ascending_below(self.filtered(), self.languages().len() as int),
            self.languages().len() > 0 ==> self.cursor() < self.languages().len(),
            self.languages().len() == 0 ==> self.cursor() == 0,
    {
        lemma_filtered_ascending(self.languages(), self.query());
        if self.filtered().len() > 0 {
            let k = choose|k: int| 0 <= k < self.filtered().len() && self.filtered()[k] == self.cursor();
            assert(self.filtered()[k] < self.languages().len());
        } else if self.languages().len() > 0 && self.query().len() == 0 {
            assert(self.filtered().len() == self.languages().len());
        }
    }

    /// The languages.
    pub(crate) fn languages_ref(&self) -> (r: &Vec<String>)
        ensures
            views(r@) == self.languages(),
    {
        &self.languages
    }

    /// The check boxes.
    pub(crate) fn selected_ref(&self) -> (r: &Vec<bool>)
        ensures
            r@ == self.selected(),
    {
        &self.selected_indices
    }

    /// The index under the cursor.
    pub(crate) fn cursor_value(&self) -> (r: usize)
        ensures
            r as int == self.cursor(),
    {
        self.cursor_position
    }

    /// The stored scroll offset.
    pub(crate) fn scroll_value(&self) -> (r: usize)
        ensures
            r as int == self.scroll(),
    {
        self.scroll_offset
    }

    /// The search text.
    pub(crate) fn query_ref(&self) -> (r: &String)
        ensures
            r@ == self.query(),
    {
        &self.search_query
    }

    /// A picker over `languages`, sorted, none ticked, an empty search, the
    /// cursor and the view at the top.
    pub fn new(languages: Vec<String>) -> (app: Self)
        ensures
            app.wf(),
            app.languages() == views(app.language_strings()),
            sorted_strings(app.language_strings()),
            app.language_strings().to_multiset() == languages@.to_multiset(),
            app.selected() == Seq::new(languages@.len(), |i: int| false),
            app.cursor() == 0,
            app.scroll() == 0,
            app.query().len() == 0,
    {
        let n = languages.len();
        let ghost input = languages@;
        let languages = sort_strings(languages);
        proof {
            vstd::seq_lib::to_multiset_len(languages@);
            vstd::seq_lib::to_multiset_len(input);
        }
        let selected_indices = vec![false; n];
        let app = App {
            languages,
            selected_indices,
            cursor_position: 0,
            scroll_offset: 0,
            search_query: String::new(),
        };
        assert(app.selected() =~= Seq::new(n as nat, |i: int| false));
        if n > 0 {
            assert(app.filtered()[0] == 0);
        }
        app
    }

    /// The languages whose box is ticked, in list order (shown or not).
    pub fn get_selected_languages(&self) -> (out: Vec<String>)
        requires
            self.wf(),
        ensures
            views(out@) == selected_spec(self.languages(), self.selected()),
    {
        proof {
            self.lemma_wf();
        }
        collect_selected(&self.languages, &self.selected_indices)
    }

    /// The indices of the languages shown for the search text, in list order.
    pub fn get_filtered_indices(&self) -> (f: Vec<usize>)
        ensures
            f@.map_values(|i: usize| i as int) == self.filtered(),
    {
        let n = self.languages.len();
        if self.search_query.as_str().is_empty() {
            let mut all: Vec<usize> = Vec::new();
            for i in 0..n
                invariant
                    n == self.languages@.len(),
                    all@.len() == i,
                    forall|k: int| 0 <= k < i ==> all@[k] == k,
            {
                all.push(i);
            }
            assert(all@.map_values(|i: usize| i as int) =~= self.filtered());
            all
        } else {
            let query_lower = to_lowercase(self.search_query.as_str());
            let mut lowered: Vec<String> = Vec::new();
            for i in 0..n
                invariant
                    n == self.languages@.len(),
                    lowered@.len() == i,
                    forall|k: int| 0 <= k < i ==> #[trigger] lowered@[k]@ == lowercase(
                        self.languages@[k]@,
                    ),
            {
                let l = to_lowercase(self.languages[i].as_str());
                lowered.push(l);
            }
            assert(views(lowered@) =~= self.languages().map_values(|l: Seq<char>| lowercase(l)));
            matching_indices(&lowered, query_lower.as_str())
        }
    }

    /// Appends `c` to the search text, then puts the cursor on a shown
    /// language.
    pub fn add_to_search(&mut self, c: char)
        requires
            old(self).wf(),
        ensures
            final(self).wf(),
            final(self).languages() == old(self).languages(),
            final(self).selected() == old(self).selected(),
            final(self).query() == old(self).query().push(c),
            final(self).cursor() == reset_cursor(
                final(self).filtered(),
                old(self).cursor(),
                old(self).languages().len() as int,
            ),
            final(self).filtered().contains(old(self).cursor()) ==> final(self).cursor() == old(
                self,
            ).cursor(),
            final(self).scroll() == 0,
    {
        push_char(&mut self.search_query, c);
        self.reset_cursor_if_needed();
        proof {
            lemma_filtered_ascending(self.languages(), self.query());
            lemma_reset_cursor(
                self.filtered(),
                old(self).cursor(),
                old(self).languages().len() as int,
            );
        }
    }

    /// Removes the last character of the search text (if any), then puts the
    /// cursor on a shown language.
    pub fn backspace_search(&mut self)
        requires
            old(self).wf(),
        ensures
            final(self).wf(),
            final(self).languages() == old(self).languages(),
            final(self).selected() == old(self).selected(),
            final(self).query() == (if old(self).query().len() > 0 {
                old(self).query().drop_last()
            } else {
                old(self).query()
            }),
            final(self).cursor() == reset_cursor(
                final(self).filtered(),
                old(self).cursor(),
                old(self).languages().len() as int,
            ),
            final(self).filtered().contains(old(self).cursor()) ==> final(self).cursor() == old(
                self,
            ).cursor(),
            final(self).scroll() == 0,
    {
        let _ = pop_char(&mut self.search_query);
        self.reset_cursor_if_needed();
        proof {
            lemma_filtered_ascending(self.languages(), self.query());
            lemma_reset_cursor(
                self.filtered(),
                old(self).cursor(),
                old(self).languages().len() as int,
            );
        }
    }

    fn reset_cursor_if_needed(&mut self)
        requires
            old(self).selected().len() == old(self).languages().len(),
        ensures
            final(self).wf(),
            final(self).languages() == old(self).languages(),
            final(self).selected() == old(self).selected(),
            final(self).query() == old(self).query(),
            final(self).cursor() == reset_cursor(
                old(self).filtered(),
                old(self).cursor(),
                old(self).languages().len() as int,
            ),
            final(self).scroll() == 0,
    {
        let filtered = self.get_filtered_indices();
        let ghost f = self.filtered();
        let ghost c = self.cursor();
        proof {
            lemma_filtered_ascending(self.languages(), self.query());
            assert(filtered@.len() == f.len());
        }
        if filtered.len() == 0 {
            self.cursor_position = 0;
        } else {
            let found = position_in(&filtered, self.cursor_position);
            proof {
                let pred = equals(c);
                lemma_first_index(f, pred);
                if f.contains(c) {
                    let k = choose|k: int| 0 <= k < f.len() && f[k] == c;
                    assert(pred(f[k]));
                }
                assert(found is Some <==> f.contains(c));
            }
            if self.cursor_position >= self.languages.len() || found.is_none() {
                self.cursor_position = filtered[0];
                assert(f[0] == filtered@[0] as int);
                assert(f.contains(f[0]));
            }
        }
        self.scroll_offset = 0;
    }

    /// Moves the cursor to the previous shown language, if there is one.
    pub fn move_cursor_up(&mut self)
        requires
            old(self).wf(),
        ensures
            final(self).wf(),
            final(self).languages() == old(self).languages(),
            final(self).selected() == old(self).selected(),
            final(self).query() == old(self).query(),
            final(self).scroll() == old(self).scroll(),
            final(self).cursor() == moved_up(old(self).filtered(), old(self).cursor()),
    {
        let filtered = self.get_filtered_indices();
        let ghost f = self.filtered();
        proof {
            self.lemma_wf();
            lemma_first_index(f, equals(self.cursor()));
        }
        match position_in(&filtered, self.cursor_position) {
            Some(pos) => {
                if pos > 0 {
                    assert(f[pos - 1] == filtered@[pos - 1] as int);
                    self.cursor_position = filtered[pos - 1];
                    assert(f.contains(f[pos - 1]));
                }
            },
            None => {},
        }
    }

    /// Moves the cursor to the next shown language, if there is one.
    pub fn move_cursor_down(&mut self)
        requires
            old(self).wf(),
        ensures
            final(self).wf(),
            final(self).languages() == old(self).languages(),
            final(self).selected() == old(self).selected(),
            final(self).query() == old(self).query(),
            final(self).scroll() == old(self).scroll(),
            final(self).cursor() == moved_down(old(self).filtered(), old(self).cursor()),
    {
        let filtered = self.get_filtered_indices();
        let ghost f = self.filtered();
        proof {
            self.lemma_wf();
            lemma_first_index(f, equals(self.cursor()));
        }
        match position_in(&filtered, self.cursor_position) {
            Some(pos) => {
                if pos < filtered.len() - 1 {
                    assert(f[pos + 1] == filtered@[pos + 1] as int);
                    self.cursor_position = filtered[pos + 1];
                    assert(f.contains(f[pos + 1]));
                }
            },
            None => {},
        }
    }

    /// Flips the box of the language under the cursor.
    pub fn toggle_selection(&mut self)
        requires
            old(self).wf(),
        ensures
            final(self).wf(),
            final(self).languages() == old(self).languages(),
            final(self).selected() == toggled(old(self).selected(), old(self).cursor()),
            final(self).query() == old(self).query(),
            final(self).cursor() == old(self).cursor(),
            final(self).scroll() == old(self).scroll(),
    {
        if self.cursor_position < self.selected_indices.len() {
            let c = self.cursor_position;
            let flipped = !self.selected_indices[c];
            self.selected_indices.set(c, flipped);
        }
    }

    /// Scrolls so that the cursor is inside a window of `visible_height` rows.
    pub fn update_scroll(&mut self, visible_height: usize)
        requires
            old(self).wf(),
            old(self).scroll() + visible_height <= usize::MAX,
        ensures
            final(self).wf(),
            final(self).languages() == old(self).languages(),
            final(self).selected() == old(self).selected(),
            final(self).query() == old(self).query(),
            final(self).cursor() == old(self).cursor(),
            final(self).scroll() == scrolled(
                old(self).scroll(),
                old(self).cursor(),
                visible_height as int,
            ),
            visible_height > 0 ==> final(self).scroll() <= final(self).cursor()
                < final(self).scroll() + visible_height,
    {
        proof {
            self.lemma_wf();
        }
        let n = self.languages.len();
        if self.cursor_position < self.scroll_offset {
            self.scroll_offset = self.cursor_position;
        } else if self.cursor_position >= self.scroll_offset + visible_height {
            assert(self.cursor_position < n || self.cursor_position == 0);
            self.scroll_offset = self.cursor_position - visible_height + 1;
        }
    }
}

/// The position of `x` in `v`, if it occurs.
pub(crate) fn position_in(v: &Vec<usize>, x: usize) -> (r: Option<usize>)
    ensures
        r matches Some(k) ==> position(v@.map_values(|i: usize| i as int), x as int) == Some(
            k as int,
        ),
        r is None ==> position(v@.map_values(|i: usize| i as int), x as int) is None,
{
    let ghost f = v@.map_values(|i: usize| i as int);
    let n = v.len();
    let mut k: usize = 0;
    while k < n
        invariant
            n == v@.len(),
            f == v@.map_values(|i: usize| i as int),
            k <= n,
            forall|j: int| 0 <= j < k ==> v@[j] != x,
        decreases n - k,
    {
        if v[k] == x {
            proof {
                let pred = equals(x as int);
                lemma_first_index(f, pred);
                assert(f[k as int] == x as int);
                match first_index(f, pred) {
                    Some(q) => {
                        if q < k {
                            assert(f[q] == v@[q] as int);
                        } else if q > k {
                            assert(pred(f[k as int]));
                        }
                    },
                    None => {
                        assert(pred(f[k as int]));
                    },
                }
            }
            return Some(k);
        }
        k = k + 1;
    }
    proof {
        let pred = equals(x as int);
        lemma_first_index(f, pred);
        match first_index(f, pred) {
            Some(q) => {
                assert(f[q] == v@[q] as int);
            },
            None => {},
        }
    }
    None
}

/// The indices of the languages in `lowered_languages` (lower-cased names)
/// that contain `lowered_query` (a lower-cased search text), in order.
pub fn matching_indices(lowered_languages: &[String], lowered_query: &str) -> (f: Vec<usize>)
    ensures
        f@.map_values(|i: usize| i as int) == matching_spec(
            views(lowered_languages@),
            lowered_query@,
        ),
{
    let ghost lowered = views(lowered_languages@);
    let q = chars_of(lowered_query);
    let n = lowered_languages.len();
    let mut out: Vec<usize> = Vec::new();
    for i in 0..n
        invariant
            n == lowered_languages@.len(),
            lowered == views(lowered_languages@),
            q@ == lowered_query@,
            out@.map_values(|k: usize| k as int) == matching_spec(
                lowered.take(i as int),
                lowered_query@,
            ),
    {
        assert(lowered.take(i + 1).drop_last() =~= lowered.take(i as int));
        assert(lowered.take(i + 1).last() == lowered_languages@[i as int]@);
        let hay = chars_of(lowered_languages[i].as_str());
        if contains_chars(&hay, &q) {
            out.push(i);
        }
        assert(out@.map_values(|k: usize| k as int) =~= matching_spec(
            lowered.take(i + 1),
            lowered_query@,
        ));
    }
    assert(lowered.take(n as int) =~= lowered);
    out
}

} // verus!
