//! The templates found in the cache, the check of the language names that a
//! user asks for, and the text of the `.gitignore` file made from them.
use vstd::prelude::*;

use crate::text::{chars_of, eq_ignore_ascii_case, eq_ignore_ascii_case_spec};

verus! {

/// The index of the first element of `s` that satisfies `p`.
pub open spec fn first_index<A>(s: Seq<A>, p: spec_fn(A) -> bool) -> Option<int>
    decreases s.len(),
{
    if s.len() == 0 {
        None
    } else if p(s[0]) {
        Some(0)
    } else {
        match first_index(s.drop_first(), p) {
            Some(i) => Some(i + 1),
            None => None,
        }
    }
}

/// What `first_index` finds: the first satisfying element, or that none does.
pub proof fn lemma_first_index<A>(s: Seq<A>, p: spec_fn(A) -> bool)
    ensures
        match first_index(s, p) {
            Some(i) => 0 <= i < s.len() && p(s[i]) && forall|j: int| 0 <= j < i ==> !p(#[trigger] s[j]),
            None => forall|j: int| 0 <= j < s.len() ==> !p(#[trigger] s[j]),
        },
    decreases s.len(),
{
    if s.len() > 0 && !p(s[0]) {
        let t = s.drop_first();
        lemma_first_index(t, p);
        match first_index(t, p) {
            Some(i) => {
                assert(s[i + 1] == t[i]);
                assert forall|j: int| 0 <= j < i + 1 implies !p(#[trigger] s[j]) by {
                    if j > 0 {
                        assert(s[j] == t[j - 1]);
                    }
                }
            },
            None => {
                assert forall|j: int| 0 <= j < s.len() implies !p(#[trigger] s[j]) by {
                    if j > 0 {
                        assert(s[j] == t[j - 1]);
                    }
                }
            },
        }
    }
}

/// Scanning `s` from position `i` on finds what `first_index` finds, once no
/// element before `i` satisfies `p`.
proof fn lemma_first_index_from<A>(s: Seq<A>, p: spec_fn(A) -> bool, i: int)
    requires
        0 <= i <= s.len(),
        forall|j: int| 0 <= j < i ==> !p(#[trigger] s[j]),
    ensures
        first_index(s, p) == (match first_index(s.subrange(i, s.len() as int), p) {
            Some(k) => Some(k + i),
            None => None,
        }),
    decreases i,
{
    if i > 0 {
        lemma_first_index_from(s.drop_first(), p, i - 1);
        assert(s.drop_first().subrange(i - 1, s.drop_first().len() as int) =~= s.subrange(
            i,
            s.len() as int,
        ));
    } else {
        assert(s.subrange(0, s.len() as int) =~= s);
    }
}

/// The views of a sequence of strings.
pub open spec fn views(s: Seq<String>) -> Seq<Seq<char>> {
    s.map_values(|x: String| x@)
}

// ---------------------------------------------------------------------------
// The language map
// ---------------------------------------------------------------------------

/// Template contents by language name (the name of a template file without
/// its `.gitignore` suffix).
pub struct LanguageMap {
    names: Vec<String>,
    contents: Vec<String>,
}

impl LanguageMap {
    /// The language names, in the order in which they were first inserted.
    pub closed spec fn key_seq(&self) -> Seq<Seq<char>> {
        views(self.names@)
    }

    /// The template contents, position by position with `key_seq`.
    pub closed spec fn value_seq(&self) -> Seq<Seq<char>> {
        views(self.contents@)
    }

    /// Each name occurs once, and has one template.
    pub closed spec fn wf(&self) -> bool {
        &&& self.names@.len() == self.contents@.len()
        &&& self.key_seq().no_duplicates()
    }

    proof fn lemma_index_of(&self, i: int)
        requires
            self.wf(),
            0 <= i < self.names@.len(),
        ensures
            self.key_seq().contains(self.key_seq()[i]),
            self.key_seq().index_of(self.key_seq()[i]) == i,
    {
        assert(self.key_seq()[i] == self.key_seq()[i]);
    }

    /// An empty map.
    pub fn new() -> (m: Self)
        ensures
            m.wf(),
            m@ == Map::<Seq<char>, Seq<char>>::empty(),
            m.key_seq().len() == 0,
    {
        let m = LanguageMap { names: Vec::new(), contents: Vec::new() };
        assert(m@ =~= Map::<Seq<char>, Seq<char>>::empty());
        m
    }

    /// The number of languages.
    pub fn len(&self) -> (n: usize)
        requires
            self.wf(),
        ensures
            n == self.key_seq().len(),
            n == self@.dom().len(),
    {
        proof {
            self.lemma_dom_len();
        }
        self.names.len()
    }

    proof fn lemma_dom_len(&self)
        requires
            self.wf(),
        ensures
            self@.dom() == self.key_seq().to_set(),
            self@.dom().len() == self.key_seq().len(),
    {
        assert(self@.dom() =~= self.key_seq().to_set());
        self.key_seq().unique_seq_to_set();
    }

    /// Whether `name` is in the map: the index of its entry.
    fn find(&self, name: &String) -> (r: Option<usize>)
        requires
            self.wf(),
        ensures
            match r {
                Some(i) => i < self.names@.len() && self.key_seq()[i as int] == name@,
                None => !self@.dom().contains(name@),
            },
    {
        let n = self.names.len();
        for i in 0..n
            invariant
                n == self.names@.len(),
                forall|j: int| 0 <= j < i ==> #[trigger] self.key_seq()[j] != name@,
        {
            if self.names[i] == *name {
                return Some(i);
            }
        }
        None
    }

    /// The template of `name`, if the map has one.
    pub fn get(&self, name: &String) -> (r: Option<&String>)
        requires
            self.wf(),
        ensures
            match r {
                Some(v) => self@.dom().contains(name@) && v@ == self@[name@],
                None => !self@.dom().contains(name@),
            },
    {
        match self.find(name) {
            Some(i) => {
                proof {
                    self.lemma_index_of(i as int);
                }
                Some(&self.contents[i])
            },
            None => None,
        }
    }

    /// Sets the template of `name` to `contents`, replacing any earlier one.
    pub fn insert(&mut self, name: String, contents: String)
        requires
            old(self).wf(),
        ensures
            final(self).wf(),
            final(self)@ == old(self)@.insert(name@, contents@),
            old(self)@.dom().contains(name@) ==> final(self).key_seq() == old(self).key_seq(),
            !old(self)@.dom().contains(name@) ==> final(self).key_seq() == old(self).key_seq().push(
                name@,
            ),
    {
        match self.find(&name) {
            Some(i) => {
                let ghost old_self = *self;
                proof {
                    old_self.lemma_index_of(i as int);
                }
                self.contents.set(i, contents);
                proof {
                    assert(self.key_seq() =~= old_self.key_seq());
                    assert(self.value_seq() =~= old_self.value_seq().update(i as int, contents@));
                    assert forall|k: Seq<char>| #[trigger] self@.dom().contains(k) implies self@[k]
                        == old_self@.insert(name@, contents@)[k] by {
                        let j = self.key_seq().index_of(k);
                        old_self.lemma_index_of(j);
                    }
                    assert(self@ =~= old_self@.insert(name@, contents@));
                }
            },
            None => {
                let ghost old_self = *self;
                let ghost key = name@;
                self.names.push(name);
                self.contents.push(contents);
                proof {
                    assert(self.key_seq() =~= old_self.key_seq().push(key));
                    assert(self.value_seq() =~= old_self.value_seq().push(contents@));
                    let n = old_self.names@.len() as int;
                    assert(self.key_seq()[n] == key);
                    assert forall|k: Seq<char>| #[trigger] self@.dom().contains(k) implies self@[k]
                        == old_self@.insert(key, contents@)[k] by {
                        let j = self.key_seq().index_of(k);
                        self.lemma_index_of(j);
                        if j < n {
                            old_self.lemma_index_of(j);
                        }
                    }
                    assert forall|k: Seq<char>| old_self@.insert(key, contents@).dom().contains(
                        k,
                    ) implies #[trigger] self@.dom().contains(k) by {
                        if k != key {
                            let j = old_self.key_seq().index_of(k);
                            assert(self.key_seq()[j] == k);
                        }
                    }
                    assert(self@ =~= old_self@.insert(key, contents@));
                }
            },
        }
    }

    /// The names in order are exactly the map's keys.
    pub proof fn lemma_key_seq_is_domain(&self)
        requires
            self.wf(),
        ensures
            forall|i: int| 0 <= i < self.key_seq().len() ==> self@.dom().contains(
                #[trigger] self.key_seq()[i],
            ),
            forall|k: Seq<char>| #[trigger] self@.dom().contains(k) ==> self.key_seq().contains(k),
    {
    }

    /// The language names.
    pub fn keys(&self) -> (ks: Vec<String>)
        requires
            self.wf(),
        ensures
            views(ks@) == self.key_seq(),
            views(ks@).to_set() == self@.dom(),
    {
        proof {
            self.lemma_dom_len();
        }
        self.names.clone()
    }
}

impl View for LanguageMap {
    type V = Map<Seq<char>, Seq<char>>;

    closed spec fn view(&self) -> Map<Seq<char>, Seq<char>> {
        Map::new(
            |k: Seq<char>| self.key_seq().contains(k),
            |k: Seq<char>| self.value_seq()[self.key_seq().index_of(k)],
        )
    }
}

// ---------------------------------------------------------------------------
// Template file names
// ---------------------------------------------------------------------------

/// The suffix that marks a template file.
pub open spec fn template_suffix() -> Seq<char> {
    seq!['.', 'g', 'i', 't', 'i', 'g', 'n', 'o', 'r', 'e']
}

/// The language of a template file: its name without the `.gitignore`
/// suffix, when it has that suffix.
pub open spec fn template_language_spec(file_name: Seq<char>) -> Option<Seq<char>> {
    let n = file_name.len();
    if n >= 10 && file_name.subrange(n - 10, n as int) == template_suffix() {
        Some(file_name.subrange(0, n - 10))
    } else {
        None
    }
}

/// The language that a file of the template directory holds, if it is a
/// template file (e.g. `Python` for `Python.gitignore`).
pub fn template_language(file_name: &str) -> (r: Option<String>)
    ensures
        match r {
            Some(lang) => template_language_spec(file_name@) == Some(lang@),
            None => template_language_spec(file_name@) is None,
        },
{
    let cs = chars_of(file_name);
    let suffix: Vec<char> = vec!['.', 'g', 'i', 't', 'i', 'g', 'n', 'o', 'r', 'e'];
    assert(suffix@ =~= template_suffix());
    let n = cs.len();
    if n < 10 {
        return None;
    }
    let start = n - 10;
    for k in 0..10
        invariant
            n == cs@.len(),
            cs@ == file_name@,
            start == n - 10,
            suffix@ == template_suffix(),
            forall|j: int| 0 <= j < k ==> cs@[start + j] == #[trigger] suffix@[j],
    {
        if cs[start + k] != suffix[k] {
            assert(cs@.subrange(start as int, n as int)[k as int] != template_suffix()[k as int]);
            return None;
        }
    }
    assert(cs@.subrange(start as int, n as int) =~= template_suffix());
    let lang = file_name.substring_char(0, start);
    Some(lang.to_owned())
}

// ---------------------------------------------------------------------------
// Checking the requested languages
// ---------------------------------------------------------------------------

/// The first key of `keys` that equals `lang` up to ASCII case.
pub open spec fn matching_key(keys: Seq<Seq<char>>, lang: Seq<char>) -> Option<Seq<char>> {
    match first_index(keys, |k: Seq<char>| eq_ignore_ascii_case_spec(k, lang)) {
        Some(i) => Some(keys[i]),
        None => None,
    }
}

/// The keys matched by the requested languages that have a match, in order.
pub open spec fn validated_spec(keys: Seq<Seq<char>>, langs: Seq<Seq<char>>) -> Seq<Seq<char>>
    decreases langs.len(),
{
    if langs.len() == 0 {
        Seq::empty()
    } else {
        let prev = validated_spec(keys, langs.drop_last());
        match matching_key(keys, langs.last()) {
            Some(k) => prev.push(k),
            None => prev,
        }
    }
}

/// The requested languages that match no key, in order.
pub open spec fn invalid_spec(keys: Seq<Seq<char>>, langs: Seq<Seq<char>>) -> Seq<Seq<char>>
    decreases langs.len(),
{
    if langs.len() == 0 {
        Seq::empty()
    } else {
        let prev = invalid_spec(keys, langs.drop_last());
        match matching_key(keys, langs.last()) {
            Some(k) => prev,
            None => prev.push(langs.last()),
        }
    }
}

impl LanguageMap {
    /// The first name of the map that equals `lang` up to ASCII case.
    fn find_ignore_ascii_case(&self, lang: &String) -> (r: Option<String>)
        requires
            self.wf(),
        ensures
            match r {
                Some(k) => matching_key(self.key_seq(), lang@) == Some(k@),
                None => matching_key(self.key_seq(), lang@) is None,
            },
    {
        let ghost p = |k: Seq<char>| eq_ignore_ascii_case_spec(k, lang@);
        let n = self.names.len();
        for i in 0..n
            invariant
                n == self.names@.len(),
                p == (|k: Seq<char>| eq_ignore_ascii_case_spec(k, lang@)),
                forall|j: int| 0 <= j < i ==> !p(#[trigger] self.key_seq()[j]),
        {
            if eq_ignore_ascii_case(self.names[i].as_str(), lang.as_str()) {
                proof {
                    lemma_first_index_from(self.key_seq(), p, i as int);
                    assert(self.key_seq().subrange(i as int, n as int)[0] == self.key_seq()[i as int]);
                }
                return Some(self.names[i].clone());
            }
        }
        proof {
            lemma_first_index_from(self.key_seq(), p, n as int);
            assert(self.key_seq().subrange(n as int, n as int) =~= Seq::<Seq<char>>::empty());
        }
        None
    }
}

/// Splits the requested `languages` into the names of the map that they
/// match, ignoring ASCII case (first), and those that match no name (second).
pub fn validate_languages(languages: &[String], language_map: &LanguageMap) -> (r: (
    Vec<String>,
    Vec<String>,
))
    requires
        language_map.wf(),
    ensures
        views(r.0@) == validated_spec(language_map.key_seq(), views(languages@)),
        views(r.1@) == invalid_spec(language_map.key_seq(), views(languages@)),
{
    let ghost keys = language_map.key_seq();
    let ghost langs = views(languages@);
    let mut validated: Vec<String> = Vec::new();
    let mut invalid: Vec<String> = Vec::new();
    let n = languages.len();
    for i in 0..n
        invariant
            n == languages@.len(),
            keys == language_map.key_seq(),
            langs == views(languages@),
            language_map.wf(),
            views(validated@) == validated_spec(keys, langs.take(i as int)),
            views(invalid@) == invalid_spec(keys, langs.take(i as int)),
    {
        assert(langs.take(i + 1).drop_last() =~= langs.take(i as int));
        assert(langs.take(i + 1).last() == languages@[i as int]@);
        match language_map.find_ignore_ascii_case(&languages[i]) {
            Some(key) => {
                validated.push(key);
                assert(views(validated@) =~= validated_spec(keys, langs.take(i as int)).push(
                    key@,
                ));
            },
            None => {
                invalid.push(languages[i].clone());
                assert(views(invalid@) =~= invalid_spec(keys, langs.take(i as int)).push(
                    languages@[i as int]@,
                ));
            },
        }
    }
    assert(langs.take(n as int) =~= langs);
    (validated, invalid)
}

// ---------------------------------------------------------------------------
// The text of the `.gitignore` file
// ---------------------------------------------------------------------------

/// The patterns that every generated file ends with, under a `# General` heading.
pub const GENERAL_IGNORE_LINES: [&'static str; 16] = [
    ".DS_Store",
    "*DS_Store",
    "Thumbs.db",
    "Desktop.ini",
    "*.db",
    "*.sqlite",
    "*.sqlite3",
    "__trash__",
    ".Trashes",
    "*.log",
    "*.tmp",
    "*.temp",
    "*.bak",
    "*~",
    "*.swp",
    "*.swo",
];

/// Each of `lines` followed by a newline.
pub open spec fn lines_block(lines: Seq<Seq<char>>) -> Seq<char>
    decreases lines.len(),
{
    if lines.len() == 0 {
        Seq::empty()
    } else {
        lines_block(lines.drop_last()) + lines.last().push('\n')
    }
}

/// The heading line of the general section.
pub open spec fn general_heading() -> Seq<char> {
    seq!['#', ' ', 'G', 'e', 'n', 'e', 'r', 'a', 'l', '\n']
}

/// The section appended after the templates: a blank line, the heading, and
/// the general patterns one per line.
pub open spec fn general_section() -> Seq<char> {
    seq!['\n'] + general_heading() + lines_block(
        GENERAL_IGNORE_LINES@.map_values(|l: &str| l@),
    )
}

/// A template as it is written: its text, with a newline added when it does
/// not already end with one.
pub open spec fn template_block(contents: Seq<char>) -> Seq<char> {
    if contents.len() > 0 && contents.last() == '\n' {
        contents
    } else {
        contents.push('\n')
    }
}

/// The templates of `selected` in order, a blank line between two of them.
pub open spec fn body_spec(templates: Map<Seq<char>, Seq<char>>, selected: Seq<Seq<char>>) -> Seq<
    char,
>
    decreases selected.len(),
{
    if selected.len() == 0 {
        Seq::empty()
    } else {
        let sep = if selected.len() > 1 {
            seq!['\n']
        } else {
            Seq::empty()
        };
        body_spec(templates, selected.drop_last()) + sep + template_block(
            templates[selected.last()],
        )
    }
}

/// Adding a language to a selection appends its template to the text: after
/// a blank line when the selection was not empty, ending with a newline.
pub proof fn lemma_body_push(templates: Map<Seq<char>, Seq<char>>, selected: Seq<Seq<char>>, l: Seq<char>)
    ensures
        body_spec(templates, selected.push(l)) == body_spec(templates, selected) + (if selected.len()
            > 0 {
            seq!['\n']
        } else {
            Seq::empty()
        }) + template_block(templates[l]),
        template_block(templates[l]).len() > 0,
        template_block(templates[l]).last() == '\n',
        template_block(templates[l]).take(templates[l].len() as int) == templates[l],
{
    assert(selected.push(l).drop_last() =~= selected);
    assert(template_block(templates[l]).take(templates[l].len() as int) =~= templates[l]);
}

/// The text for two selections one after the other is the text for the
/// first, a blank line, and the text for the second.
pub proof fn lemma_body_concat(
    templates: Map<Seq<char>, Seq<char>>,
    a: Seq<Seq<char>>,
    b: Seq<Seq<char>>,
)
    requires
        a.len() > 0,
        b.len() > 0,
    ensures
        body_spec(templates, a + b) == body_spec(templates, a) + seq!['\n'] + body_spec(
            templates,
            b,
        ),
    decreases b.len(),
{
    if b.len() == 1 {
        assert((a + b).drop_last() =~= a);
        assert(b.drop_last() =~= Seq::<Seq<char>>::empty());
        assert(body_spec(templates, a + b) =~= body_spec(templates, a) + seq!['\n'] + body_spec(
            templates,
            b,
        ));
    } else {
        let b1 = b.drop_last();
        lemma_body_concat(templates, a, b1);
        assert((a + b).drop_last() =~= a + b1);
        assert((a + b).last() == b.last());
        assert(body_spec(templates, a + b) =~= body_spec(templates, a) + seq!['\n'] + body_spec(
            templates,
            b,
        ));
    }
}

/// The position of the first selected language that has no template.
pub open spec fn first_missing(templates: Map<Seq<char>, Seq<char>>, selected: Seq<Seq<char>>) -> Option<int> {
    first_index(selected, |l: Seq<char>| !templates.dom().contains(l))
}

/// Why no `.gitignore` text could be made.
#[derive(Debug)]
pub enum RenderError {
    /// The selection was empty.
    NoLanguagesSelected,
    /// A `.gitignore` file exists already; it is not replaced.
    OutputExists,
    /// `language` has no template; `written` is the text made from the
    /// languages before it, which is already in the output file.
    LanguageNotFound { language: String, written: String },
}

impl RenderError {
    /// The message shown for the error.
    pub fn message(&self) -> (m: String)
        ensures
            match self {
                RenderError::NoLanguagesSelected => m@ == "No languages selected"@,
                RenderError::OutputExists => m@
                    == ".gitignore already exists; refusing to overwrite it"@,
                RenderError::LanguageNotFound { language, .. } => m@ == "Language '"@ + language@
                    + "' not found"@,
            },
    {
        match self {
            RenderError::NoLanguagesSelected => String::from_str("No languages selected"),
            RenderError::OutputExists => String::from_str(
                ".gitignore already exists; refusing to overwrite it",
            ),
            RenderError::LanguageNotFound { language, .. } => {
                let mut m = String::from_str("Language '");
                m.append(language.as_str());
                m.append("' not found");
                m
            },
        }
    }
}

fn ends_with_newline(s: &str) -> (b: bool)
    ensures
        b == (s@.len() > 0 && s@.last() == '\n'),
{
    let n = s.unicode_len();
    n > 0 && s.get_char(n - 1) == '\n'
}

/// The general section.
pub fn general_ignores() -> (s: String)
    ensures
        s@ == general_section(),
{
    let ghost lines = GENERAL_IGNORE_LINES@.map_values(|l: &str| l@);
    proof {
        reveal_strlit("\n");
        reveal_strlit("# General\n");
    }
    let mut out = String::from_str("\n");
    out.append("# General\n");
    assert(out@ =~= seq!['\n'] + general_heading());
    for i in 0..16
        invariant
            lines == GENERAL_IGNORE_LINES@.map_values(|l: &str| l@),
            lines.len() == 16,
            "\n"@ == seq!['\n'],
            out@ == seq!['\n'] + general_heading() + lines_block(lines.take(i as int)),
    {
        out.append(GENERAL_IGNORE_LINES[i]);
        out.append("\n");
        assert(lines.take(i + 1).drop_last() =~= lines.take(i as int));
        assert(lines.take(i + 1).last() == GENERAL_IGNORE_LINES[i as int]@);
        assert(out@ =~= seq!['\n'] + general_heading() + lines_block(lines.take(i + 1)));
    }
    assert(lines.take(16) =~= lines);
    out
}

/// The text of the `.gitignore` file for `selected`: the templates in order,
/// each ending with a newline, a blank line between two of them, then the
/// general section. An empty selection is refused first, then an existing
/// output file (`output_exists`), which is never replaced.
pub fn render_gitignore(
    selected: &[String],
    language_map: &LanguageMap,
    output_exists: bool,
) -> (r: Result<String, RenderError>)
    requires
        language_map.wf(),
    ensures
        views(selected@).len() == 0 ==> r matches Err(RenderError::NoLanguagesSelected),
        views(selected@).len() > 0 && output_exists ==> r matches Err(RenderError::OutputExists),
        r matches Ok(text) ==> text@.len() >= general_section().len() && text@.subrange(
            text@.len() - general_section().len(),
            text@.len() as int,
        ) == general_section(),
        views(selected@).len() > 0 && !output_exists ==> match first_missing(
            language_map@,
            views(selected@),
        ) {
            Some(i) => r matches Err(RenderError::LanguageNotFound { language, written }) && language@
                == views(selected@)[i] && written@ == body_spec(
                language_map@,
                views(selected@).take(i),
            ),
            None => r matches Ok(text) && text@ == body_spec(language_map@, views(selected@))
                + general_section(),
        },
{
    let ghost sel = views(selected@);
    let ghost m = language_map@;
    let ghost p = |l: Seq<char>| !m.dom().contains(l);
    let n = selected.len();
    if n == 0 {
        return Err(RenderError::NoLanguagesSelected);
    }
    if output_exists {
        return Err(RenderError::OutputExists);
    }
    proof {
        reveal_strlit("\n");
    }
    let mut out = String::new();
    assert(sel.take(0) =~= Seq::<Seq<char>>::empty());
    for i in 0..n
        invariant
            n == selected@.len(),
            n > 0,
            !output_exists,
            sel == views(selected@),
            m == language_map@,
            language_map.wf(),
            p == (|l: Seq<char>| !m.dom().contains(l)),
            "\n"@ == seq!['\n'],
            forall|j: int| 0 <= j < i ==> !p(#[trigger] sel[j]),
            out@ == body_spec(m, sel.take(i as int)),
    {
        assert(sel[i as int] == selected@[i as int]@);
        match language_map.get(&selected[i]) {
            None => {
                proof {
                    lemma_first_index_from(sel, p, i as int);
                    assert(sel.subrange(i as int, n as int)[0] == sel[i as int]);
                }
                return Err(
                    RenderError::LanguageNotFound { language: selected[i].clone(), written: out },
                );
            },
            Some(contents) => {
                let ghost before = out@;
                if i > 0 {
                    out.append("\n");
                }
                out.append(contents.as_str());
                if !ends_with_newline(contents.as_str()) {
                    out.append("\n");
                }
                proof {
                    assert(sel.take(i + 1).drop_last() =~= sel.take(i as int));
                    assert(sel.take(i + 1).last() == sel[i as int]);
                    assert(out@ =~= body_spec(m, sel.take(i + 1)));
                }
            },
        }
    }
    proof {
        lemma_first_index_from(sel, p, n as int);
        assert(sel.subrange(n as int, n as int) =~= Seq::<Seq<char>>::empty());
        assert(sel.take(n as int) =~= sel);
    }
    let general = general_ignores();
    let ghost body = out@;
    out.append(general.as_str());
    assert(out@.subrange(body.len() as int, out@.len() as int) =~= general_section());
    Ok(out)
}

// ---------------------------------------------------------------------------
// Messages
// ---------------------------------------------------------------------------

/// `items` with `sep` between each two (what `[String]::join` makes).
pub open spec fn join_spec(items: Seq<Seq<char>>, sep: Seq<char>) -> Seq<char>
    decreases items.len(),
{
    if items.len() == 0 {
        Seq::empty()
    } else if items.len() == 1 {
        items[0]
    } else {
        join_spec(items.drop_last(), sep) + sep + items.last()
    }
}

/// `items` joined with `sep` between each two.
pub fn join_strings(items: &[String], sep: &str) -> (s: String)
    ensures
        s@ == join_spec(views(items@), sep@),
{
    let ghost its = views(items@);
    let mut out = String::new();
    let n = items.len();
    for i in 0..n
        invariant
            n == items@.len(),
            its == views(items@),
            out@ == join_spec(its.take(i as int), sep@),
    {
        if i > 0 {
            out.append(sep);
        }
        out.append(items[i].as_str());
        proof {
            assert(its.take(i + 1).drop_last() =~= its.take(i as int));
            assert(its.take(i + 1).last() == items@[i as int]@);
            if i == 0 {
                assert(out@ =~= its.take(1)[0]);
            }
        }
    }
    assert(its.take(n as int) =~= its);
    out
}

/// The line printed after a `.gitignore` file has been written.
pub open spec fn created_message_spec(selected: Seq<Seq<char>>) -> Seq<char> {
    if selected.len() == 1 {
        "\u{2713} Created .gitignore for "@ + selected[0]
    } else {
        "\u{2713} Created .gitignore by appending "@ + crate::sync::decimal_spec(selected.len())
            + " templates"@
    }
}

/// The line that reports a written `.gitignore` file: the language when
/// there is one, else the number of templates appended.
pub fn created_message(selected: &[String]) -> (m: String)
    ensures
        m@ == created_message_spec(views(selected@)),
{
    if selected.len() == 1 {
        let mut m = String::from_str("\u{2713} Created .gitignore for ");
        m.append(selected[0].as_str());
        m
    } else {
        let mut m = String::from_str("\u{2713} Created .gitignore by appending ");
        let count = crate::sync::format_u64(selected.len() as u64);
        m.append(count.as_str());
        m.append(" templates");
        m
    }
}

/// The line that lists the languages of a written `.gitignore` file.
pub fn languages_line(selected: &[String]) -> (m: String)
    ensures
        m@ == "Languages: "@ + join_spec(views(selected@), ", "@),
{
    let mut m = String::from_str("Languages: ");
    let joined = join_strings(selected, ", ");
    m.append(joined.as_str());
    m
}

// ---------------------------------------------------------------------------
// Laws of the language check
// ---------------------------------------------------------------------------

/// Every requested language ends up in exactly one of the two lists.
pub proof fn lemma_validation_partitions(keys: Seq<Seq<char>>, langs: Seq<Seq<char>>)
    ensures
        validated_spec(keys, langs).len() + invalid_spec(keys, langs).len() == langs.len(),
    decreases langs.len(),
{
    if langs.len() > 0 {
        lemma_validation_partitions(keys, langs.drop_last());
    }
}

/// A matched name is a key, and equals the requested name up to ASCII case.
pub proof fn lemma_matching_key(keys: Seq<Seq<char>>, lang: Seq<char>)
    ensures
        matching_key(keys, lang) matches Some(k) ==> keys.contains(k)
            && eq_ignore_ascii_case_spec(k, lang),
        matching_key(keys, lang) is None ==> forall|i: int|
            0 <= i < keys.len() ==> !eq_ignore_ascii_case_spec(#[trigger] keys[i], lang),
{
    let p = |k: Seq<char>| eq_ignore_ascii_case_spec(k, lang);
    lemma_first_index(keys, p);
    match first_index(keys, p) {
        Some(i) => {
            assert(keys[i] == keys[i]);
        },
        None => {
            assert forall|i: int| 0 <= i < keys.len() implies !eq_ignore_ascii_case_spec(
                #[trigger] keys[i],
                lang,
            ) by {
                assert(!p(keys[i]));
            }
        },
    }
}

/// Every name in the validated list is a key.
pub proof fn lemma_validated_are_keys(keys: Seq<Seq<char>>, langs: Seq<Seq<char>>)
    ensures
        forall|j: int|
            0 <= j < validated_spec(keys, langs).len() ==> keys.contains(
                #[trigger] validated_spec(keys, langs)[j],
            ),
    decreases langs.len(),
{
    if langs.len() > 0 {
        lemma_validated_are_keys(keys, langs.drop_last());
        lemma_matching_key(keys, langs.last());
        let prev = validated_spec(keys, langs.drop_last());
        assert forall|j: int| 0 <= j < validated_spec(keys, langs).len() implies keys.contains(
            #[trigger] validated_spec(keys, langs)[j],
        ) by {
            if j < prev.len() {
                assert(validated_spec(keys, langs)[j] == prev[j]);
            }
        }
    }
}

/// Case does not matter: two names that are equal up to ASCII case match the
/// same key.
pub proof fn lemma_match_ignores_case(keys: Seq<Seq<char>>, a: Seq<char>, b: Seq<char>)
    requires
        eq_ignore_ascii_case_spec(a, b),
    ensures
        matching_key(keys, a) == matching_key(keys, b),
{
    let pa = |k: Seq<char>| eq_ignore_ascii_case_spec(k, a);
    let pb = |k: Seq<char>| eq_ignore_ascii_case_spec(k, b);
    assert forall|k: Seq<char>| #[trigger] pa(k) == pb(k) by {
        crate::text::lemma_eq_ignore_case_sym(a, b);
        if pa(k) {
            crate::text::lemma_eq_ignore_case_trans(k, a, b);
        }
        if pb(k) {
            crate::text::lemma_eq_ignore_case_trans(k, b, a);
        }
    }
    assert(pa =~= pb);
}

/// The name that a requested language matched matches itself.
proof fn lemma_matched_key_matches_itself(keys: Seq<Seq<char>>, lang: Seq<char>)
    requires
        matching_key(keys, lang) is Some,
    ensures
        matching_key(keys, matching_key(keys, lang)->0) == matching_key(keys, lang),
{
    let k = matching_key(keys, lang)->0;
    lemma_matching_key(keys, lang);
    crate::text::lemma_eq_ignore_case_sym(k, lang);
    lemma_match_ignores_case(keys, k, lang);
}

/// Checking the names that passed the check again gives them back
/// unchanged, and none of them is invalid.
pub proof fn lemma_validation_idempotent(keys: Seq<Seq<char>>, langs: Seq<Seq<char>>)
    ensures
        validated_spec(keys, validated_spec(keys, langs)) == validated_spec(keys, langs),
        invalid_spec(keys, validated_spec(keys, langs)).len() == 0,
    decreases langs.len(),
{
    if langs.len() > 0 {
        let prev = validated_spec(keys, langs.drop_last());
        lemma_validation_idempotent(keys, langs.drop_last());
        match matching_key(keys, langs.last()) {
            Some(k) => {
                lemma_matched_key_matches_itself(keys, langs.last());
                let v = prev.push(k);
                assert(v.drop_last() =~= prev);
                assert(v.last() == k);
            },
            None => {},
        }
    }
}

/// Languages that all passed the check can be written: when no requested
/// language is invalid, the validated list is as long as the request, and
/// each of its names has a template, so the text of the file is made.
pub proof fn lemma_validated_languages_render(language_map: LanguageMap, langs: Seq<Seq<char>>)
    requires
        language_map.wf(),
        invalid_spec(language_map.key_seq(), langs).len() == 0,
    ensures
        validated_spec(language_map.key_seq(), langs).len() == langs.len(),
        first_missing(language_map@, validated_spec(language_map.key_seq(), langs)) is None,
{
    let keys = language_map.key_seq();
    let v = validated_spec(keys, langs);
    lemma_validation_partitions(keys, langs);
    lemma_validated_are_keys(keys, langs);
    language_map.lemma_key_seq_is_domain();
    let p = |l: Seq<char>| !language_map@.dom().contains(l);
    lemma_first_index(v, p);
    match first_index(v, p) {
        Some(i) => {
            assert(keys.contains(v[i]));
            let j = choose|j: int| 0 <= j < keys.len() && keys[j] == v[i];
            assert(language_map@.dom().contains(keys[j]));
        },
        None => {},
    }
}

} // verus!
