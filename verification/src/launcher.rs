//! The launcher: the rows for a query (calculator answer, ranked apps, web search), key
//! handling, and what activating a row leaves for the platform.
use crate::chars::{chars_of, same_text, string_of};
use crate::config::SearchProvider;
use crate::field::{byte_len, bytes_of, inserted_text, snapped, TextField};
use crate::search::{query_parts, search_address, search_query, search_url};
use vstd::prelude::*;
use vstd::string::*;

verus! {

/// A launchable application: its name, the command it runs, a description, and an
/// alternative action with its own command.
pub struct DesktopApp {
    pub name: String,
    pub command: Vec<String>,
    pub comment: String,
    pub action: Option<(String, Vec<String>)>,
}

/// A desktop entry as the desktop's application database lists it, read in the user's
/// languages: its id, whether it is hidden from menus (`NoDisplay`), deleted (`Hidden`) or
/// runs in a terminal, its name and command when they could be read, its description, and its
/// first named action with that action's command.
pub struct ListedEntry {
    pub id: String,
    pub no_display: bool,
    pub hidden: bool,
    pub terminal: bool,
    pub name: Option<String>,
    pub command: Option<Vec<String>>,
    pub comment: String,
    pub action: Option<(String, Vec<String>)>,
}

/// Whether no earlier entry has the same id as entry `i`.
pub open spec fn first_with_id(entries: Seq<ListedEntry>, i: int) -> bool {
    forall|j: int| 0 <= j < i ==> (#[trigger] entries[j]).id@ != entries[i].id@
}

/// Whether an entry is offered as an app: shown in menus, not deleted, not for a terminal,
/// with a name and a command.
pub open spec fn offered(entry: ListedEntry) -> bool {
    !entry.no_display && !entry.hidden && !entry.terminal && entry.name is Some && entry.command is Some
}

/// The app an offered entry stands for.
pub open spec fn app_from(entry: ListedEntry) -> DesktopApp {
    DesktopApp {
        name: entry.name->0,
        command: entry.command->0,
        comment: entry.comment,
        action: entry.action,
    }
}

/// The apps of the listed entries in order: of the entries sharing an id only the first
/// counts (even when it is not offered), and only offered ones are kept.
pub open spec fn shown_apps(entries: Seq<ListedEntry>) -> Seq<DesktopApp>
    decreases entries.len(),
{
    if entries.len() == 0 {
        Seq::empty()
    } else {
        let earlier = shown_apps(entries.drop_last());
        let last = entries.last();
        if first_with_id(entries, entries.len() - 1) && offered(last) {
            earlier.push(app_from(last))
        } else {
            earlier
        }
    }
}

/// The launcher's apps from the listed desktop entries.
pub fn apps_from_entries(entries: Vec<ListedEntry>) -> (apps: Vec<DesktopApp>)
    ensures
        apps@ == shown_apps(entries@),
{
    let ghost all = entries@;
    let mut rest = entries;
    let mut seen: Vec<String> = Vec::new();
    let mut apps: Vec<DesktopApp> = Vec::new();
    let n = rest.len();
    let mut i: usize = 0;
    while i < n
        invariant
            n == all.len(),
            i <= n,
            rest@ == all.skip(i as int),
            seen@.len() == i,
            forall|k: int| 0 <= k < i ==> (#[trigger] seen@[k])@ == all[k].id@,
            apps@ == shown_apps(all.take(i as int)),
        decreases n - i,
    {
        let entry = rest.remove(0);
        assert(entry == all[i as int]);
        let mut repeated = false;
        let mut k: usize = 0;
        while k < seen.len()
            invariant
                k <= seen@.len(),
                seen@.len() == i,
                i < all.len(),
                entry == all[i as int],
                forall|m: int| 0 <= m < i ==> (#[trigger] seen@[m])@ == all[m].id@,
                repeated == exists|m: int| 0 <= m < k && (#[trigger] all[m]).id@ == entry.id@,
            decreases seen@.len() - k,
        {
            if seen[k] == entry.id {
                repeated = true;
            }
            k += 1;
        }
        proof {
            let taken = all.take(i + 1);
            assert(taken.drop_last() =~= all.take(i as int));
            assert(taken.last() == entry);
            assert(first_with_id(taken, i as int) == !repeated) by {
                if repeated {
                    let m = choose|m: int| 0 <= m < k && (#[trigger] all[m]).id@ == entry.id@;
                    assert(taken[m] == all[m]);
                } else {
                    assert forall|j: int| 0 <= j < i implies (#[trigger] taken[j]).id@ != taken[i as int].id@ by {
                        assert(taken[j] == all[j]);
                    }
                }
            }
        }
        let id = entry.id.clone();
        let ListedEntry { id: _, no_display, hidden, terminal, name, command, comment, action } = entry;
        if !repeated && !no_display && !hidden && !terminal {
            match (name, command) {
                (Some(name), Some(command)) => {
                    apps.push(DesktopApp { name, command, comment, action });
                },
                _ => {},
            }
        }
        seen.push(id);
        i += 1;
        proof {
            assert(rest@ =~= all.skip(i as int));
        }
    }
    assert(all.take(i as int) =~= all);
    apps
}

/// A row of the launcher below the search field.
#[derive(Debug, PartialEq)]
pub enum Entry {
    /// A calculator answer.
    Answer(String),
    /// An application, by its index among the known apps.
    App(usize),
    /// A web search, by the index of its provider.
    Search(usize),
}

/// What a row shows, as plain values.
pub enum EntryView {
    Answer(Seq<char>),
    App(usize),
    Search(usize),
}

impl View for Entry {
    type V = EntryView;

    open spec fn view(&self) -> EntryView {
        match self {
            Entry::Answer(answer) => EntryView::Answer(answer@),
            Entry::App(index) => EntryView::App(*index),
            Entry::Search(index) => EntryView::Search(*index),
        }
    }
}

/// The characters of an optional string.
pub open spec fn text_option(text: Option<String>) -> Option<Seq<char>> {
    match text {
        Some(text) => Some(text@),
        None => None,
    }
}

/// Rows listed under the search field at most, calculator answer included.
pub const MAX_VISIBLE: usize = 8;

/// Whether `part` occurs somewhere in `text`.
pub open spec fn contains_text(text: Seq<char>, part: Seq<char>) -> bool {
    exists|k: int|
        0 <= k && k + part.len() <= text.len() && #[trigger] text.subrange(k, k + part.len()) == part
}

/// Whether `text` starts with `part`.
pub open spec fn starts_with(text: Seq<char>, part: Seq<char>) -> bool {
    part.len() <= text.len() && text.take(part.len() as int) == part
}

/// The first `count` items, or all of them when there are fewer.
pub open spec fn take_upto<A>(items: Seq<A>, count: int) -> Seq<A> {
    if count < items.len() {
        items.take(count)
    } else {
        items
    }
}

/// Indices, in order, of the names that contain `query`, keeping those that start with it
/// when `prefix` is set and the others when it is not.
pub open spec fn app_hits(names: Seq<Seq<char>>, query: Seq<char>, prefix: bool) -> Seq<usize>
    decreases names.len(),
{
    if names.len() == 0 {
        Seq::empty()
    } else {
        let earlier = app_hits(names.drop_last(), query, prefix);
        let name = names.last();
        if contains_text(name, query) && starts_with(name, query) == prefix {
            earlier.push((names.len() - 1) as usize)
        } else {
            earlier
        }
    }
}

/// The lowercase names of the apps.
pub open spec fn lowered_names(apps: Seq<DesktopApp>) -> Seq<Seq<char>> {
    apps.map_values(|app: DesktopApp| crate::chars::lowercase(app.name@))
}

/// The calculator row for a query: the answer, when one was computed, is not empty, and says
/// something other than the query itself.
pub open spec fn answer_rows(answer: Option<Seq<char>>, query: Seq<char>) -> Seq<EntryView> {
    match answer {
        Some(text) => if text.len() > 0 && text != query {
            seq![EntryView::Answer(text)]
        } else {
            Seq::empty()
        },
        None => Seq::empty(),
    }
}

/// Whether a query is handed to the calculator: no provider was chosen by alias, and the
/// query is at least four bytes long.
pub open spec fn calculable(query: Seq<char>, provider: Option<usize>) -> bool {
    provider is None && bytes_of(query).len() >= 4
}

/// Whether the search row is shown.
pub open spec fn shows_search(query: Seq<char>, provider: Option<usize>, provider_count: nat) -> bool {
    provider_count > 0 && (crate::chars::lowercase(query).len() > 0 || provider is Some)
}

/// The rows for a query: the calculator answer, then the apps whose lowercase name contains
/// the lowercase query (those it starts first, each group in app order) up to the rows left,
/// then the search row when there are providers and something to search for.  With a
/// provider chosen by alias, no apps are listed.
pub open spec fn entry_rows(
    answer: Option<Seq<char>>,
    query: Seq<char>,
    provider: Option<usize>,
    names: Seq<Seq<char>>,
    provider_count: nat,
) -> Seq<EntryView> {
    let answers = if calculable(query, provider) {
        answer_rows(answer, query)
    } else {
        Seq::empty()
    };
    let lower = crate::chars::lowercase(query);
    let has_search = shows_search(query, provider, provider_count);
    let visible = MAX_VISIBLE - answers.len() - if has_search {
        1int
    } else {
        0int
    };
    let apps = if provider is Some {
        Seq::<usize>::empty()
    } else {
        take_upto(app_hits(names, lower, true) + app_hits(names, lower, false), visible)
    };
    answers + apps.map_values(|index: usize| EntryView::App(index)) + if has_search {
        seq![
            EntryView::Search(
                match provider {
                    Some(index) => index,
                    None => 0,
                },
            ),
        ]
    } else {
        Seq::empty()
    }
}

/// Whether `query` occurs in `text`.
pub(crate) fn text_contains(text: &Vec<char>, query: &Vec<char>) -> (found: bool)
    ensures
        found == contains_text(text@, query@),
{
    let n = text.len();
    if query.len() > n {
        return false;
    }
    let last = n - query.len();
    let mut at: usize = 0;
    loop
        invariant
            n == text@.len(),
            last == n - query@.len(),
            at <= last,
            forall|k: int|
                0 <= k < at ==> #[trigger] text@.subrange(k, k + query@.len()) != query@,
        decreases last - at,
    {
        let found = crate::chars::occurs_at(text, at, query);
        proof {
            assert(text@.skip(at as int).take(query@.len() as int) =~= text@.subrange(
                at as int,
                at + query@.len(),
            ));
        }
        if found {
            return true;
        }
        if at == last {
            return false;
        }
        at += 1;
    }
}

/// The lowercase characters of an app's name.
fn lowered_name(app: &DesktopApp) -> (name: Vec<char>)
    ensures
        name@ == crate::chars::lowercase(app.name@),
{
    chars_of(crate::chars::to_lowercase(app.name.as_str()).as_str())
}

/// Up to `limit` indices, in order, of the apps whose lowercase name contains the query,
/// keeping those whose name starts with it when `prefix` is set and the others when not.
fn hits(apps: &[DesktopApp], lower: &Vec<char>, prefix: bool, limit: usize) -> (found: Vec<usize>)
    ensures
        found@ == take_upto(app_hits(lowered_names(apps@), lower@, prefix), limit as int),
{
    let ghost names = lowered_names(apps@);
    let mut found: Vec<usize> = Vec::new();
    let mut index: usize = 0;
    while index < apps.len()
        invariant
            index <= apps@.len(),
            names == lowered_names(apps@),
            found@ == take_upto(app_hits(names.take(index as int), lower@, prefix), limit as int),
        decreases apps@.len() - index,
    {
        let name = lowered_name(&apps[index]);
        let hit = text_contains(&name, lower);
        let starts = lower.len() <= name.len() && crate::chars::occurs_at(&name, 0, lower);
        proof {
            assert(names.take(index + 1).drop_last() =~= names.take(index as int));
            assert(names.take(index + 1).last() == name@);
            assert(name@.skip(0) =~= name@);
            let earlier = app_hits(names.take(index as int), lower@, prefix);
            if hit && starts == prefix {
                assert(app_hits(names.take(index + 1), lower@, prefix) == earlier.push(index));
                if earlier.len() < limit {
                    assert(take_upto(earlier.push(index), limit as int) =~= earlier.push(index));
                } else {
                    assert(take_upto(earlier.push(index), limit as int) =~= take_upto(earlier, limit as int));
                }
            }
        }
        if hit && starts == prefix && found.len() < limit {
            found.push(index);
        }
        index += 1;
    }
    proof {
        assert(names.take(index as int) =~= names);
    }
    found
}

/// Appends a row for each app index.
fn push_apps(entries: &mut Vec<Entry>, indices: &Vec<usize>)
    ensures
        final(entries)@.map_values(|entry: Entry| entry@) == old(entries)@.map_values(
            |entry: Entry| entry@,
        ) + indices@.map_values(|index: usize| EntryView::App(index)),
{
    let ghost start = entries@.map_values(|entry: Entry| entry@);
    let mut k: usize = 0;
    while k < indices.len()
        invariant
            k <= indices@.len(),
            entries@.map_values(|entry: Entry| entry@) == start + indices@.take(k as int).map_values(
                |index: usize| EntryView::App(index),
            ),
        decreases indices@.len() - k,
    {
        let ghost before = entries@;
        entries.push(Entry::App(indices[k]));
        proof {
            assert(entries@.map_values(|entry: Entry| entry@) =~= before.map_values(
                |entry: Entry| entry@,
            ).push(EntryView::App(indices@[k as int])));
            assert(indices@.take(k + 1).map_values(|index: usize| EntryView::App(index))
                =~= indices@.take(k as int).map_values(|index: usize| EntryView::App(index)).push(
                EntryView::App(indices@[k as int]),
            ));
        }
        k += 1;
    }
    proof {
        assert(indices@.take(k as int) =~= indices@);
    }
}

proof fn lemma_take_upto_concat<A>(a: Seq<A>, b: Seq<A>, count: int)
    requires
        0 <= count,
    ensures
        take_upto(a + b, count) =~= take_upto(a, count) + take_upto(
            b,
            count - take_upto(a, count).len(),
        ),
{
}

/// The rows for a query, given the calculator's answer for it (if it was asked).
pub fn entries_for(
    answer: Option<String>,
    query: &str,
    provider: Option<usize>,
    apps: &[DesktopApp],
    provider_count: usize,
) -> (entries: Vec<Entry>)
    ensures
        entries@.map_values(|entry: Entry| entry@) == entry_rows(
            text_option(answer),
            query@,
            provider,
            lowered_names(apps@),
            provider_count as nat,
        ),
{
    let ghost answer_view = text_option(answer);
    let query_bytes = byte_len(query);
    let mut entries: Vec<Entry> = Vec::new();
    if provider.is_none() && query_bytes >= 4 {
        match answer {
            Some(text) => {
                let same = crate::chars::same_text(text.as_str(), query);
                if !text.as_str().is_empty() && !same {
                    entries.push(Entry::Answer(text));
                }
            },
            None => {},
        }
    }
    let ghost answers = if calculable(query@, provider) {
        answer_rows(answer_view, query@)
    } else {
        Seq::empty()
    };
    assert(entries@.map_values(|entry: Entry| entry@) =~= answers);
    let lower = chars_of(crate::chars::to_lowercase(query).as_str());
    let has_search = provider_count > 0 && (lower.len() > 0 || provider.is_some());
    let visible: usize = MAX_VISIBLE - entries.len() - if has_search {
        1
    } else {
        0
    };
    let ghost names = lowered_names(apps@);
    if provider.is_none() {
        let firsts = hits(apps, &lower, true, visible);
        let seconds = hits(apps, &lower, false, visible - firsts.len());
        proof {
            lemma_take_upto_concat(
                app_hits(names, lower@, true),
                app_hits(names, lower@, false),
                visible as int,
            );
        }
        push_apps(&mut entries, &firsts);
        push_apps(&mut entries, &seconds);
        proof {
            assert((firsts@ + seconds@).map_values(|index: usize| EntryView::App(index)) =~= firsts@.map_values(|index: usize| EntryView::App(index)) + seconds@.map_values(|index: usize| EntryView::App(index)));
        }
    }
    let ghost listed = entries@.map_values(|entry: Entry| entry@);
    if has_search {
        entries.push(Entry::Search(
            match provider {
                Some(index) => index,
                None => 0,
            },
        ));
        proof {
            assert(entries@.map_values(|entry: Entry| entry@) =~= listed.push(EntryView::Search(
                match provider {
                    Some(index) => index,
                    None => 0,
                },
            )));
        }
    }
    proof {
        let rows = entry_rows(answer_view, query@, provider, names, provider_count as nat);
        assert(entries@.map_values(|entry: Entry| entry@) =~= rows);
    }
    entries
}

/// The calculator's evaluation context: its variables and its currency rates.
#[verifier::external_type_specification]
#[verifier::external_body]
pub struct ExContext(fend_core::Context);

/// Calls `fend_core::evaluate` and keeps the main result of a successful evaluation.  An empty
/// query evaluates to an empty result; what other queries give depends on the context
/// (variables, exchange rates, random numbers), so nothing more is stated of it.
#[verifier::external_body]
fn calculate(query: &str, calc: &mut fend_core::Context) -> (answer: Option<String>)
    ensures
        query@.len() == 0 ==> answer is Some && answer->0@.len() == 0,
{
    fend_core::evaluate(query, calc).ok().map(|result| result.get_main_result().to_owned())
}

/// What the platform should do for an activated row.
#[derive(Debug, PartialEq)]
pub enum Launch {
    /// Run a program with its arguments.
    Spawn(Vec<String>),
    /// Open an address in the browser.
    Open(String),
}

/// The launcher: its search field, its rows and what an activation left for the platform.
pub struct LauncherState {
    pub open: bool,
    pub session: u64,
    pub field: TextField,
    entries: Vec<Entry>,
    /// Index of the highlighted entry, which enter and shift+enter act on.
    pub selected: usize,
    /// Text waiting to be put on the system clipboard by the platform layer.
    pub pending_copy: Option<String>,
    /// A program or address waiting to be started by the platform layer.
    pub pending_launch: Option<Launch>,
    always_open: bool,
    calc: fend_core::Context,
    apps: Vec<DesktopApp>,
    providers: Vec<SearchProvider>,
}

/// A provider position as an index.
pub open spec fn provider_index(provider: Option<int>) -> Option<usize> {
    match provider {
        Some(index) => Some(index as usize),
        None => None,
    }
}

/// The aliases of the providers.
pub open spec fn aliases(providers: Seq<SearchProvider>) -> Seq<Seq<char>> {
    providers.map_values(|provider: SearchProvider| provider.alias@)
}

/// A copy of a command line.
fn copy_command(command: &Vec<String>) -> (copy: Vec<String>)
    ensures
        copy@.map_values(|arg: String| arg@) == command@.map_values(|arg: String| arg@),
{
    let mut copy: Vec<String> = Vec::new();
    let mut k: usize = 0;
    while k < command.len()
        invariant
            k <= command@.len(),
            copy@.map_values(|arg: String| arg@) == command@.take(k as int).map_values(
                |arg: String| arg@,
            ),
        decreases command@.len() - k,
    {
        let ghost before = copy@;
        copy.push(command[k].clone());
        proof {
            assert(copy@.map_values(|arg: String| arg@) =~= before.map_values(|arg: String| arg@).push(
                command@[k as int]@,
            ));
            assert(command@.take(k + 1).map_values(|arg: String| arg@) =~= command@.take(
                k as int,
            ).map_values(|arg: String| arg@).push(command@[k as int]@));
        }
        k += 1;
    }
    proof {
        assert(command@.take(k as int) =~= command@);
    }
    copy
}

impl LauncherState {
    /// Every row points at an app or provider that exists, and the field's caret and anchor
    /// lie on character boundaries.
    pub closed spec fn wf(&self) -> bool {
        &&& self.field.wf()
        &&& forall|i: int|
            0 <= i < self.entries@.len() ==> match #[trigger] self.entries@[i] {
                Entry::App(index) => index < self.apps@.len(),
                Entry::Search(index) => index < self.providers@.len(),
                Entry::Answer(_) => true,
            }
    }

    /// Whether the launcher is shown.
    pub closed spec fn shown(&self) -> bool {
        self.open
    }

    /// The session counter, advanced each time the launcher is toggled.
    pub closed spec fn session_id(&self) -> u64 {
        self.session
    }

    /// The search field.
    pub closed spec fn search_field(&self) -> TextField {
        self.field
    }

    /// The highlighted row.
    pub closed spec fn highlighted(&self) -> usize {
        self.selected
    }

    /// The text waiting for the clipboard.
    pub closed spec fn copy_request(&self) -> Option<String> {
        self.pending_copy
    }

    /// The program or address waiting to be started.
    pub closed spec fn launch_request(&self) -> Option<Launch> {
        self.pending_launch
    }

    /// The rows below the search field.
    pub closed spec fn rows(&self) -> Seq<EntryView> {
        self.entries@.map_values(|entry: Entry| entry@)
    }

    /// The known applications.
    pub closed spec fn app_list(&self) -> Seq<DesktopApp> {
        self.apps@
    }

    /// The search providers.
    pub closed spec fn provider_list(&self) -> Seq<SearchProvider> {
        self.providers@
    }

    /// Whether the launcher stays open when dismissed (as it does in a browser).
    pub closed spec fn stays_open(&self) -> bool {
        self.always_open
    }

    /// The provider the field's text selects and the query it leaves.
    pub open spec fn query(&self) -> (Option<int>, Seq<char>) {
        query_parts(self.search_field().contents(), aliases(self.provider_list()))
    }

    /// The rows the current query gives with the given calculator answer.
    pub open spec fn rows_for(&self, answer: Option<Seq<char>>) -> Seq<EntryView> {
        entry_rows(
            answer,
            self.query().1,
            provider_index(self.query().0),
            lowered_names(self.app_list()),
            self.provider_list().len(),
        )
    }

    /// The rows are those the current query gives, for some answer of the calculator (which
    /// is only asked when the query is calculable).
    pub open spec fn rows_fit_query(&self) -> bool {
        exists|answer: Option<Seq<char>>|
            (answer is Some ==> calculable(self.query().1, provider_index(self.query().0)))
                && self.rows() == #[trigger] self.rows_for(answer)
    }

    /// A closed launcher with an empty field, no apps yet, and the given calculator and
    /// providers; `always_open` keeps it open when dismissed.
    pub fn new(always_open: bool, calc: fend_core::Context, providers: Vec<SearchProvider>) -> (state: Self)
        ensures
            state.wf(),
            state.shown() == always_open,
            state.stays_open() == always_open,
            state.session_id() == 0,
            state.search_field().contents() == Seq::<char>::empty(),
            state.rows() == Seq::<EntryView>::empty(),
            state.highlighted() == 0,
            state.copy_request() is None,
            state.launch_request() is None,
            state.app_list() == Seq::<DesktopApp>::empty(),
            state.provider_list() == providers@,
    {
        let state = LauncherState {
            open: always_open,
            session: 0,
            field: TextField::default(),
            entries: Vec::new(),
            selected: 0,
            pending_copy: None,
            pending_launch: None,
            always_open,
            calc,
            apps: Vec::new(),
            providers,
        };
        assert(state.rows() =~= Seq::<EntryView>::empty());
        state
    }

    /// The rows below the search field.
    pub fn entries(&self) -> (entries: &[Entry])
        ensures
            entries@.map_values(|entry: Entry| entry@) == self.rows(),
    {
        self.entries.as_slice()
    }

    /// Installs the known applications, then re-runs the query.
    pub fn set_apps(&mut self, apps: Vec<DesktopApp>)
        requires
            old(self).search_field().wf(),
        ensures
            final(self).wf(),
            final(self).app_list() == apps@,
            final(self).rows_fit_query(),
            final(self).highlighted() == 0,
    {
        self.apps = apps;
        self.refresh_matches();
    }

    /// Opens or closes the launcher (it stays open where it always is), starting a new session
    /// with an empty field.
    pub fn toggle(&mut self)
        ensures
            final(self).wf(),
            final(self).session_id() == old(self).session_id().wrapping_add(1),
            final(self).shown() == (old(self).stays_open() || !old(self).shown()),
            final(self).search_field().contents() == Seq::<char>::empty(),
            final(self).search_field().caret() == 0,
            final(self).rows_fit_query(),
            final(self).highlighted() == 0,
            final(self).app_list() == old(self).app_list(),
            final(self).provider_list() == old(self).provider_list(),
            final(self).stays_open() == old(self).stays_open(),
    {
        self.session = self.session.wrapping_add(1);
        self.open = self.always_open || !self.open;
        self.clear_field();
        self.refresh_matches();
    }

    /// Empties the field and puts the caret at its start.
    fn clear_field(&mut self)
        ensures
            final(self).field.wf(),
            final(self).field.contents() == Seq::<char>::empty(),
            final(self).field.caret() == 0,
            final(self).field.anchor_offset() == 0,
            final(self).entries == old(self).entries,
            final(self).open == old(self).open,
            final(self).session == old(self).session,
            final(self).selected == old(self).selected,
            final(self).pending_copy == old(self).pending_copy,
            final(self).pending_launch == old(self).pending_launch,
            final(self).apps == old(self).apps,
            final(self).providers == old(self).providers,
            final(self).always_open == old(self).always_open,
    {
        self.field.clear();
    }

    /// Moves the highlight by `delta` rows, stopping at either end.
    pub fn move_selection(&mut self, delta: i32)
        ensures
            final(self).highlighted() == moved_selection(old(self).highlighted(), delta, old(self).rows().len()),
            final(self).highlighted() <= if old(self).rows().len() > 0 {
                old(self).rows().len() - 1
            } else {
                0
            },
            final(self).rows() == old(self).rows(),
            final(self).search_field() == old(self).search_field(),
            final(self).shown() == old(self).shown(),
            final(self).session_id() == old(self).session_id(),
            final(self).copy_request() == old(self).copy_request(),
            final(self).launch_request() == old(self).launch_request(),
            final(self).app_list() == old(self).app_list(),
            final(self).provider_list() == old(self).provider_list(),
            final(self).stays_open() == old(self).stays_open(),
            old(self).wf() ==> final(self).wf(),
    {
        let target: usize = if delta < 0 {
            let down = (0i64 - delta as i64) as usize;
            if self.selected < down {
                0
            } else {
                self.selected - down
            }
        } else {
            let up = delta as usize;
            if self.selected > usize::MAX - up {
                usize::MAX
            } else {
                self.selected + up
            }
        };
        let last = if self.entries.len() > 0 {
            self.entries.len() - 1
        } else {
            0
        };
        self.selected = if target < last {
            target
        } else {
            last
        };
    }

    /// What activating row `index` leaves: nothing changed for a row that does not exist;
    /// otherwise the row's action requested (an app's command, an answer's text for the
    /// clipboard, a provider's search address), and the launcher dismissed with an empty field
    /// and fresh rows.
    pub open spec fn activated(&self, after: Self, index: usize, alternate: bool) -> bool {
        &&& index >= self.rows().len() ==> after == *self
        &&& index < self.rows().len() ==> {
            &&& after.shown() == self.stays_open()
            &&& after.search_field().contents() == Seq::<char>::empty()
            &&& after.rows_fit_query()
            &&& after.highlighted() == 0
            &&& after.session_id() == self.session_id()
            &&& after.app_list() == self.app_list()
            &&& after.provider_list() == self.provider_list()
            &&& after.stays_open() == self.stays_open()
            &&& match self.rows()[index as int] {
                EntryView::App(app) => after.launch_request() matches Some(Launch::Spawn(command))
                    && command@.map_values(|arg: String| arg@) == launch_command(
                    self.app_list()[app as int],
                    alternate,
                ) && after.copy_request() == self.copy_request(),
                EntryView::Answer(answer) => after.copy_request() matches Some(text) && text@
                    == answer && after.launch_request() == self.launch_request(),
                EntryView::Search(provider) => after.launch_request() matches Some(
                    Launch::Open(address),
                ) && address@ == search_address(
                    self.provider_list()[provider as int].url@,
                    bytes_of(self.query().1),
                ) && after.copy_request() == self.copy_request(),
            }
        }
    }

    /// Runs row `index`'s action, its alternative one when `alternate` is set, then dismisses:
    /// an app row leaves its command for the platform, an answer row its text for the
    /// clipboard, and a search row the provider's address for the query.
    pub fn activate(&mut self, index: usize, alternate: bool)
        requires
            old(self).wf(),
        ensures
            final(self).wf(),
            old(self).activated(*final(self), index, alternate),
    {
        if index >= self.entries.len() {
            return;
        }
        proof {
            assert(self.rows()[index as int] == self.entries@[index as int]@);
        }
        match &self.entries[index] {
            Entry::App(app) => {
                let app = &self.apps[*app];
                let command = match &app.action {
                    Some(action) => if alternate {
                        copy_command(&action.1)
                    } else {
                        copy_command(&app.command)
                    },
                    None => copy_command(&app.command),
                };
                self.pending_launch = Some(Launch::Spawn(command));
            },
            Entry::Answer(answer) => {
                self.pending_copy = Some(answer.clone());
            },
            Entry::Search(provider) => {
                let (_, terms) = search_query(self.field.as_str(), self.providers.as_slice());
                let address = search_url(self.providers[*provider].url.as_str(), terms.as_str());
                self.pending_launch = Some(Launch::Open(address));
            },
        }
        self.open = self.always_open;
        self.clear_field();
        self.refresh_matches();
    }

    /// Types pasted text into the field, with line breaks as spaces, if it belongs to the
    /// current session of an open launcher.
    pub fn paste(&mut self, session: u64, text: &str)
        requires
            old(self).wf(),
        ensures
            final(self).wf(),
            !(old(self).shown() && old(self).session_id() == session) ==> *final(self) == *old(
                self,
            ),
            old(self).shown() && old(self).session_id() == session ==> {
                let field = old(self).search_field();
                &&& final(self).search_field().contents() == inserted_text(
                    field.contents(),
                    field.selection_start(),
                    field.selection_end(),
                    one_line(text@),
                )
                &&& final(self).search_field().caret() == field.inserted_caret(one_line(text@))
                &&& final(self).search_field().anchor_offset() == final(self).search_field().caret()
                &&& final(self).rows_fit_query()
                &&& final(self).highlighted() == 0
            },
    {
        if self.open && self.session == session {
            let line = flatten_lines(text);
            self.field.insert(line.as_str());
            self.refresh_matches();
        }
    }

    /// What a key press does to an open launcher: the effect of its action.
    pub open spec fn keyed(&self, after: Self, key: Seq<char>, shift: bool, control: bool) -> bool {
        let field = self.search_field();
        let later = after.search_field();
        match key_action(key, control) {
            KeyAction::Dismiss => after.shown() == self.stays_open() && after.search_field()
                == field && after.rows() == self.rows(),
            KeyAction::Activate => self.activated(after, self.highlighted(), shift),
            KeyAction::Up => after.highlighted() == moved_selection(
                self.highlighted(),
                -1i32,
                self.rows().len(),
            ) && after.search_field() == field && after.rows() == self.rows(),
            KeyAction::Down => after.highlighted() == moved_selection(
                self.highlighted(),
                1i32,
                self.rows().len(),
            ) && after.search_field() == field && after.rows() == self.rows(),
            KeyAction::EraseBack => later.contents() == field.erased_text(false) && later.caret()
                == snapped(later.contents(), field.erased_range(false).0) && later.anchor_offset()
                == later.caret() && after.rows_fit_query() && after.highlighted() == 0,
            KeyAction::EraseForward => later.contents() == field.erased_text(true) && later.caret()
                == snapped(later.contents(), field.erased_range(true).0) && later.anchor_offset()
                == later.caret() && after.rows_fit_query() && after.highlighted() == 0,
            KeyAction::Left => later.contents() == field.contents() && later.caret()
                == field.moved_caret(false, shift) && later.anchor_offset() == (if shift {
                field.anchor_offset()
            } else {
                later.caret()
            }) && after.rows() == self.rows(),
            KeyAction::Right => later.contents() == field.contents() && later.caret()
                == field.moved_caret(true, shift) && later.anchor_offset() == (if shift {
                field.anchor_offset()
            } else {
                later.caret()
            }) && after.rows() == self.rows(),
            KeyAction::Home => later.contents() == field.contents() && later.caret() == snapped(
                field.contents(),
                0,
            ) && later.anchor_offset() == (if shift {
                field.anchor_offset()
            } else {
                later.caret()
            }) && after.rows() == self.rows(),
            KeyAction::End => later.contents() == field.contents() && later.caret() == snapped(
                field.contents(),
                bytes_of(field.contents()).len() as int,
            ) && later.anchor_offset() == (if shift {
                field.anchor_offset()
            } else {
                later.caret()
            }) && after.rows() == self.rows(),
            KeyAction::SelectAll => later.contents() == field.contents() && later.anchor_offset()
                == 0 && later.caret() == snapped(
                field.contents(),
                bytes_of(field.contents()).len() as int,
            ) && after.rows() == self.rows(),
            KeyAction::Copy => after.copy_request() matches Some(text) && text@
                == field.selected_text() && after.search_field() == field,
            KeyAction::Cut => after.copy_request() matches Some(text) && text@
                == field.selected_text() && later.contents() == inserted_text(
                field.contents(),
                field.selection_start(),
                field.selection_end(),
                Seq::empty(),
            ) && later.caret() == field.inserted_caret(Seq::empty()) && later.anchor_offset()
                == later.caret() && after.rows_fit_query() && after.highlighted() == 0,
            KeyAction::Type => later.contents() == inserted_text(
                field.contents(),
                field.selection_start(),
                field.selection_end(),
                key,
            ) && later.caret() == field.inserted_caret(key) && later.anchor_offset() == later.caret()
                && after.rows_fit_query() && after.highlighted() == 0,
            KeyAction::Ignore => after == *self,
        }
    }

    /// Handles a key press, returning whether the launcher used it; a closed launcher uses
    /// none.
    pub fn input(&mut self, key: &str, shift: bool, control: bool) -> (handled: bool)
        requires
            old(self).wf(),
        ensures
            final(self).wf(),
            handled == (old(self).shown() && key_action(key@, control) != KeyAction::Ignore),
            !old(self).shown() ==> *final(self) == *old(self),
            old(self).shown() ==> old(self).keyed(*final(self), key@, shift, control),
    {
        if !self.open {
            return false;
        }
        let action = read_key(key, control);
        match action {
            KeyAction::Dismiss => {
                self.open = self.always_open;
            },
            KeyAction::Activate => {
                let selected = self.selected;
                self.activate(selected, shift);
            },
            KeyAction::Up => self.move_selection(-1),
            KeyAction::Down => self.move_selection(1),
            KeyAction::EraseBack => {
                self.field.erase(false);
                self.refresh_matches();
            },
            KeyAction::EraseForward => {
                self.field.erase(true);
                self.refresh_matches();
            },
            KeyAction::Left => self.field.move_cursor(false, shift),
            KeyAction::Right => self.field.move_cursor(true, shift),
            KeyAction::Home => self.field.set_cursor(0, shift),
            KeyAction::End => {
                let end = byte_len(self.field.as_str());
                self.field.set_cursor(end, shift);
            },
            KeyAction::SelectAll => self.field.select_all(),
            KeyAction::Copy => {
                self.pending_copy = Some(self.field.selected_string());
            },
            KeyAction::Cut => {
                self.pending_copy = Some(self.field.selected_string());
                proof {
                    reveal_strlit("");
                }
                self.field.insert("");
                self.refresh_matches();
            },
            KeyAction::Type => {
                self.field.insert(key);
                self.refresh_matches();
            },
            KeyAction::Ignore => {
                return false;
            },
        }
        true
    }

    /// Re-runs the query: the calculator answer, the matching apps and the search row.
    pub fn refresh_matches(&mut self)
        requires
            old(self).search_field().wf(),
        ensures
            final(self).wf(),
            final(self).rows_fit_query(),
            final(self).highlighted() == 0,
            final(self).search_field() == old(self).search_field(),
            final(self).shown() == old(self).shown(),
            final(self).session_id() == old(self).session_id(),
            final(self).copy_request() == old(self).copy_request(),
            final(self).launch_request() == old(self).launch_request(),
            final(self).app_list() == old(self).app_list(),
            final(self).provider_list() == old(self).provider_list(),
            final(self).stays_open() == old(self).stays_open(),
    {
        let (provider, query) = search_query(self.field.as_str(), self.providers.as_slice());
        let answer = if provider.is_none() && byte_len(query.as_str()) >= 4 {
            calculate(query.as_str(), &mut self.calc)
        } else {
            None
        };
        let entries = entries_for(answer, query.as_str(), provider, self.apps.as_slice(), self.providers.len());
        proof {
            assert(self.providers@.map_values(|provider: SearchProvider| provider.alias@) == aliases(self.providers@));
            let rows = entries@.map_values(|entry: Entry| entry@);
            assert forall|i: int| 0 <= i < entries@.len() implies match #[trigger] entries@[i] {
                Entry::App(index) => index < self.apps@.len(),
                Entry::Search(index) => index < self.providers@.len(),
                Entry::Answer(_) => true,
            } by {
                assert(rows[i] == entries@[i]@);
                lemma_rows_in_range(text_option(answer), query@, provider, lowered_names(self.apps@), self.providers@.len(), i);
            }
        }
        self.entries = entries;
        self.selected = 0;
        proof {
            assert(self.query().1 == query@);
            assert(provider_index(self.query().0) == provider);
            let witness = text_option(answer);
            assert(self.rows() == self.rows_for(witness));
            assert(self.rows_fit_query());
        }
    }
}

/// Where the highlight lands moving `delta` rows from `selected`: saturating at zero and
/// at the largest index, then kept on the last of `count` rows.
pub open spec fn moved_selection(selected: usize, delta: i32, count: nat) -> int {
    let target = if selected + delta < 0 {
        0
    } else if selected + delta > usize::MAX {
        usize::MAX as int
    } else {
        selected + delta
    };
    let last = if count > 0 {
        count - 1
    } else {
        0
    };
    if target < last {
        target
    } else {
        last
    }
}

/// The command an app row runs: its alternative action's when `alternate` is set and it has
/// one, else its own.
pub open spec fn launch_command(app: DesktopApp, alternate: bool) -> Seq<Seq<char>> {
    match app.action {
        Some(action) => if alternate {
            action.1@.map_values(|arg: String| arg@)
        } else {
            app.command@.map_values(|arg: String| arg@)
        },
        None => app.command@.map_values(|arg: String| arg@),
    }
}

/// Pasted text with its line breaks turned into spaces, so it stays on one line.
pub open spec fn one_line(text: Seq<char>) -> Seq<char> {
    text.map_values(|c: char| if c == '\n' || c == '\r' {
        ' '
    } else {
        c
    })
}

/// What a key press asks of the launcher.
#[derive(Clone, Copy, Debug, PartialEq, Eq, Structural)]
pub enum KeyAction {
    Dismiss,
    Activate,
    Up,
    Down,
    EraseBack,
    EraseForward,
    Left,
    Right,
    Home,
    End,
    SelectAll,
    Copy,
    Cut,
    Type,
    Ignore,
}

/// Whether a character is a control code (Unicode general category `Cc`): U+0000 to U+001F
/// and U+007F to U+009F, the characters `char::is_control` accepts.
pub open spec fn control_char(c: char) -> bool {
    c <= '\u{1f}' || ('\u{7f}' <= c && c <= '\u{9f}')
}

/// Whether a character is a control code, as `char::is_control` tells.
fn is_control(c: char) -> (control: bool)
    ensures
        control == control_char(c),
{
    c <= '\u{1f}' || ('\u{7f}' <= c && c <= '\u{9f}')
}

/// The action of a key name, with or without the control modifier.
pub open spec fn key_action(key: Seq<char>, control: bool) -> KeyAction {
    if key == "Escape"@ {
        KeyAction::Dismiss
    } else if key == "Enter"@ {
        KeyAction::Activate
    } else if key == "ArrowUp"@ {
        KeyAction::Up
    } else if key == "ArrowDown"@ {
        KeyAction::Down
    } else if key == "Backspace"@ {
        KeyAction::EraseBack
    } else if key == "Delete"@ {
        KeyAction::EraseForward
    } else if key == "ArrowLeft"@ {
        KeyAction::Left
    } else if key == "ArrowRight"@ {
        KeyAction::Right
    } else if key == "Home"@ {
        KeyAction::Home
    } else if key == "End"@ {
        KeyAction::End
    } else if (key == "a"@ || key == "A"@) && control {
        KeyAction::SelectAll
    } else if (key == "c"@ || key == "C"@) && control {
        KeyAction::Copy
    } else if (key == "x"@ || key == "X"@) && control {
        KeyAction::Cut
    } else if !control && key.len() == 1 && !control_char(key[0]) {
        KeyAction::Type
    } else {
        KeyAction::Ignore
    }
}

/// Reads the action of a key name.
fn read_key(key: &str, control: bool) -> (action: KeyAction)
    ensures
        action == key_action(key@, control),
{
    if same_text(key, "Escape") {
        KeyAction::Dismiss
    } else if same_text(key, "Enter") {
        KeyAction::Activate
    } else if same_text(key, "ArrowUp") {
        KeyAction::Up
    } else if same_text(key, "ArrowDown") {
        KeyAction::Down
    } else if same_text(key, "Backspace") {
        KeyAction::EraseBack
    } else if same_text(key, "Delete") {
        KeyAction::EraseForward
    } else if same_text(key, "ArrowLeft") {
        KeyAction::Left
    } else if same_text(key, "ArrowRight") {
        KeyAction::Right
    } else if same_text(key, "Home") {
        KeyAction::Home
    } else if same_text(key, "End") {
        KeyAction::End
    } else if (same_text(key, "a") || same_text(key, "A")) && control {
        KeyAction::SelectAll
    } else if (same_text(key, "c") || same_text(key, "C")) && control {
        KeyAction::Copy
    } else if (same_text(key, "x") || same_text(key, "X")) && control {
        KeyAction::Cut
    } else {
        let chars = chars_of(key);
        if !control && chars.len() == 1 && !is_control(chars[0]) {
            KeyAction::Type
        } else {
            KeyAction::Ignore
        }
    }
}

/// Turns the line breaks of pasted text into spaces.
fn flatten_lines(text: &str) -> (line: String)
    ensures
        line@ == one_line(text@),
{
    let chars = chars_of(text);
    let mut line: Vec<char> = Vec::new();
    let mut k: usize = 0;
    while k < chars.len()
        invariant
            k <= chars@.len(),
            line@ == one_line(chars@.take(k as int)),
        decreases chars@.len() - k,
    {
        let c = chars[k];
        line.push(if c == '\n' || c == '\r' {
            ' '
        } else {
            c
        });
        k += 1;
        proof {
            assert(one_line(chars@.take(k as int)) =~= one_line(chars@.take(k - 1)).push(
                if c == '\n' || c == '\r' {
                    ' '
                } else {
                    c
                },
            ));
        }
    }
    proof {
        assert(chars@.take(k as int) =~= text@);
    }
    string_of(&line)
}

/// Every app row of a query points at a listed app, and the search row at a provider.
proof fn lemma_rows_in_range(
    answer: Option<Seq<char>>,
    query: Seq<char>,
    provider: Option<usize>,
    names: Seq<Seq<char>>,
    provider_count: nat,
    i: int,
)
    requires
        0 <= i < entry_rows(answer, query, provider, names, provider_count).len(),
        provider matches Some(index) ==> index < provider_count,
    ensures
        match entry_rows(answer, query, provider, names, provider_count)[i] {
            EntryView::App(index) => index < names.len(),
            EntryView::Search(index) => index < provider_count,
            EntryView::Answer(_) => true,
        },
{
    let answers = if calculable(query, provider) {
        answer_rows(answer, query)
    } else {
        Seq::empty()
    };
    let lower = crate::chars::lowercase(query);
    let has_search = shows_search(query, provider, provider_count);
    let visible = MAX_VISIBLE - answers.len() - if has_search {
        1int
    } else {
        0int
    };
    let hits_all = app_hits(names, lower, true) + app_hits(names, lower, false);
    let apps = if provider is Some {
        Seq::<usize>::empty()
    } else {
        take_upto(hits_all, visible)
    };
    let rows = entry_rows(answer, query, provider, names, provider_count);
    let listed = apps.map_values(|index: usize| EntryView::App(index));
    if answers.len() <= i < answers.len() + listed.len() {
        let k = i - answers.len();
        lemma_hits_in_range(names, lower, true);
        lemma_hits_in_range(names, lower, false);
        assert(rows[i] == listed[k]);
        if provider is None {
            if visible < hits_all.len() {
                assert(apps[k] == hits_all[k]);
            }
            let h = hits_all[k];
            if k < app_hits(names, lower, true).len() {
                assert(h == app_hits(names, lower, true)[k]);
            } else {
                assert(h == app_hits(names, lower, false)[k - app_hits(names, lower, true).len()]);
            }
        }
    }
}

/// Every index a search for app names yields is the index of a name.
proof fn lemma_hits_in_range(names: Seq<Seq<char>>, query: Seq<char>, prefix: bool)
    ensures
        forall|k: int| 0 <= k < app_hits(names, query, prefix).len() ==> #[trigger] app_hits(names, query, prefix)[k] < names.len(),
    decreases names.len(),
{
    if names.len() > 0 {
        lemma_hits_in_range(names.drop_last(), query, prefix);
        let earlier = app_hits(names.drop_last(), query, prefix);
        assert forall|k: int| 0 <= k < app_hits(names, query, prefix).len() implies #[trigger] app_hits(
            names,
            query,
            prefix,
        )[k] < names.len() by {
            if k < earlier.len() {
                assert(app_hits(names, query, prefix)[k] == earlier[k]);
            }
        }
    }
}

/// Every index a search for app names yields is of a name that contains the query and
/// starts with it exactly when `prefix` is set, and the indices increase.
proof fn lemma_hits_match(names: Seq<Seq<char>>, query: Seq<char>, prefix: bool)
    requires
        names.len() <= usize::MAX,
    ensures
        forall|k: int|
            0 <= k < app_hits(names, query, prefix).len() ==> {
                let index = #[trigger] app_hits(names, query, prefix)[k];
                index < names.len() && contains_text(names[index as int], query) && starts_with(
                    names[index as int],
                    query,
                ) == prefix
            },
    decreases names.len(),
{
    if names.len() > 0 {
        let rest = names.drop_last();
        lemma_hits_match(rest, query, prefix);
        let earlier = app_hits(rest, query, prefix);
        assert forall|k: int| 0 <= k < app_hits(names, query, prefix).len() implies {
            let index = #[trigger] app_hits(names, query, prefix)[k];
            index < names.len() && contains_text(names[index as int], query) && starts_with(
                names[index as int],
                query,
            ) == prefix
        } by {
            if k < earlier.len() {
                assert(app_hits(names, query, prefix)[k] == earlier[k]);
                assert(names[earlier[k] as int] == rest[earlier[k] as int]);
            } else {
                assert(app_hits(names, query, prefix) == earlier.push((names.len() - 1) as usize));
                assert(app_hits(names, query, prefix)[k] == names.len() - 1);
                assert(names[names.len() - 1] == names.last());
            }
        }
    }
}

/// Among the app rows of a query, every app whose lowercase name starts with the query comes
/// before every app whose name merely contains it.
pub proof fn lemma_prefix_matches_first(
    answer: Option<Seq<char>>,
    query: Seq<char>,
    provider: Option<usize>,
    names: Seq<Seq<char>>,
    provider_count: nat,
    i: int,
    j: int,
)
    requires
        names.len() <= usize::MAX,
        0 <= i < j < entry_rows(answer, query, provider, names, provider_count).len(),
        entry_rows(answer, query, provider, names, provider_count)[i] is App,
        entry_rows(answer, query, provider, names, provider_count)[j] is App,
    ensures
        ({
            let rows = entry_rows(answer, query, provider, names, provider_count);
            let lower = crate::chars::lowercase(query);
            let first = rows[i]->App_0;
            let second = rows[j]->App_0;
            &&& first < names.len() && second < names.len()
            &&& contains_text(names[first as int], lower)
            &&& contains_text(names[second as int], lower)
            &&& starts_with(names[second as int], lower) ==> starts_with(names[first as int], lower)
        }),
{
    let answers = if calculable(query, provider) {
        answer_rows(answer, query)
    } else {
        Seq::empty()
    };
    let lower = crate::chars::lowercase(query);
    let has_search = shows_search(query, provider, provider_count);
    let visible = MAX_VISIBLE - answers.len() - if has_search {
        1int
    } else {
        0int
    };
    let firsts = app_hits(names, lower, true);
    let seconds = app_hits(names, lower, false);
    let hits_all = firsts + seconds;
    let apps = if provider is Some {
        Seq::<usize>::empty()
    } else {
        take_upto(hits_all, visible)
    };
    let rows = entry_rows(answer, query, provider, names, provider_count);
    let listed = apps.map_values(|index: usize| EntryView::App(index));
    lemma_hits_match(names, lower, true);
    lemma_hits_match(names, lower, false);
    assert(rows == answers + listed + if has_search {
        seq![EntryView::Search(match provider {
            Some(index) => index,
            None => 0,
        })]
    } else {
        Seq::empty()
    });
    if answers.len() > 0 {
        assert(rows[0] == answers[0]);
    }
    assert(answers.len() <= i);
    assert(j < answers.len() + listed.len()) by {
        if j >= answers.len() + listed.len() {
            assert(rows[j] is Search);
        }
    }
    let a = i - answers.len();
    let b = j - answers.len();
    assert(rows[i] == listed[a]);
    assert(rows[j] == listed[b]);
    assert(provider is None);
    assert(apps[a] == hits_all[a]);
    assert(apps[b] == hits_all[b]);
    if b < firsts.len() {
        assert(hits_all[a] == firsts[a]);
        assert(hits_all[b] == firsts[b]);
    } else {
        assert(hits_all[b] == seconds[b - firsts.len()]);
        if a < firsts.len() {
            assert(hits_all[a] == firsts[a]);
        } else {
            assert(hits_all[a] == seconds[a - firsts.len()]);
        }
    }
}


/// The calculator never echoes the query: a calculator row of the rows for a query shows the
/// given answer, which is not empty and differs from the query, and stands first.
pub proof fn lemma_answer_differs_from_query(
    answer: Option<Seq<char>>,
    query: Seq<char>,
    provider: Option<usize>,
    names: Seq<Seq<char>>,
    provider_count: nat,
    i: int,
    text: Seq<char>,
)
    requires
        0 <= i < entry_rows(answer, query, provider, names, provider_count).len(),
        entry_rows(answer, query, provider, names, provider_count)[i] == EntryView::Answer(text),
    ensures
        text != query,
        text.len() > 0,
        answer == Some(text),
        i == 0,
{
    let answers = if calculable(query, provider) {
        answer_rows(answer, query)
    } else {
        Seq::empty()
    };
    let rows = entry_rows(answer, query, provider, names, provider_count);
    let lower = crate::chars::lowercase(query);
    let has_search = shows_search(query, provider, provider_count);
    let visible = MAX_VISIBLE - answers.len() - if has_search {
        1int
    } else {
        0int
    };
    let apps = if provider is Some {
        Seq::<usize>::empty()
    } else {
        take_upto(app_hits(names, lower, true) + app_hits(names, lower, false), visible)
    };
    let app_rows = apps.map_values(|index: usize| EntryView::App(index));
    let search = if has_search {
        seq![
            EntryView::Search(
                match provider {
                    Some(index) => index,
                    None => 0,
                },
            ),
        ]
    } else {
        Seq::<EntryView>::empty()
    };
    assert(rows == answers + app_rows + search);
    if i < answers.len() {
        assert(rows[i] == answers[i]);
    } else if i < answers.len() + app_rows.len() {
        assert(rows[i] == app_rows[i - answers.len()]);
    } else {
        assert(rows[i] == search[i - answers.len() - app_rows.len()]);
    }
}


/// The arrow keys move the search field's caret in their own directions: on an open launcher,
/// "ArrowLeft" moves it as a step back from the caret does and "ArrowRight" as a step forward
/// does (extending the selection with shift), neither changes the text or the rows, and
/// "ArrowRight" never moves the caret toward the start of the text.
pub proof fn lemma_arrow_keys(before: LauncherState, after: LauncherState, key: Seq<char>, shift: bool)
    requires
        before.wf(),
        before.keyed(after, key, shift, false),
        key == "ArrowLeft"@ || key == "ArrowRight"@,
    ensures
        after.search_field().contents() == before.search_field().contents(),
        after.rows() == before.rows(),
        key == "ArrowLeft"@ ==> after.search_field().caret() == before.search_field().moved_caret(
            false,
            shift,
        ),
        key == "ArrowRight"@ ==> after.search_field().caret() == before.search_field().moved_caret(
            true,
            shift,
        ),
        key == "ArrowRight"@ ==> after.search_field().caret() >= before.search_field().caret(),
{
    reveal_strlit("ArrowLeft");
    reveal_strlit("ArrowRight");
    reveal_strlit("Escape");
    reveal_strlit("Enter");
    reveal_strlit("ArrowUp");
    reveal_strlit("ArrowDown");
    reveal_strlit("Backspace");
    reveal_strlit("Delete");
    assert(key[0] == 'A');
    assert(key[0] != "Escape"@[0] && key[0] != "Enter"@[0] && key[0] != "Backspace"@[0]
        && key[0] != "Delete"@[0]);
    assert(key[5] != "ArrowUp"@[5] && key[5] != "ArrowDown"@[5]);
    if key == "ArrowLeft"@ {
        assert(key_action(key, false) == KeyAction::Left);
    } else {
        assert(key[5] != "ArrowLeft"@[5]);
        assert(key_action(key, false) == KeyAction::Right);
        crate::field::lemma_forward_never_back(before.search_field(), shift);
    }
}

} // verus!
