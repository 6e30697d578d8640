use vstd::prelude::*;

use crate::model::{Command, CommandView};
use crate::storage::{same_executable, views};

verus! {

/// The index after `i` among `n` positions, wrapping from the last to the first.
pub open spec fn next_index(i: nat, n: nat) -> nat {
    if i + 1 < n {
        (i + 1) as nat
    } else {
        0
    }
}

/// The index before `i` among `n` positions, wrapping from the first to the
/// last; an index out of range also goes to the last.
pub open spec fn previous_index(i: nat, n: nat) -> nat {
    if 0 < i < n {
        (i - 1) as nat
    } else if n > 0 {
        (n - 1) as nat
    } else {
        0
    }
}

/// Where `k` steps forward from `i` among `n` positions lead.
pub open spec fn next_index_times(i: nat, n: nat, k: nat) -> nat
    decreases k,
{
    if k == 0 {
        i
    } else {
        next_index(next_index_times(i, n, (k - 1) as nat), n)
    }
}

/// Where `k` steps backward from `i` among `n` positions lead.
pub open spec fn previous_index_times(i: nat, n: nat, k: nat) -> nat
    decreases k,
{
    if k == 0 {
        i
    } else {
        previous_index(previous_index_times(i, n, (k - 1) as nat), n)
    }
}

/// A selection as plain values.
pub open spec fn selection(s: Option<usize>) -> Option<nat> {
    match s {
        Some(i) => Some(i as nat),
        None => None,
    }
}

/// The selection after a step forward in a list of `len` items: nothing
/// selected goes to the first item, and an empty list keeps its selection.
pub open spec fn next_selection(s: Option<nat>, len: nat) -> Option<nat> {
    if len == 0 {
        s
    } else {
        match s {
            Some(i) => Some(next_index(i, len)),
            None => Some(0),
        }
    }
}

/// The selection after a step backward in a list of `len` items: nothing
/// selected goes to the last item, and an empty list keeps its selection.
pub open spec fn previous_selection(s: Option<nat>, len: nat) -> Option<nat> {
    if len == 0 {
        s
    } else {
        match s {
            Some(i) => Some(previous_index(i, len)),
            None => Some((len - 1) as nat),
        }
    }
}

fn step_forward(i: usize, n: usize) -> (r: usize)
    requires
        n > 0,
    ensures
        r == next_index(i as nat, n as nat),
{
    if i >= n - 1 {
        0
    } else {
        i + 1
    }
}

fn step_backward(i: usize, n: usize) -> (r: usize)
    requires
        n > 0,
    ensures
        r == previous_index(i as nat, n as nat),
{
    if 0 < i && i < n {
        i - 1
    } else {
        n - 1
    }
}

/// Stepping forward `n` times among `n` positions comes back to the start.
pub proof fn lemma_next_index_cycles(i: nat, n: nat)
    requires
        i < n,
    ensures
        next_index_times(i, n, n) == i,
{
    lemma_next_index_times(i, n, n);
}

proof fn lemma_next_index_times(i: nat, n: nat, k: nat)
    requires
        i < n,
        k <= n,
    ensures
        next_index_times(i, n, k) as int == if i + k < n {
            (i + k) as int
        } else {
            i + k - n
        },
    decreases k,
{
    if k > 0 {
        lemma_next_index_times(i, n, (k - 1) as nat);
    }
}

/// Stepping backward `n` times among `n` positions comes back to the start.
pub proof fn lemma_previous_index_cycles(i: nat, n: nat)
    requires
        i < n,
    ensures
        previous_index_times(i, n, n) == i,
{
    lemma_previous_index_times(i, n, n);
}

proof fn lemma_previous_index_times(i: nat, n: nat, k: nat)
    requires
        i < n,
        k <= n,
    ensures
        previous_index_times(i, n, k) as int == if k <= i {
            i - k as int
        } else {
            i + n - k
        },
    decreases k,
{
    if k > 0 {
        lemma_previous_index_times(i, n, (k - 1) as nat);
    }
}

/// The executables of `rows`, each once, in the order of first occurrence.
pub open spec fn tab_order(rows: Seq<CommandView>) -> Seq<Seq<char>>
    decreases rows.len(),
{
    if rows.len() == 0 {
        Seq::empty()
    } else {
        let front = tab_order(rows.drop_last());
        if front.contains(rows.last().executable) {
            front
        } else {
            front.push(rows.last().executable)
        }
    }
}

/// Each executable of `rows` is a tab, and each tab is an executable of `rows`.
pub proof fn lemma_tab_order_contains(rows: Seq<CommandView>, e: Seq<char>)
    ensures
        tab_order(rows).contains(e) <==> exists|m: int|
            0 <= m < rows.len() && (#[trigger] rows[m]).executable == e,
    decreases rows.len(),
{
    if rows.len() > 0 {
        let front = rows.drop_last();
        let last = rows.last();
        lemma_tab_order_contains(front, e);
        let t = tab_order(rows);
        let tf = tab_order(front);
        assert(t.contains(e) <==> (tf.contains(e) || last.executable == e)) by {
            if !tf.contains(last.executable) {
                assert(t == tf.push(last.executable));
                if tf.contains(e) {
                    let j = choose|j: int| 0 <= j < tf.len() && tf[j] == e;
                    assert(t[j] == e);
                }
                if last.executable == e {
                    assert(t[t.len() - 1] == e);
                }
                if t.contains(e) {
                    let j = choose|j: int| 0 <= j < t.len() && t[j] == e;
                    if j < tf.len() {
                        assert(tf[j] == e);
                    }
                }
            }
        }
        assert((exists|m: int| 0 <= m < rows.len() && (#[trigger] rows[m]).executable == e) <==> (
        (exists|m: int| 0 <= m < front.len() && (#[trigger] front[m]).executable == e)
            || last.executable == e)) by {
            if exists|m: int| 0 <= m < rows.len() && (#[trigger] rows[m]).executable == e {
                let m = choose|m: int| 0 <= m < rows.len() && (#[trigger] rows[m]).executable == e;
                if m < front.len() {
                    assert(front[m] == rows[m]);
                }
            }
            if exists|m: int| 0 <= m < front.len() && (#[trigger] front[m]).executable == e {
                let m = choose|m: int| 0 <= m < front.len() && (#[trigger] front[m]).executable == e;
                assert(rows[m] == front[m]);
            }
            if last.executable == e {
                assert(rows[rows.len() - 1] == last);
            }
        }
    }
}

/// No executable is a tab twice.
pub proof fn lemma_tab_order_distinct(rows: Seq<CommandView>)
    ensures
        tab_order(rows).no_duplicates(),
    decreases rows.len(),
{
    if rows.len() > 0 {
        lemma_tab_order_distinct(rows.drop_last());
    }
}

/// The names of the groups of `items`.
pub open spec fn group_keys<T>(items: Seq<(String, Vec<T>)>) -> Seq<Seq<char>> {
    items.map_values(|g: (String, Vec<T>)| g.0@)
}

/// The views of a sequence of texts.
pub open spec fn texts(ts: Seq<String>) -> Seq<Seq<char>> {
    ts.map_values(|t: String| t@)
}

/// The tabs of the view: a title for each, and the index of the one shown.
pub struct TabState {
    pub titles: Vec<String>,
    pub index: usize,
}

impl TabState {
    /// Tabs with the given titles, the first one shown.
    pub fn new(titles: Vec<String>) -> (r: TabState)
        ensures
            r.titles == titles,
            r.index == 0,
    {
        TabState { titles, index: 0 }
    }

    /// Shows the next tab, from the last back to the first. Without tabs it
    /// does nothing.
    pub fn next(&mut self)
        ensures
            final(self).titles == old(self).titles,
            old(self).titles.len() == 0 ==> final(self).index == old(self).index,
            old(self).titles.len() > 0 ==> final(self).index as nat == next_index(
                old(self).index as nat,
                old(self).titles.len() as nat,
            ),
    {
        let n = self.titles.len();
        if n > 0 {
            self.index = step_forward(self.index, n);
        }
    }

    /// Shows the previous tab, from the first back to the last. Without tabs
    /// it does nothing.
    pub fn previous(&mut self)
        ensures
            final(self).titles == old(self).titles,
            old(self).titles.len() == 0 ==> final(self).index == old(self).index,
            old(self).titles.len() > 0 ==> final(self).index as nat == previous_index(
                old(self).index as nat,
                old(self).titles.len() as nat,
            ),
    {
        let n = self.titles.len();
        if n > 0 {
            self.index = step_backward(self.index, n);
        }
    }
}

/// Lists of items, one for each named group, and the item selected in the
/// list of the group shown.
pub struct StatefulList<T> {
    pub selected: Option<usize>,
    pub items: Vec<(String, Vec<T>)>,
}

impl<T> StatefulList<T> {
    /// The given groups, with nothing selected.
    pub fn with_items(items: Vec<(String, Vec<T>)>) -> (r: StatefulList<T>)
        ensures
            r.items == items,
            r.selected is None,
    {
        StatefulList { selected: None, items }
    }

    /// The index of the first group named `name`, if any.
    pub fn position(&self, name: &str) -> (r: Option<usize>)
        ensures
            r matches Some(k) ==> k < self.items.len() && group_keys(self.items@).index_of_first(
                name@,
            ) == Some(k as int),
            r is None ==> group_keys(self.items@).index_of_first(name@) is None,
    {
        let ghost keys = group_keys(self.items@);
        proof {
            keys.index_of_first_ensures(name@);
        }
        let key = name.to_owned();
        let mut j: usize = 0;
        while j < self.items.len()
            invariant
                j <= self.items.len(),
                keys == group_keys(self.items@),
                key@ == name@,
                forall|m: int| 0 <= m < j ==> keys[m] != name@,
                match keys.index_of_first(name@) {
                    Some(index) => {
                        &&& 0 <= index < keys.len()
                        &&& keys[index] == name@
                        &&& forall|m: int| 0 <= m < index < keys.len() ==> keys[m] != name@
                    },
                    None => !keys.contains(name@),
                },
            decreases self.items.len() - j,
        {
            if self.items[j].0 == key {
                assert(keys[j as int] == name@);
                return Some(j);
            }
            j = j + 1;
        }
        proof {
            if keys.contains(name@) {
                let m = choose|m: int| 0 <= m < keys.len() && keys[m] == name@;
                assert(keys[m] != name@);
            }
        }
        None
    }

    /// Selects the next item of the group `selected_executable_tab`; from no
    /// selection, the first. Nothing changes when no group has that name or
    /// its list is empty.
    pub fn next(&mut self, selected_executable_tab: &str)
        ensures
            final(self).items == old(self).items,
            match group_keys(old(self).items@).index_of_first(selected_executable_tab@) {
                Some(k) => selection(final(self).selected) == next_selection(
                    selection(old(self).selected),
                    old(self).items@[k].1@.len(),
                ),
                None => final(self).selected == old(self).selected,
            },
    {
        match self.position(selected_executable_tab) {
            Some(k) => {
                let len = self.items[k].1.len();
                if len > 0 {
                    self.selected =
                    match self.selected {
                        Some(i) => Some(step_forward(i, len)),
                        None => Some(0),
                    };
                }
            },
            None => {},
        }
    }

    /// Selects the previous item of the group `selected_executable_tab`;
    /// from no selection, the last. Nothing changes when no group has that
    /// name or its list is empty.
    pub fn previous(&mut self, selected_executable_tab: &str)
        ensures
            final(self).items == old(self).items,
            match group_keys(old(self).items@).index_of_first(selected_executable_tab@) {
                Some(k) => selection(final(self).selected) == previous_selection(
                    selection(old(self).selected),
                    old(self).items@[k].1@.len(),
                ),
                None => final(self).selected == old(self).selected,
            },
    {
        match self.position(selected_executable_tab) {
            Some(k) => {
                let len = self.items[k].1.len();
                if len > 0 {
                    self.selected =
                    match self.selected {
                        Some(i) => Some(step_backward(i, len)),
                        None => Some(len - 1),
                    };
                }
            },
            None => {},
        }
    }

    /// The selected index, or 0 when nothing is selected.
    pub fn selected_index(&self) -> (r: usize)
        ensures
            r == match self.selected {
                Some(i) => i,
                None => 0,
            },
    {
        match self.selected {
            Some(i) => i,
            None => 0,
        }
    }
}

/// What the view shows, as plain values: the tab titles, the commands of
/// each tab, the tab shown and the item selected in it.
pub struct AppView {
    pub titles: Seq<Seq<char>>,
    pub groups: Seq<Seq<CommandView>>,
    pub tab: nat,
    pub item: Option<nat>,
}

/// The view after a step to the next tab: the selection is cleared.
pub open spec fn next_tab_view(v: AppView) -> AppView {
    if v.titles.len() == 0 {
        v
    } else {
        AppView { titles: v.titles, groups: v.groups, tab: next_index(v.tab, v.titles.len()), item: None }
    }
}

/// The view after a step to the previous tab: the selection is cleared.
pub open spec fn previous_tab_view(v: AppView) -> AppView {
    if v.titles.len() == 0 {
        v
    } else {
        AppView {
            titles: v.titles,
            groups: v.groups,
            tab: previous_index(v.tab, v.titles.len()),
            item: None,
        }
    }
}

/// The view after a step to the next item of the tab shown.
pub open spec fn next_item_view(v: AppView) -> AppView {
    if v.titles.len() == 0 {
        v
    } else {
        AppView {
            titles: v.titles,
            groups: v.groups,
            tab: v.tab,
            item: next_selection(v.item, v.groups[v.tab as int].len()),
        }
    }
}

/// The view after a step to the previous item of the tab shown.
pub open spec fn previous_item_view(v: AppView) -> AppView {
    if v.titles.len() == 0 {
        v
    } else {
        AppView {
            titles: v.titles,
            groups: v.groups,
            tab: v.tab,
            item: previous_selection(v.item, v.groups[v.tab as int].len()),
        }
    }
}

/// The command selected in the view, if an item is selected.
pub open spec fn selected_command_view(v: AppView) -> Option<CommandView> {
    match v.item {
        Some(i) => Some(v.groups[v.tab as int][i as int]),
        None => None,
    }
}

/// After a change of tab, a step backward selects the last command of the
/// new tab, whatever was selected in the tab left.
pub proof fn lemma_tab_change_then_previous_item(v: AppView, forward: bool)
    requires
        v.titles.len() > 0,
        v.groups.len() == v.titles.len(),
        v.tab < v.titles.len(),
    ensures
        ({
            let w = if forward {
                next_tab_view(v)
            } else {
                previous_tab_view(v)
            };
            let len = v.groups[w.tab as int].len();
            &&& w.item is None
            &&& len > 0 ==> previous_item_view(w).item == Some((len - 1) as nat)
            &&& len == 0 ==> previous_item_view(w).item is None
        }),
{
}

/// In a sequence without duplicates, the first index of an element is its index.
proof fn lemma_first_index_of_distinct(s: Seq<Seq<char>>, k: int)
    requires
        s.no_duplicates(),
        0 <= k < s.len(),
    ensures
        s.index_of_first(s[k]) == Some(k),
{
    s.index_of_first_ensures(s[k]);
}

/// A key of the terminal, as the navigation reads it.
#[derive(Debug, Clone, Copy, PartialEq, Eq, Structural)]
pub enum KeyInput {
    Quit,
    Right,
    Left,
    Down,
    Up,
    Enter,
    Other,
}

/// What the terminal loop does after a key.
#[derive(Debug)]
pub enum AppAction {
    /// Draw again and wait for the next key.
    Continue,
    /// Leave the view.
    Quit,
    /// Put the given command text on the clipboard, then leave the view.
    CopyAndQuit(String),
}

/// The state of the view: the commands grouped into tabs by executable,
/// the tab shown and the command selected.
pub struct App {
    pub commands: StatefulList<Command>,
    pub tabs: TabState,
}

impl View for App {
    type V = AppView;

    open spec fn view(&self) -> AppView {
        AppView {
            titles: texts(self.tabs.titles@),
            groups: self.commands.items@.map_values(|g: (String, Vec<Command>)| views(g.1@)),
            tab: self.tabs.index as nat,
            item: selection(self.commands.selected),
        }
    }
}

impl App {
    /// The titles name the groups one for one, no title twice, the tab shown
    /// exists, and the selected item lies in its list.
    pub open spec fn wf(&self) -> bool {
        let v = self@;
        &&& group_keys(self.commands.items@) == v.titles
        &&& v.titles.no_duplicates()
        &&& v.titles.len() > 0 ==> v.tab < v.titles.len()
        &&& v.item matches Some(i) ==> v.titles.len() > 0 && i < v.groups[v.tab as int].len()
    }

    /// Groups `db_commands` into one tab per executable, in the order in which
    /// each executable first occurs; each tab keeps its commands in the given
    /// order. The first tab is shown, with nothing selected.
    pub fn new(db_commands: Vec<Command>) -> (r: App)
        ensures
            r.wf(),
            r@.titles == tab_order(views(db_commands@)),
            r@.groups.len() == r@.titles.len(),
            forall|k: int|
                0 <= k < r@.titles.len() ==> #[trigger] r@.groups[k] == views(db_commands@).filter(
                    same_executable(r@.titles[k]),
                ),
            r@.tab == 0,
            r@.item is None,
    {
        let ghost rows = views(db_commands@);
        let mut items: Vec<(String, Vec<Command>)> = Vec::new();
        let mut titles: Vec<String> = Vec::new();
        let mut i: usize = 0;
        while i < db_commands.len()
            invariant
                i <= db_commands.len(),
                rows == views(db_commands@),
                group_keys(items@) == texts(titles@),
                texts(titles@) == tab_order(rows.take(i as int)),
                forall|k: int|
                    0 <= k < items.len() ==> #[trigger] views(items@[k].1@) == rows.take(
                        i as int,
                    ).filter(same_executable(texts(titles@)[k])),
            decreases db_commands.len() - i,
        {
            let ghost prefix = rows.take(i as int);
            let ghost keys = texts(titles@);
            let ghost old_items = items@;
            let c = db_commands[i].clone();
            let ghost e = c.executable@;
            proof {
                lemma_tab_order_distinct(prefix);
                lemma_tab_order_contains(prefix, e);
                assert(rows.take(i + 1) =~= prefix.push(c@));
                assert(prefix.push(c@).drop_last() =~= prefix);
                assert(forall|k: int| 0 <= k < items.len() ==> #[trigger] keys[k] == items@[k].0@);
            }
            let mut j: usize = 0;
            while j < items.len() && !(items[j].0 == c.executable)
                invariant
                    j <= items.len(),
                    items@ == old_items,
                    keys == group_keys(items@),
                    e == c.executable@,
                    forall|m: int| 0 <= m < j ==> keys[m] != e,
                decreases items.len() - j,
            {
                j = j + 1;
            }
            let exe = c.executable.clone();
            if j < items.len() {
                items[j].1.push(c);
                proof {
                    assert(keys[j as int] == e);
                    assert forall|k: int| 0 <= k < items.len() implies #[trigger] views(items@[k].1@)
                        == rows.take(i + 1).filter(same_executable(texts(titles@)[k])) by {
                        prefix.lemma_filter_push(c@, same_executable(keys[k]));
                        if k == j {
                            assert(views(items@[k].1@) =~= views(old_items[k].1@).push(c@));
                        } else {
                            assert(keys[k] != keys[j as int]);
                            assert(items@[k] == old_items[k]);
                        }
                    }
                    assert(group_keys(items@) =~= group_keys(old_items));
                }
            } else {
                let mut list: Vec<Command> = Vec::new();
                list.push(c);
                titles.push(exe.clone());
                items.push((exe, list));
                proof {
                    assert(!keys.contains(e));
                    assert(texts(titles@) =~= keys.push(e));
                    assert(group_keys(items@) =~= group_keys(old_items).push(e));
                    assert forall|k: int| 0 <= k < items.len() implies #[trigger] views(items@[k].1@)
                        == rows.take(i + 1).filter(same_executable(texts(titles@)[k])) by {
                        let p = same_executable(texts(titles@)[k]);
                        prefix.lemma_filter_push(c@, p);
                        if k < old_items.len() {
                            assert(items@[k] == old_items[k]);
                            assert(texts(titles@)[k] == keys[k]);
                        } else {
                            assert(prefix.all(|x: CommandView| !p(x))) by {
                                assert forall|m: int| 0 <= m < prefix.len() implies !p(
                                    #[trigger] prefix[m],
                                ) by {
                                    assert(prefix[m].executable != e);
                                }
                            }
                            prefix.lemma_all_neg_filter_empty(p);
                            assert(views(items@[k].1@) =~= seq![c@]);
                            assert(prefix.filter(p).push(c@) =~= seq![c@]);
                        }
                    }
                }
            }
            i = i + 1;
        }
        proof {
            assert(rows.take(i as int) =~= rows);
            lemma_tab_order_distinct(rows);
        }
        let r = App { commands: StatefulList::with_items(items), tabs: TabState::new(titles) };
        proof {
            assert forall|k: int| 0 <= k < r@.titles.len() implies #[trigger] r@.groups[k]
                == views(db_commands@).filter(same_executable(r@.titles[k])) by {
                assert(r@.groups[k] == views(items@[k].1@));
            }
        }
        r
    }

    /// The tab titles, in order.
    pub fn executables(&self) -> (r: Vec<String>)
        ensures
            texts(r@) == self@.titles,
    {
        let mut out: Vec<String> = Vec::new();
        let mut k: usize = 0;
        while k < self.tabs.titles.len()
            invariant
                k <= self.tabs.titles.len(),
                texts(out@) == texts(self.tabs.titles@).take(k as int),
            decreases self.tabs.titles.len() - k,
        {
            let ghost before = out@;
            out.push(self.tabs.titles[k].clone());
            assert(texts(out@) =~= texts(before).push(self.tabs.titles@[k as int]@));
            k = k + 1;
            assert(texts(out@) =~= texts(self.tabs.titles@).take(k as int));
        }
        assert(texts(self.tabs.titles@).take(k as int) =~= texts(self.tabs.titles@));
        out
    }

    /// The commands of the tab titled `executable`; none when no tab has
    /// that title.
    pub fn get_by_executable(&self, executable: &str) -> (r: Vec<Command>)
        requires
            self.wf(),
        ensures
            match self@.titles.index_of_first(executable@) {
                Some(k) => views(r@) == self@.groups[k],
                None => r@.len() == 0,
            },
    {
        match self.commands.position(executable) {
            Some(k) => {
                let list = &self.commands.items[k].1;
                let mut out: Vec<Command> = Vec::new();
                let mut m: usize = 0;
                while m < list.len()
                    invariant
                        m <= list.len(),
                        views(out@) == views(list@).take(m as int),
                    decreases list.len() - m,
                {
                    let ghost before = out@;
                    out.push(list[m].clone());
                    assert(views(out@) =~= views(before).push(list@[m as int]@));
                    m = m + 1;
                    assert(views(out@) =~= views(list@).take(m as int));
                }
                assert(views(list@).take(m as int) =~= views(list@));
                out
            },
            None => Vec::new(),
        }
    }

    /// The title of the tab shown; none when there are no tabs.
    pub fn get_selected_executable(&self) -> (r: Option<String>)
        requires
            self.wf(),
        ensures
            self@.titles.len() == 0 ==> r is None,
            self@.titles.len() > 0 ==> (r matches Some(t) && t@ == self@.titles[self@.tab as int]),
    {
        if self.tabs.titles.len() == 0 {
            None
        } else {
            Some(self.tabs.titles[self.tabs.index].clone())
        }
    }

    /// The selected command of the tab shown; none when no item is selected.
    pub fn get_selected_command(&self) -> (r: Option<Command>)
        requires
            self.wf(),
        ensures
            match selected_command_view(self@) {
                Some(c) => r matches Some(x) && x@ == c,
                None => r is None,
            },
    {
        match self.commands.selected {
            Some(i) => Some(self.commands.items[self.tabs.index].1[i].clone()),
            None => None,
        }
    }

    /// Shows the next tab and clears the selection.
    pub fn next_tab(&mut self)
        requires
            old(self).wf(),
        ensures
            final(self).wf(),
            final(self)@ == next_tab_view(old(self)@),
    {
        if self.tabs.titles.len() > 0 {
            self.tabs.next();
            self.commands.selected = None;
        }
    }

    /// Shows the previous tab and clears the selection.
    pub fn previous_tab(&mut self)
        requires
            old(self).wf(),
        ensures
            final(self).wf(),
            final(self)@ == previous_tab_view(old(self)@),
    {
        if self.tabs.titles.len() > 0 {
            self.tabs.previous();
            self.commands.selected = None;
        }
    }

    /// Selects the next command of the tab shown.
    pub fn next_item(&mut self)
        requires
            old(self).wf(),
        ensures
            final(self).wf(),
            final(self)@ == next_item_view(old(self)@),
    {
        if self.tabs.titles.len() > 0 {
            let k = self.tabs.index;
            proof {
                lemma_first_index_of_distinct(self@.titles, k as int);
            }
            self.commands.next(self.tabs.titles[k].as_str());
        }
    }

    /// Selects the previous command of the tab shown.
    pub fn previous_item(&mut self)
        requires
            old(self).wf(),
        ensures
            final(self).wf(),
            final(self)@ == previous_item_view(old(self)@),
    {
        if self.tabs.titles.len() > 0 {
            let k = self.tabs.index;
            proof {
                lemma_first_index_of_distinct(self@.titles, k as int);
            }
            self.commands.previous(self.tabs.titles[k].as_str());
        }
    }

    /// Applies a key: the arrows move between tabs and items, Enter asks to
    /// copy the selected command and leave (and does nothing while no command
    /// is selected), the quit key leaves, and any other key does nothing.
    pub fn handle_key(&mut self, key: KeyInput) -> (r: AppAction)
        requires
            old(self).wf(),
        ensures
            final(self).wf(),
            match key {
                KeyInput::Quit => r == AppAction::Quit && final(self)@ == old(self)@,
                KeyInput::Right => r == AppAction::Continue && final(self)@ == next_tab_view(
                    old(self)@,
                ),
                KeyInput::Left => r == AppAction::Continue && final(self)@ == previous_tab_view(
                    old(self)@,
                ),
                KeyInput::Down => r == AppAction::Continue && final(self)@ == next_item_view(
                    old(self)@,
                ),
                KeyInput::Up => r == AppAction::Continue && final(self)@ == previous_item_view(
                    old(self)@,
                ),
                KeyInput::Enter => final(self)@ == old(self)@ && match selected_command_view(
                    old(self)@,
                ) {
                    Some(c) => r matches AppAction::CopyAndQuit(t) && t@ == c.command,
                    None => r == AppAction::Continue,
                },
                KeyInput::Other => r == AppAction::Continue && final(self)@ == old(self)@,
            },
    {
        match key {
            KeyInput::Quit => AppAction::Quit,
            KeyInput::Right => {
                self.next_tab();
                AppAction::Continue
            },
            KeyInput::Left => {
                self.previous_tab();
                AppAction::Continue
            },
            KeyInput::Down => {
                self.next_item();
                AppAction::Continue
            },
            KeyInput::Up => {
                self.previous_item();
                AppAction::Continue
            },
            KeyInput::Enter => match self.get_selected_command() {
                Some(c) => AppAction::CopyAndQuit(c.command),
                None => AppAction::Continue,
            },
            KeyInput::Other => AppAction::Continue,
        }
    }
}

} // verus!
