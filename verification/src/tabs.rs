use crate::ticker::Instant;
use itertools::Itertools;
use vstd::multiset::Multiset;
use vstd::prelude::*;
use vstd::relations::{sorted_by, total_ordering};

verus! {

/// Identifies a platform window.
#[derive(Clone, Copy, Debug, PartialEq, Eq, Hash, PartialOrd, Ord, Structural)]
pub struct WindowId(pub u64);

/// A handle to a window of any view type, by its window id.
#[derive(Clone, Copy, Debug, PartialEq, Eq, Hash, Structural)]
pub struct AnyWindowHandle {
    pub id: WindowId,
}

/// One system window tab.
#[derive(Debug)]
pub struct SystemWindowTab {
    pub id: WindowId,
    pub title: String,
    pub handle: AnyWindowHandle,
    pub last_active_at: Instant,
}

/// A tab as a value.
pub struct TabValue {
    pub id: u64,
    pub title: Seq<char>,
    pub handle: u64,
    pub last_active: u64,
}

impl View for SystemWindowTab {
    type V = TabValue;

    open spec fn view(&self) -> TabValue {
        TabValue {
            id: self.id.0,
            title: self.title@,
            handle: self.handle.id.0,
            last_active: self.last_active_at.nanos(),
        }
    }
}

/// The values of a list of tabs.
pub open spec fn tab_values(tabs: Seq<SystemWindowTab>) -> Seq<TabValue> {
    tabs.map_values(|t: SystemWindowTab| t@)
}

impl SystemWindowTab {
    /// A tab for the window behind `handle`, last active at `now`.
    pub fn new(title: String, handle: AnyWindowHandle, now: Instant) -> (r: Self)
        ensures
            r@ == (TabValue { id: handle.id.0, title: title@, handle: handle.id.0, last_active: now.nanos() }),
    {
        SystemWindowTab { id: handle.id, title, handle, last_active_at: now }
    }

    /// A copy of the tab.
    pub fn duplicate(&self) -> (r: Self)
        ensures
            r@ == self@,
    {
        SystemWindowTab { id: self.id, title: self.title.clone(), handle: self.handle, last_active_at: self.last_active_at }
    }

    /// Whether two tabs are equal in every field.
    pub fn same(&self, other: &SystemWindowTab) -> (r: bool)
        ensures
            r == (self@ == other@),
    {
        self.id == other.id && self.handle == other.handle && self.last_active_at.as_nanos()
            == other.last_active_at.as_nanos() && self.title == other.title
    }
}

// ---------------------------------------------------------------------------
// Spec helpers on tab lists and groups
// ---------------------------------------------------------------------------

/// Whether a list of tabs holds a tab of window `id`.
pub open spec fn has_tab(tabs: Seq<TabValue>, id: u64) -> bool {
    exists|i: int| 0 <= i < tabs.len() && #[trigger] tabs[i].id == id
}

/// `k` is the first position of a tab of window `id`.
pub open spec fn is_first_tab(tabs: Seq<TabValue>, id: u64, k: int) -> bool {
    &&& 0 <= k < tabs.len()
    &&& tabs[k].id == id
    &&& forall|j: int| 0 <= j < k ==> #[trigger] tabs[j].id != id
}

/// The first position of a tab of window `id`.
pub open spec fn first_tab(tabs: Seq<TabValue>, id: u64) -> int {
    choose|k: int| is_first_tab(tabs, id, k)
}

/// `k` is the last position among the most recently active tabs.
pub open spec fn is_latest_tab(tabs: Seq<TabValue>, k: int) -> bool {
    &&& 0 <= k < tabs.len()
    &&& forall|j: int| 0 <= j < tabs.len() ==> #[trigger] tabs[j].last_active <= tabs[k].last_active
    &&& forall|j: int| k < j < tabs.len() ==> #[trigger] tabs[j].last_active < tabs[k].last_active
}

/// The last position among the most recently active tabs.
pub open spec fn latest_tab(tabs: Seq<TabValue>) -> int {
    choose|k: int| is_latest_tab(tabs, k)
}

/// A group as a value: its key and its tabs.
pub type GroupValue = (usize, Seq<TabValue>);

/// `k` is the first group holding a tab of window `id`.
pub open spec fn is_first_group(groups: Seq<GroupValue>, id: u64, k: int) -> bool {
    &&& 0 <= k < groups.len()
    &&& has_tab(groups[k].1, id)
    &&& forall|j: int| 0 <= j < k ==> !has_tab(#[trigger] groups[j].1, id)
}

/// Whether any group holds a tab of window `id`.
pub open spec fn in_some_group(groups: Seq<GroupValue>, id: u64) -> bool {
    exists|k: int| 0 <= k < groups.len() && has_tab(#[trigger] groups[k].1, id)
}

/// The first group holding a tab of window `id`.
pub open spec fn first_group(groups: Seq<GroupValue>, id: u64) -> int {
    choose|k: int| is_first_group(groups, id, k)
}

/// Every group holds at least one tab.
pub open spec fn nonempty_groups(groups: Seq<GroupValue>) -> bool {
    forall|k: int| 0 <= k < groups.len() ==> (#[trigger] groups[k]).1.len() > 0
}

/// No two groups share a key.
pub open spec fn distinct_keys(groups: Seq<GroupValue>) -> bool {
    forall|i: int, j: int|
        0 <= i < groups.len() && 0 <= j < groups.len() && #[trigger] groups[i].0 == #[trigger] groups[j].0 ==> i == j
}

proof fn lemma_first_tab_unique(tabs: Seq<TabValue>, id: u64, k: int)
    requires
        is_first_tab(tabs, id, k),
    ensures
        first_tab(tabs, id) == k,
{
    let c = first_tab(tabs, id);
    assert(is_first_tab(tabs, id, c));
    if c < k {
        assert(tabs[c].id != id);
    }
    if k < c {
        assert(tabs[k].id != id);
    }
}

proof fn lemma_first_group_unique(groups: Seq<GroupValue>, id: u64, k: int)
    requires
        is_first_group(groups, id, k),
    ensures
        first_group(groups, id) == k,
{
    let c = first_group(groups, id);
    assert(is_first_group(groups, id, c));
    if c < k {
        assert(!has_tab(groups[c].1, id));
    }
    if k < c {
        assert(!has_tab(groups[k].1, id));
    }
}

proof fn lemma_latest_unique(tabs: Seq<TabValue>, k: int)
    requires
        is_latest_tab(tabs, k),
    ensures
        latest_tab(tabs) == k,
{
    let c = latest_tab(tabs);
    assert(is_latest_tab(tabs, c));
    if c < k {
        assert(tabs[k].last_active < tabs[c].last_active);
        assert(tabs[c].last_active <= tabs[k].last_active);
    }
    if k < c {
        assert(tabs[c].last_active < tabs[k].last_active);
        assert(tabs[k].last_active <= tabs[c].last_active);
    }
}

/// Position of the first tab of window `id`.
fn position_of(tabs: &Vec<SystemWindowTab>, id: WindowId) -> (r: Option<usize>)
    ensures
        r is None <==> !has_tab(tab_values(tabs@), id.0),
        r matches Some(k) ==> is_first_tab(tab_values(tabs@), id.0, k as int) && first_tab(tab_values(tabs@), id.0) == k,
{
    let ghost v = tab_values(tabs@);
    let n = tabs.len();
    let mut i: usize = 0;
    while i < n
        invariant
            n == tabs@.len(),
            v == tab_values(tabs@),
            0 <= i <= n,
            forall|j: int| 0 <= j < i ==> #[trigger] v[j].id != id.0,
        decreases n - i,
    {
        if tabs[i].id == id {
            proof {
                assert(v[i as int].id == id.0);
                lemma_first_tab_unique(v, id.0, i as int);
            }
            return Some(i);
        }
        i += 1;
    }
    proof {
        assert forall|k: int| 0 <= k < v.len() implies #[trigger] v[k].id != id.0 by {}
    }
    None
}

/// Index of the last most recently active tab, if any.
fn latest_index(tabs: &Vec<SystemWindowTab>) -> (r: Option<usize>)
    ensures
        r is None <==> tabs@.len() == 0,
        r matches Some(k) ==> is_latest_tab(tab_values(tabs@), k as int) && latest_tab(tab_values(tabs@)) == k,
{
    let ghost v = tab_values(tabs@);
    let n = tabs.len();
    if n == 0 {
        return None;
    }
    let mut best: usize = 0;
    let mut i: usize = 1;
    while i < n
        invariant
            n == tabs@.len(),
            v == tab_values(tabs@),
            1 <= i <= n,
            best < i,
            forall|j: int| 0 <= j < i ==> #[trigger] v[j].last_active <= v[best as int].last_active,
            forall|j: int| best < j < i ==> #[trigger] v[j].last_active < v[best as int].last_active,
        decreases n - i,
    {
        if tabs[i].last_active_at.as_nanos() >= tabs[best].last_active_at.as_nanos() {
            best = i;
        }
        i += 1;
    }
    proof {
        lemma_latest_unique(v, best as int);
    }
    Some(best)
}


/// The values of a list of groups.
pub open spec fn group_values(groups: Seq<(usize, Vec<SystemWindowTab>)>) -> Seq<GroupValue> {
    groups.map_values(|g: (usize, Vec<SystemWindowTab>)| (g.0, tab_values(g.1@)))
}

/// A controller for managing window tabs: tab groups keyed by number, and
/// whether the tab bar is visible (unset until initialized).
pub struct SystemWindowTabController {
    visible: Option<bool>,
    tab_groups: Vec<(usize, Vec<SystemWindowTab>)>,
}

impl SystemWindowTabController {
    /// The groups, in the controller's order.
    pub closed spec fn groups(&self) -> Seq<GroupValue> {
        group_values(self.tab_groups@)
    }

    /// The visibility setting, unset until initialized.
    pub closed spec fn visibility(&self) -> Option<bool> {
        self.visible
    }

    /// No two groups share a key, and no group is empty.
    pub open spec fn wf(&self) -> bool {
        distinct_keys(self.groups()) && nonempty_groups(self.groups())
    }

    /// Create a new instance of the window tab controller.
    pub fn new() -> (r: Self)
        ensures
            r.wf(),
            r.groups() == Seq::<GroupValue>::empty(),
            r.visibility() is None,
    {
        let r = SystemWindowTabController { visible: None, tab_groups: Vec::new() };
        proof {
            assert(r.groups() =~= Seq::<GroupValue>::empty());
        }
        r
    }

    /// Get all tab groups.
    pub fn tab_groups(&self) -> (r: &[(usize, Vec<SystemWindowTab>)])
        ensures
            group_values(r@) == self.groups(),
    {
        self.tab_groups.as_slice()
    }

    /// Index of the first group holding a tab of window `id`.
    fn group_position(&self, id: WindowId) -> (r: Option<usize>)
        ensures
            r is None <==> !in_some_group(self.groups(), id.0),
            r matches Some(k) ==> is_first_group(self.groups(), id.0, k as int) && first_group(self.groups(), id.0) == k,
    {
        let ghost g = self.groups();
        let n = self.tab_groups.len();
        let mut i: usize = 0;
        while i < n
            invariant
                n == g.len(),
                g == self.groups(),
                0 <= i <= n,
                forall|j: int| 0 <= j < i ==> !has_tab(#[trigger] g[j].1, id.0),
            decreases n - i,
        {
            let found = position_of(&self.tab_groups[i].1, id);
            if found.is_some() {
                proof {
                    assert(g[i as int].1 == tab_values(self.tab_groups@[i as int].1@));
                    lemma_first_group_unique(g, id.0, i as int);
                }
                return Some(i);
            }
            proof {
                assert(g[i as int].1 == tab_values(self.tab_groups@[i as int].1@));
            }
            i += 1;
        }
        proof {
            assert forall|k: int| 0 <= k < g.len() implies !has_tab(#[trigger] g[k].1, id.0) by {}
        }
        None
    }

    /// Get all tabs in the same group as window `id`: the first group
    /// holding a tab of that window.
    pub fn tabs(&self, id: WindowId) -> (r: Option<&Vec<SystemWindowTab>>)
        ensures
            r is None <==> !in_some_group(self.groups(), id.0),
            r matches Some(t) ==> tab_values(t@) == self.groups()[first_group(self.groups(), id.0)].1,
    {
        match self.group_position(id) {
            Some(k) => Some(&self.tab_groups[k].1),
            None => None,
        }
    }

    /// Initialize the visibility, unless it was already set.
    pub fn init_visible(&mut self, visible: bool)
        ensures
            final(self).visibility() == (match old(self).visibility() {
                None => Some(visible),
                Some(v) => Some(v),
            }),
            final(self).groups() == old(self).groups(),
    {
        if self.visible.is_none() {
            self.visible = Some(visible);
        }
    }

    /// Get the visibility; unset counts as not visible.
    pub fn is_visible(&self) -> (r: bool)
        ensures
            r == (self.visibility() == Some(true)),
    {
        match self.visible {
            Some(v) => v,
            None => false,
        }
    }

    /// Set the visibility.
    pub fn set_visible(&mut self, visible: bool)
        ensures
            final(self).visibility() == Some(visible),
            final(self).groups() == old(self).groups(),
    {
        self.visible = Some(visible);
    }

    /// The handle of the group's most recently active tab (the last of equals),
    /// or `None` for an empty group.
    fn latest_handle(tabs: &Vec<SystemWindowTab>) -> (r: Option<AnyWindowHandle>)
        ensures
            tabs@.len() == 0 ==> r is None,
            tabs@.len() > 0 ==> r == Some(AnyWindowHandle {
                id: WindowId(tab_values(tabs@)[latest_tab(tab_values(tabs@))].handle),
            }),
    {
        match latest_index(tabs) {
            Some(k) => Some(tabs[k].handle),
            None => None,
        }
    }

    /// The window to switch to in the group after window `id`'s group
    /// (wrapping around): that group's most recently active tab.
    pub fn get_next_tab_group_window(&self, id: WindowId) -> (r: Option<AnyWindowHandle>)
        ensures
            !in_some_group(self.groups(), id.0) ==> r is None,
            in_some_group(self.groups(), id.0) ==> ({
                let g = self.groups();
                let next = (first_group(g, id.0) + 1) % (g.len() as int);
                let tabs = g[next].1;
                if tabs.len() == 0 {
                    r is None
                } else {
                    r == Some(AnyWindowHandle { id: WindowId(tabs[latest_tab(tabs)].handle) })
                }
            }),
    {
        match self.group_position(id) {
            None => None,
            Some(idx) => {
                proof {
                    assert(self.groups().len() == self.tab_groups@.len());
                    assert(idx < self.tab_groups.len());
                }
                let next_idx = (idx + 1) % self.tab_groups.len();
                Self::latest_handle(&self.tab_groups[next_idx].1)
            },
        }
    }

    /// The window to switch to in the group before window `id`'s group
    /// (wrapping around): that group's most recently active tab.
    pub fn get_prev_tab_group_window(&self, id: WindowId) -> (r: Option<AnyWindowHandle>)
        ensures
            !in_some_group(self.groups(), id.0) ==> r is None,
            in_some_group(self.groups(), id.0) ==> ({
                let g = self.groups();
                let cur = first_group(g, id.0);
                let prev = if cur == 0 { g.len() - 1 } else { cur - 1 };
                let tabs = g[prev].1;
                if tabs.len() == 0 {
                    r is None
                } else {
                    r == Some(AnyWindowHandle { id: WindowId(tabs[latest_tab(tabs)].handle) })
                }
            }),
    {
        match self.group_position(id) {
            None => None,
            Some(idx) => {
                let prev_idx = if idx == 0 { self.tab_groups.len() - 1 } else { idx - 1 };
                Self::latest_handle(&self.tab_groups[prev_idx].1)
            },
        }
    }

    /// The window to activate for "next tab" from window `id`: the tab after
    /// it in its group, wrapping around.
    pub fn select_next_tab(&self, id: WindowId) -> (r: Option<AnyWindowHandle>)
        ensures
            !in_some_group(self.groups(), id.0) ==> r is None,
            in_some_group(self.groups(), id.0) ==> ({
                let tabs = self.groups()[first_group(self.groups(), id.0)].1;
                let next = (first_tab(tabs, id.0) + 1) % (tabs.len() as int);
                r == Some(AnyWindowHandle { id: WindowId(tabs[next].handle) })
            }),
    {
        match self.group_position(id) {
            None => None,
            Some(g) => {
                let tabs = &self.tab_groups[g].1;
                match position_of(tabs, id) {
                    Some(current_index) => {
                        proof {
                            assert(tab_values(tabs@).len() == tabs@.len());
                            assert(current_index < tabs.len());
                        }
                        let next_index = (current_index + 1) % tabs.len();
                        Some(tabs[next_index].handle)
                    },
                    None => {
                        proof {
                            assert(self.groups()[g as int].1 == tab_values(tabs@));
                        }
                        None
                    },
                }
            },
        }
    }

    /// The window to activate for "previous tab" from window `id`: the tab
    /// before it in its group, wrapping around.
    pub fn select_previous_tab(&self, id: WindowId) -> (r: Option<AnyWindowHandle>)
        ensures
            !in_some_group(self.groups(), id.0) ==> r is None,
            in_some_group(self.groups(), id.0) ==> ({
                let tabs = self.groups()[first_group(self.groups(), id.0)].1;
                let cur = first_tab(tabs, id.0);
                let prev = if cur == 0 { tabs.len() - 1 } else { cur - 1 };
                r == Some(AnyWindowHandle { id: WindowId(tabs[prev].handle) })
            }),
    {
        match self.group_position(id) {
            None => None,
            Some(g) => {
                let tabs = &self.tab_groups[g].1;
                match position_of(tabs, id) {
                    Some(current_index) => {
                        let previous_index = if current_index == 0 { tabs.len() - 1 } else { current_index - 1 };
                        Some(tabs[previous_index].handle)
                    },
                    None => {
                        proof {
                            assert(self.groups()[g as int].1 == tab_values(tabs@));
                        }
                        None
                    },
                }
            },
        }
    }

    /// Marks every tab of window `id` as last active at `now`.
    pub fn update_last_active(&mut self, id: WindowId, now: Instant)
        requires
            old(self).wf(),
        ensures
            final(self).wf(),
            final(self).visibility() == old(self).visibility(),
            final(self).groups() == touch_groups(old(self).groups(), id.0, now.nanos()),
    {
        let n = self.tab_groups.len();
        let mut i: usize = 0;
        while i < n
            invariant
                n == self.tab_groups@.len(),
                n == old(self).tab_groups@.len(),
                0 <= i <= n,
                self.visible == old(self).visible,
                forall|k: int| 0 <= k < i ==> #[trigger] group_values(self.tab_groups@)[k]
                    == touch_group(group_values(old(self).tab_groups@)[k], id.0, now.nanos()),
                forall|k: int| i <= k < n ==> #[trigger] self.tab_groups@[k] == old(self).tab_groups@[k],
            decreases n - i,
        {
            let m = self.tab_groups[i].1.len();
            let ghost before = self.tab_groups@;
            let mut j: usize = 0;
            while j < m
                invariant
                    n == self.tab_groups@.len(),
                    0 <= i < n,
                    m == self.tab_groups@[i as int].1@.len(),
                    0 <= j <= m,
                    self.visible == old(self).visible,
                    before.len() == n,
                    old(self).tab_groups@.len() == n,
                    before[i as int] == old(self).tab_groups@[i as int],
                    forall|k: int| 0 <= k < i ==> #[trigger] group_values(before)[k]
                        == touch_group(group_values(old(self).tab_groups@)[k], id.0, now.nanos()),
                    forall|k: int| i <= k < n ==> #[trigger] before[k] == old(self).tab_groups@[k],
                    forall|k: int| 0 <= k < n && k != i ==> #[trigger] self.tab_groups@[k] == before[k],
                    self.tab_groups@[i as int].0 == before[i as int].0,
                    before[i as int].1@.len() == m,
                    forall|t: int| 0 <= t < j ==> #[trigger] self.tab_groups@[i as int].1@[t]@
                        == touch_tab(before[i as int].1@[t]@, id.0, now.nanos()),
                    forall|t: int| j <= t < m ==> #[trigger] self.tab_groups@[i as int].1@[t] == before[i as int].1@[t],
                decreases m - j,
            {
                if self.tab_groups[i].1[j].id == id {
                    self.tab_groups[i].1[j].last_active_at = now;
                }
                j += 1;
            }
            proof {
                let gv = group_values(self.tab_groups@);
                let ov = group_values(old(self).tab_groups@);
                assert(gv[i as int].1 =~= touch_group(ov[i as int], id.0, now.nanos()).1);
                assert forall|k: int| 0 <= k < i + 1 implies #[trigger] group_values(self.tab_groups@)[k]
                    == touch_group(group_values(old(self).tab_groups@)[k], id.0, now.nanos()) by {
                    if k < i {
                        assert(self.tab_groups@[k] == before[k]);
                        assert(group_values(self.tab_groups@)[k] == group_values(before)[k]);
                    }
                }
            }
            i += 1;
        }
        proof {
            assert(self.groups() =~= touch_groups(old(self).groups(), id.0, now.nanos()));
            assert forall|a: int, b: int|
                0 <= a < self.groups().len() && 0 <= b < self.groups().len()
                    && #[trigger] self.groups()[a].0 == #[trigger] self.groups()[b].0 implies a == b by {
                assert(self.groups()[a].0 == old(self).groups()[a].0);
                assert(self.groups()[b].0 == old(self).groups()[b].0);
            }
        }
    }

    /// Sets the title of the first tab of window `id` (in group order).
    pub fn update_tab_title(&mut self, id: WindowId, title: String)
        requires
            old(self).wf(),
        ensures
            final(self).wf(),
            final(self).visibility() == old(self).visibility(),
            !in_some_group(old(self).groups(), id.0) ==> final(self).groups() == old(self).groups(),
            in_some_group(old(self).groups(), id.0) ==> ({
                let g = old(self).groups();
                let gi = first_group(g, id.0);
                let ti = first_tab(g[gi].1, id.0);
                final(self).groups() == g.update(gi, (g[gi].0, g[gi].1.update(ti, TabValue { title: title@, ..g[gi].1[ti] })))
            }),
    {
        match self.group_position(id) {
            None => {},
            Some(gi) => {
                match position_of(&self.tab_groups[gi].1, id) {
                    None => {
                        proof {
                            assert(self.groups()[gi as int].1 == tab_values(self.tab_groups@[gi as int].1@));
                        }
                    },
                    Some(ti) => {
                        proof {
                            assert(self.groups()[gi as int].1 == tab_values(self.tab_groups@[gi as int].1@));
                        }
                        if self.tab_groups[gi].1[ti].title == title {
                            proof {
                                let g = old(self).groups();
                                assert(g[gi as int].1[ti as int].title == title@);
                                assert(g[gi as int].1.update(ti as int, TabValue { title: title@, ..g[gi as int].1[ti as int] })
                                    =~= g[gi as int].1);
                                assert(g.update(gi as int, (g[gi as int].0, g[gi as int].1)) =~= g);
                            }
                            return;
                        }
                        self.tab_groups[gi].1[ti].title = title;
                        proof {
                            let g = old(self).groups();
                            let ng = self.groups();
                            assert(ng[gi as int].1 =~= g[gi as int].1.update(ti as int, TabValue { title: title@, ..g[gi as int].1[ti as int] }));
                            assert(ng =~= g.update(gi as int, (g[gi as int].0, g[gi as int].1.update(ti as int, TabValue { title: title@, ..g[gi as int].1[ti as int] }))));
                            assert forall|a: int, b: int|
                                0 <= a < ng.len() && 0 <= b < ng.len() && #[trigger] ng[a].0 == #[trigger] ng[b].0 implies a == b by {
                                assert(ng[a].0 == g[a].0);
                                assert(ng[b].0 == g[b].0);
                            }
                        }
                    },
                }
            },
        }
    }

    /// Moves the first tab of window `id` to position `ix` of its group
    /// (the first group holding it); nothing happens when `ix` is out of range.
    pub fn update_tab_position(&mut self, id: WindowId, ix: usize)
        requires
            old(self).wf(),
        ensures
            final(self).wf(),
            final(self).visibility() == old(self).visibility(),
            !in_some_group(old(self).groups(), id.0) ==> final(self).groups() == old(self).groups(),
            in_some_group(old(self).groups(), id.0) ==> ({
                let g = old(self).groups();
                let gi = first_group(g, id.0);
                final(self).groups() == g.update(gi, (g[gi].0, move_tab(g[gi].1, first_tab(g[gi].1, id.0), ix as int)))
            }),
    {
        match self.group_position(id) {
            None => {},
            Some(gi) => {
                proof {
                    assert(self.groups()[gi as int].1 == tab_values(self.tab_groups@[gi as int].1@));
                }
                match position_of(&self.tab_groups[gi].1, id) {
                    None => {},
                    Some(current_pos) => {
                        let len = self.tab_groups[gi].1.len();
                        if ix < len && current_pos != ix {
                            let window_tab = self.tab_groups[gi].1.remove(current_pos);
                            self.tab_groups[gi].1.insert(ix, window_tab);
                            proof {
                                let g = old(self).groups();
                                let ng = self.groups();
                                let o = old(self).tab_groups@[gi as int].1@;
                                assert(self.tab_groups@[gi as int].1@ == o.remove(current_pos as int).insert(ix as int, o[current_pos as int]));
                                assert(ng[gi as int].1 =~= move_tab(g[gi as int].1, current_pos as int, ix as int));
                                assert(ng =~= g.update(gi as int, (g[gi as int].0, move_tab(g[gi as int].1, current_pos as int, ix as int))));
                                assert forall|a: int, b: int|
                                    0 <= a < ng.len() && 0 <= b < ng.len() && #[trigger] ng[a].0 == #[trigger] ng[b].0 implies a == b by {
                                    assert(ng[a].0 == g[a].0);
                                    assert(ng[b].0 == g[b].0);
                                }
                            }
                        } else {
                            proof {
                                let g = old(self).groups();
                                assert(g.update(gi as int, (g[gi as int].0, g[gi as int].1)) =~= g);
                            }
                        }
                    },
                }
            },
        }
    }

    /// Removes the first tab of window `id` from every group, drops the
    /// groups left empty, and returns the tab removed from the last group
    /// (in group order) that held one.
    pub fn remove_tab(&mut self, id: WindowId) -> (r: Option<SystemWindowTab>)
        requires
            old(self).wf(),
        ensures
            final(self).wf(),
            final(self).visibility() == old(self).visibility(),
            final(self).groups() == strip_groups(old(self).groups(), id.0),
            r is None <==> !in_some_group(old(self).groups(), id.0),
            r matches Some(t) ==> exists|k: int|
                is_last_group(old(self).groups(), id.0, k)
                    && t@ == old(self).groups()[k].1[first_tab(old(self).groups()[k].1, id.0)],
    {
        let mut old_groups: Vec<(usize, Vec<SystemWindowTab>)> = Vec::new();
        std::mem::swap(&mut old_groups, &mut self.tab_groups);
        let ghost og = group_values(old_groups@);
        let n = old_groups.len();
        let mut removed_tab: Option<SystemWindowTab> = None;
        let mut i: usize = 0;
        while i < n
            invariant
                n == old_groups@.len(),
                og.len() == n,
                og == old(self).groups(),
                0 <= i <= n,
                forall|k: int| i <= k < n ==> #[trigger] group_values(old_groups@)[k] == og[k],
                group_values(self.tab_groups@) == strip_groups(og.subrange(0, i as int), id.0),
                self.visible == old(self).visible,
                removed_tab is None <==> !in_some_group(og.subrange(0, i as int), id.0),
                removed_tab matches Some(t) ==> exists|k: int|
                    is_last_group(og.subrange(0, i as int), id.0, k) && t@ == og[k].1[first_tab(og[k].1, id.0)],
            decreases n - i,
        {
            let ghost gv = og[i as int];
            let ghost prev = old_groups@[i as int];
            let ghost before_swap = old_groups@;
            proof {
                assert(group_values(old_groups@)[i as int] == og[i as int]);
                assert((prev.0, tab_values(prev.1@)) == gv);
            }
            let mut group: (usize, Vec<SystemWindowTab>) = (0, Vec::new());
            std::mem::swap(&mut group, &mut old_groups[i]);
            proof {
                assert(group == prev);
            }
            let pos = position_of(&group.1, id);
            match pos {
                Some(p) => {
                    let t = group.1.remove(p);
                    proof {
                        assert(tab_values(group.1@) =~= gv.1.remove(p as int));
                    }
                    removed_tab = Some(t);
                },
                None => {},
            }
            proof {
                assert(og.subrange(0, i as int + 1).drop_last() =~= og.subrange(0, i as int));
                assert(og.subrange(0, i as int + 1).last() == gv);
                assert((group.0, tab_values(group.1@)) == strip_group(gv, id.0));
            }
            if group.1.len() > 0 {
                self.tab_groups.push(group);
                proof {
                    assert(group_values(self.tab_groups@) =~= strip_groups(og.subrange(0, i as int), id.0).push(
                        strip_group(gv, id.0),
                    ));
                }
            }
            proof {
                let pre = og.subrange(0, i as int);
                let post = og.subrange(0, i as int + 1);
                assert forall|k: int| i + 1 <= k < n implies #[trigger] group_values(old_groups@)[k] == og[k] by {
                    assert(old_groups@[k] == before_swap[k]);
                    assert(group_values(before_swap)[k] == og[k]);
                }
                if has_tab(gv.1, id.0) {
                    assert(is_last_group(post, id.0, i as int));
                    assert(in_some_group(post, id.0));
                } else {
                    assert forall|k: int| 0 <= k < post.len() && has_tab(#[trigger] post[k].1, id.0) implies k < i by {}
                    if in_some_group(post, id.0) {
                        let k = choose|k: int| 0 <= k < post.len() && has_tab(#[trigger] post[k].1, id.0);
                        assert(pre[k] == post[k]);
                        assert(in_some_group(pre, id.0));
                    }
                    if in_some_group(pre, id.0) {
                        let k = choose|k: int| 0 <= k < pre.len() && has_tab(#[trigger] pre[k].1, id.0);
                        assert(pre[k] == post[k]);
                    }
                    if removed_tab is Some {
                        let k = choose|k: int| is_last_group(pre, id.0, k) && removed_tab.unwrap()@ == og[k].1[first_tab(og[k].1, id.0)];
                        assert(is_last_group(post, id.0, k));
                    }
                }
            }
            i += 1;
        }
        proof {
            assert(og.subrange(0, n as int) =~= og);
            let ng = self.groups();
            lemma_strip_groups_keys(og, id.0);
        }
        removed_tab
    }

    /// Removes the tab of window `id` (as [`Self::remove_tab`] does) and, if
    /// there was one, puts it alone into a new group keyed one past the
    /// largest remaining key (0 when no group remains).
    pub fn move_tab_to_new_window(&mut self, id: WindowId)
        requires
            old(self).wf(),
            forall|k: int| 0 <= k < old(self).groups().len() ==> #[trigger] old(self).groups()[k].0 < usize::MAX,
        ensures
            final(self).wf(),
            final(self).visibility() == old(self).visibility(),
            !in_some_group(old(self).groups(), id.0) ==> final(self).groups() == old(self).groups(),
            in_some_group(old(self).groups(), id.0) ==> exists|t: TabValue| {
                &&& final(self).groups() == strip_groups(old(self).groups(), id.0).push(
                    (next_key(strip_groups(old(self).groups(), id.0)), seq![t]),
                )
                &&& exists|k: int| is_last_group(old(self).groups(), id.0, k)
                    && t == old(self).groups()[k].1[first_tab(old(self).groups()[k].1, id.0)]
            },
    {
        let ghost og = self.groups();
        let removed = self.remove_tab(id);
        match removed {
            None => {
                proof {
                    lemma_strip_groups_absent(og, id.0);
                }
            },
            Some(tab) => {
                proof {
                    lemma_strip_groups_keys_bounded(og, id.0);
                }
                let new_group_id = self.max_key_plus_one();
                let ghost tv = tab@;
                let mut v: Vec<SystemWindowTab> = Vec::new();
                v.push(tab);
                self.tab_groups.push((new_group_id, v));
                proof {
                    let sg = strip_groups(og, id.0);
                    assert(tab_values(v@) =~= seq![tv]);
                    assert(self.groups() =~= sg.push((next_key(sg), seq![tv])));
                    let ng = self.groups();
                    assert forall|a: int, b: int|
                        0 <= a < ng.len() && 0 <= b < ng.len() && #[trigger] ng[a].0 == #[trigger] ng[b].0 implies a == b by {
                        if a < sg.len() && b == sg.len() {
                            assert(ng[a].0 < next_key(sg));
                        }
                        if b < sg.len() && a == sg.len() {
                            assert(ng[b].0 < next_key(sg));
                        }
                        if a < sg.len() && b < sg.len() {
                            assert(ng[a] == sg[a]);
                            assert(ng[b] == sg[b]);
                        }
                    }
                }
            },
        }
    }

    /// One past the largest group key, or 0 when there are no groups.
    fn max_key_plus_one(&self) -> (r: usize)
        requires
            forall|k: int| 0 <= k < self.groups().len() ==> #[trigger] self.groups()[k].0 < usize::MAX,
        ensures
            r == next_key(self.groups()),
            forall|k: int| 0 <= k < self.groups().len() ==> #[trigger] self.groups()[k].0 < r,
    {
        let ghost g = self.groups();
        let n = self.tab_groups.len();
        let mut best: Option<usize> = None;
        let mut i: usize = 0;
        while i < n
            invariant
                n == g.len(),
                g == self.groups(),
                0 <= i <= n,
                forall|k: int| 0 <= k < g.len() ==> #[trigger] g[k].0 < usize::MAX,
                best is None <==> i == 0,
                best matches Some(b) ==> b == max_key(g.subrange(0, i as int)),
            decreases n - i,
        {
            let k = self.tab_groups[i].0;
            proof {
                assert(g[i as int].0 == k);
                assert(g.subrange(0, i as int + 1).drop_last() =~= g.subrange(0, i as int));
            }
            best = match best {
                None => Some(k),
                Some(b) => Some(if k > b { k } else { b }),
            };
            i += 1;
        }
        proof {
            assert(g.subrange(0, n as int) =~= g);
            if n > 0 {
                lemma_max_key_bounds(g);
            }
        }
        match best {
            None => 0,
            Some(b) => b + 1,
        }
    }

    /// Index of the first group whose window ids, as a multiset, are the
    /// ids in `expected` (given sorted ascending).
    fn first_matching_group(&self, expected: &Vec<u64>) -> (r: Option<usize>)
        requires
            sorted_by(expected@, ascending()),
        ensures
            r is None ==> forall|k: int| 0 <= k < self.groups().len()
                ==> !group_matches(#[trigger] self.groups()[k], expected@.to_multiset()),
            r matches Some(k) ==> is_first_match(self.groups(), expected@.to_multiset(), k as int),
    {
        let ghost g = self.groups();
        let n = self.tab_groups.len();
        let mut i: usize = 0;
        while i < n
            invariant
                n == g.len(),
                g == self.groups(),
                0 <= i <= n,
                sorted_by(expected@, ascending()),
                forall|k: int| 0 <= k < i ==> !group_matches(#[trigger] g[k], expected@.to_multiset()),
            decreases n - i,
        {
            let ids = window_ids(&self.tab_groups[i].1);
            let sorted = sorted_ids(ids);
            proof {
                assert(g[i as int].1 == tab_values(self.tab_groups@[i as int].1@));
                lemma_sorted_eq_iff_same_multiset(sorted@, expected@);
            }
            if same_ids(&sorted, expected) {
                return Some(i);
            }
            i += 1;
        }
        None
    }

    /// Inserts a tab into a tab group. `tabs` lists the tabs of the window's
    /// group as the platform reports them, including window `id`'s own tab.
    /// If some group holds exactly the other windows of `tabs`, the tab is
    /// appended to the first such group; otherwise `tabs` becomes a new group
    /// under a key no group uses: the current number of groups when that is
    /// free, else the smallest free key. No existing group is replaced.
    pub fn add_tab(&mut self, id: WindowId, tabs: Vec<SystemWindowTab>)
        requires
            old(self).wf(),
        ensures
            final(self).wf(),
            final(self).visibility() == old(self).visibility(),
            !has_tab(tab_values(tabs@), id.0) ==> final(self).groups() == old(self).groups(),
            has_tab(tab_values(tabs@), id.0) ==> final(self).groups() == added_groups(
                old(self).groups(),
                tab_values(tabs@),
                id.0,
            ),
    {
        let ghost tv = tab_values(tabs@);
        let ghost g0 = self.groups();
        let pos = position_of(&tabs, id);
        let p = match pos {
            None => { return; },
            Some(p) => p,
        };
        let tab = tabs[p].duplicate();
        let mut others: Vec<u64> = Vec::new();
        let m = tabs.len();
        let mut j: usize = 0;
        while j < m
            invariant
                m == tabs@.len(),
                tv == tab_values(tabs@),
                0 <= j <= m,
                others@ == other_ids(tv.subrange(0, j as int), id.0),
            decreases m - j,
        {
            proof {
                assert(tv.subrange(0, j as int + 1).drop_last() =~= tv.subrange(0, j as int));
            }
            if tabs[j].id != id {
                others.push(tabs[j].id.0);
            }
            j += 1;
        }
        proof {
            assert(tv.subrange(0, m as int) =~= tv);
        }
        let expected = sorted_ids(others);
        let ghost exp = other_ids(tv, id.0).to_multiset();
        match self.first_matching_group(&expected) {
            Some(k) => {
                let ghost tab_v = tab@;
                self.tab_groups[k].1.push(tab);
                proof {
                    let ng = self.groups();
                    assert(tab_v == tv[first_tab(tv, id.0)]);
                    assert(ng[k as int].1 =~= g0[k as int].1.push(tab_v));
                    assert(ng =~= g0.update(k as int, (g0[k as int].0, g0[k as int].1.push(tab_v))));
                    lemma_first_match_unique(g0, exp, k as int);
                    assert(exists|i: int| is_first_match(g0, exp, i));
                    assert forall|a: int, b: int|
                        0 <= a < ng.len() && 0 <= b < ng.len() && #[trigger] ng[a].0 == #[trigger] ng[b].0 implies a == b by {
                        assert(ng[a].0 == g0[a].0);
                        assert(ng[b].0 == g0[b].0);
                    }
                    assert forall|i: int| 0 <= i < ng.len() implies (#[trigger] ng[i]).1.len() > 0 by {
                        if i != k {
                            assert(ng[i] == g0[i]);
                        }
                    }
                }
            },
            None => {
                proof {
                    assert(!exists|i: int| is_first_match(g0, exp, i));
                }
                let new_group_id = self.fresh_key();
                self.tab_groups.push((new_group_id, tabs));
                proof {
                    let ng = self.groups();
                    assert(ng =~= g0.push((new_group_id, tv)));
                    assert forall|a: int, b: int|
                        0 <= a < ng.len() && 0 <= b < ng.len() && #[trigger] ng[a].0 == #[trigger] ng[b].0 implies a == b by {
                        if a < g0.len() && b < g0.len() {
                            assert(ng[a] == g0[a]);
                            assert(ng[b] == g0[b]);
                        }
                        if a < g0.len() && b == g0.len() {
                            assert(ng[a] == g0[a]);
                        }
                        if b < g0.len() && a == g0.len() {
                            assert(ng[b] == g0[b]);
                        }
                    }
                    assert forall|i: int| 0 <= i < ng.len() implies (#[trigger] ng[i]).1.len() > 0 by {
                        if i < g0.len() {
                            assert(ng[i] == g0[i]);
                        }
                    }
                }
            },
        }
    }

    /// Merges all tab groups into a single group keyed 0: window `id`'s group
    /// first, then, group by group, every tab not already in it.
    pub fn merge_all_windows(&mut self, id: WindowId)
        requires
            old(self).wf(),
        ensures
            final(self).wf(),
            final(self).visibility() == old(self).visibility(),
            !in_some_group(old(self).groups(), id.0) ==> final(self).groups() == old(self).groups(),
            in_some_group(old(self).groups(), id.0) ==> ({
                let g = old(self).groups();
                let initial = g[first_group(g, id.0)].1;
                final(self).groups() == seq![(0usize, initial + merge_rest(g, initial))]
            }),
    {
        let ghost g0 = self.groups();
        let gi = match self.group_position(id) {
            None => { return; },
            Some(gi) => gi,
        };
        let initial = copy_tabs(&self.tab_groups[gi].1);
        let ghost init = tab_values(initial@);
        proof {
            assert(g0[gi as int].1 == tab_values(self.tab_groups@[gi as int].1@));
            assert(init.len() > 0);
        }
        let mut all_tabs = copy_tabs(&initial);
        let n = self.tab_groups.len();
        let mut i: usize = 0;
        while i < n
            invariant
                n == g0.len(),
                g0 == self.groups(),
                init == tab_values(initial@),
                0 <= i <= n,
                tab_values(all_tabs@) == init + merge_rest(g0.subrange(0, i as int), init),
            decreases n - i,
        {
            let m = self.tab_groups[i].1.len();
            let ghost gt = g0[i as int].1;
            proof {
                assert(gt == tab_values(self.tab_groups@[i as int].1@));
                assert(g0.subrange(0, i as int + 1).drop_last() =~= g0.subrange(0, i as int));
            }
            let mut j: usize = 0;
            while j < m
                invariant
                    n == g0.len(),
                    g0 == self.groups(),
                    0 <= i < n,
                    m == gt.len(),
                    gt == tab_values(self.tab_groups@[i as int].1@),
                    init == tab_values(initial@),
                    0 <= j <= m,
                    tab_values(all_tabs@) == init + merge_rest(g0.subrange(0, i as int), init) + keep_new(
                        gt.subrange(0, j as int),
                        init,
                    ),
                decreases m - j,
            {
                let present = contains_tab(&initial, &self.tab_groups[i].1[j]);
                proof {
                    assert(gt.subrange(0, j as int + 1).drop_last() =~= gt.subrange(0, j as int));
                    assert(gt.subrange(0, j as int + 1).last() == gt[j as int]);
                    assert(self.tab_groups@[i as int].1@[j as int]@ == gt[j as int]);
                    assert(present == init.contains(gt[j as int]));
                }
                if !present {
                    let t = self.tab_groups[i].1[j].duplicate();
                    let ghost before = all_tabs@;
                    all_tabs.push(t);
                    proof {
                        assert(t@ == gt[j as int]);
                        assert(tab_values(all_tabs@) =~= tab_values(before).push(t@));
                        assert(keep_new(gt.subrange(0, j as int + 1), init) == keep_new(gt.subrange(0, j as int), init).push(gt[j as int]));
                        assert(tab_values(all_tabs@) =~= init + merge_rest(g0.subrange(0, i as int), init) + keep_new(
                            gt.subrange(0, j as int + 1),
                            init,
                        ));
                    }
                }
                j += 1;
            }
            proof {
                assert(gt.subrange(0, m as int) =~= gt);
                assert(g0.subrange(0, i as int + 1).last() == g0[i as int]);
                assert(init + merge_rest(g0.subrange(0, i as int + 1), init) =~= init + merge_rest(
                    g0.subrange(0, i as int),
                    init,
                ) + keep_new(gt, init));
            }
            i += 1;
        }
        proof {
            assert(g0.subrange(0, n as int) =~= g0);
        }
        let mut merged: Vec<(usize, Vec<SystemWindowTab>)> = Vec::new();
        merged.push((0, all_tabs));
        self.tab_groups = merged;
        proof {
            let ng = self.groups();
            assert(ng =~= seq![(0usize, init + merge_rest(g0, init))]);
            assert(ng[0].1.len() >= init.len());
        }
    }


    /// The key for a new group: see [`fresh_key`].
    fn fresh_key(&self) -> (r: usize)
        ensures
            r as int == fresh_key(self.groups()),
            !key_used(self.groups(), r as int),
    {
        let ghost g = self.groups();
        let n = self.tab_groups.len();
        match self.key_position(n) {
            None => {
                return n;
            },
            Some(_) => {},
        }
        proof {
            lemma_some_key_free(g);
        }
        let mut c: usize = 0;
        loop
            invariant
                g == self.groups(),
                n == g.len(),
                c <= n,
                key_used(g, n as int),
                forall|d: int| 0 <= d < c ==> key_used(g, d),
                exists|f: int| 0 <= f <= g.len() && !key_used(g, f),
            decreases n - c,
        {
            match self.key_position(c) {
                None => {
                    proof {
                        assert(is_smallest_free(g, c as int));
                        let ch = choose|x: int| is_smallest_free(g, x);
                        lemma_smallest_free_unique(g, c as int, ch);
                    }
                    return c;
                },
                Some(k) => {
                    proof {
                        assert(g[k as int].0 == c);
                        assert(key_used(g, c as int));
                        let f = choose|f: int| 0 <= f <= g.len() && !key_used(g, f);
                        if f <= c {
                            if f < c {
                                assert(key_used(g, f));
                            }
                        }
                        assert(c < n);
                    }
                    c = c + 1;
                },
            }
        }
    }

    fn key_position(&self, key: usize) -> (r: Option<usize>)
        ensures
            r is None ==> forall|k: int| 0 <= k < self.groups().len() ==> #[trigger] self.groups()[k].0 != key,
            r matches Some(k) ==> k < self.groups().len() && self.groups()[k as int].0 == key,
    {
        let n = self.tab_groups.len();
        let mut i: usize = 0;
        while i < n
            invariant
                n == self.groups().len(),
                0 <= i <= n,
                forall|k: int| 0 <= k < i ==> #[trigger] self.groups()[k].0 != key,
            decreases n - i,
        {
            if self.tab_groups[i].0 == key {
                return Some(i);
            }
            i += 1;
        }
        None
    }
}

/// The tabs of `tabs` that are not in `initial`, in order.
pub open spec fn keep_new(tabs: Seq<TabValue>, initial: Seq<TabValue>) -> Seq<TabValue>
    decreases tabs.len(),
{
    if tabs.len() == 0 {
        Seq::empty()
    } else {
        let rest = keep_new(tabs.drop_last(), initial);
        if initial.contains(tabs.last()) { rest } else { rest.push(tabs.last()) }
    }
}

/// For each group in order, its tabs that are not in `initial`, concatenated.
pub open spec fn merge_rest(groups: Seq<GroupValue>, initial: Seq<TabValue>) -> Seq<TabValue>
    decreases groups.len(),
{
    if groups.len() == 0 {
        Seq::empty()
    } else {
        merge_rest(groups.drop_last(), initial) + keep_new(groups.last().1, initial)
    }
}

/// A copy of a list of tabs.
fn copy_tabs(tabs: &Vec<SystemWindowTab>) -> (r: Vec<SystemWindowTab>)
    ensures
        tab_values(r@) == tab_values(tabs@),
{
    let mut out: Vec<SystemWindowTab> = Vec::new();
    let n = tabs.len();
    let mut i: usize = 0;
    while i < n
        invariant
            n == tabs@.len(),
            0 <= i <= n,
            tab_values(out@) == tab_values(tabs@).subrange(0, i as int),
        decreases n - i,
    {
        let d = tabs[i].duplicate();
        let ghost before = out@;
        out.push(d);
        proof {
            assert(d@ == tab_values(tabs@)[i as int]);
            assert(out@ == before.push(d));
            assert(tab_values(out@) =~= tab_values(before).push(d@));
        }
        i += 1;
        proof {
            assert(tab_values(out@) =~= tab_values(tabs@).subrange(0, i as int));
        }
    }
    proof {
        assert(tab_values(out@) =~= tab_values(tabs@));
    }
    out
}

/// Whether `tabs` holds a tab equal to `tab` in every field.
fn contains_tab(tabs: &Vec<SystemWindowTab>, tab: &SystemWindowTab) -> (r: bool)
    ensures
        r == tab_values(tabs@).contains(tab@),
{
    let n = tabs.len();
    let mut i: usize = 0;
    while i < n
        invariant
            n == tabs@.len(),
            0 <= i <= n,
            forall|k: int| 0 <= k < i ==> tab_values(tabs@)[k] != tab@,
        decreases n - i,
    {
        if tabs[i].same(tab) {
            proof {
                assert(tab_values(tabs@)[i as int] == tab@);
            }
            return true;
        }
        i += 1;
    }
    false
}

/// The groups after adding window `id`'s tab with the platform's `tabs` list
/// (which holds that tab).
pub open spec fn added_groups(groups: Seq<GroupValue>, tabs: Seq<TabValue>, id: u64) -> Seq<GroupValue> {
    let tab = tabs[first_tab(tabs, id)];
    let expected = other_ids(tabs, id).to_multiset();
    if exists|k: int| is_first_match(groups, expected, k) {
        let k = choose|k: int| is_first_match(groups, expected, k);
        groups.update(k, (groups[k].0, groups[k].1.push(tab)))
    } else {
        groups.push((fresh_key(groups) as usize, tabs))
    }
}

/// Whether some group uses `key`.
pub open spec fn key_used(groups: Seq<GroupValue>, key: int) -> bool {
    exists|j: int| 0 <= j < groups.len() && #[trigger] groups[j].0 == key
}

/// `c` is the smallest key no group uses.
pub open spec fn is_smallest_free(groups: Seq<GroupValue>, c: int) -> bool {
    &&& 0 <= c
    &&& !key_used(groups, c)
    &&& forall|d: int| 0 <= d < c ==> key_used(groups, d)
}

/// The key for a new group: the number of groups when no group uses it,
/// else the smallest key no group uses.
pub open spec fn fresh_key(groups: Seq<GroupValue>) -> int {
    if !key_used(groups, groups.len() as int) {
        groups.len() as int
    } else {
        choose|c: int| is_smallest_free(groups, c)
    }
}

/// Some key up to the number of groups is free: the groups cannot use more
/// keys than there are groups.
proof fn lemma_some_key_free(groups: Seq<GroupValue>)
    ensures
        exists|c: int| 0 <= c <= groups.len() && !key_used(groups, c),
{
    broadcast use vstd::seq_lib::seq_to_set_is_finite;
    let n = groups.len() as int;
    if forall|c: int| 0 <= c <= n ==> key_used(groups, c) {
        let keys = groups.map_values(|g: GroupValue| g.0 as int);
        let range = vstd::set_lib::set_int_range(0, n + 1);
        vstd::set_lib::lemma_int_range(0, n + 1);
        keys.lemma_cardinality_of_set();
        assert forall|c: int| range.contains(c) implies keys.to_set().contains(c) by {
            assert(key_used(groups, c));
            let j = choose|j: int| 0 <= j < groups.len() && #[trigger] groups[j].0 == c;
            assert(keys[j] == c);
        }
        vstd::set_lib::lemma_len_subset(range, keys.to_set());
        assert(false);
    }
}

/// The smallest free key is unique.
proof fn lemma_smallest_free_unique(groups: Seq<GroupValue>, c: int, d: int)
    requires
        is_smallest_free(groups, c),
        is_smallest_free(groups, d),
    ensures
        c == d,
{
    if c < d {
        assert(key_used(groups, c));
    }
    if d < c {
        assert(key_used(groups, d));
    }
}

/// The window ids of `tabs` other than `id`, in order.
pub open spec fn other_ids(tabs: Seq<TabValue>, id: u64) -> Seq<u64>
    decreases tabs.len(),
{
    if tabs.len() == 0 {
        Seq::empty()
    } else {
        let rest = other_ids(tabs.drop_last(), id);
        if tabs.last().id != id { rest.push(tabs.last().id) } else { rest }
    }
}

/// The window ids of `tabs`, in order.
pub open spec fn ids_of(tabs: Seq<TabValue>) -> Seq<u64> {
    tabs.map_values(|t: TabValue| t.id)
}

/// Whether a group holds exactly the windows in `expected`.
pub open spec fn group_matches(g: GroupValue, expected: Multiset<u64>) -> bool {
    ids_of(g.1).to_multiset() == expected
}

/// `k` is the first group holding exactly the windows in `expected`.
pub open spec fn is_first_match(groups: Seq<GroupValue>, expected: Multiset<u64>, k: int) -> bool {
    &&& 0 <= k < groups.len()
    &&& group_matches(groups[k], expected)
    &&& forall|j: int| 0 <= j < k ==> !group_matches(#[trigger] groups[j], expected)
}

proof fn lemma_first_match_unique(groups: Seq<GroupValue>, expected: Multiset<u64>, k: int)
    requires
        is_first_match(groups, expected, k),
    ensures
        (choose|i: int| is_first_match(groups, expected, i)) == k,
{
    let c = choose|i: int| is_first_match(groups, expected, i);
    assert(is_first_match(groups, expected, c));
    if c < k {
        assert(!group_matches(groups[c], expected));
    }
    if k < c {
        assert(!group_matches(groups[k], expected));
    }
}

/// Ascending order on window ids.
pub open spec fn ascending() -> spec_fn(u64, u64) -> bool {
    |a: u64, b: u64| a <= b
}

/// `itertools::Itertools::sorted` (collected into a `Vec`): the same ids in
/// ascending order.
#[verifier::external_body]
fn sorted_ids(ids: Vec<u64>) -> (r: Vec<u64>)
    ensures
        r@.to_multiset() == ids@.to_multiset(),
        sorted_by(r@, ascending()),
{
    ids.into_iter().sorted().collect()
}

/// The window ids of a group's tabs, in order.
fn window_ids(tabs: &Vec<SystemWindowTab>) -> (r: Vec<u64>)
    ensures
        r@ == ids_of(tab_values(tabs@)),
{
    let mut out: Vec<u64> = Vec::new();
    let n = tabs.len();
    let mut i: usize = 0;
    while i < n
        invariant
            n == tabs@.len(),
            0 <= i <= n,
            out@ == ids_of(tab_values(tabs@)).subrange(0, i as int),
        decreases n - i,
    {
        out.push(tabs[i].id.0);
        i += 1;
        proof {
            assert(out@ =~= ids_of(tab_values(tabs@)).subrange(0, i as int));
        }
    }
    proof {
        assert(out@ =~= ids_of(tab_values(tabs@)));
    }
    out
}

/// Whether two id lists are equal.
fn same_ids(a: &Vec<u64>, b: &Vec<u64>) -> (r: bool)
    ensures
        r == (a@ == b@),
{
    if a.len() != b.len() {
        return false;
    }
    let n = a.len();
    let mut i: usize = 0;
    while i < n
        invariant
            n == a@.len(),
            n == b@.len(),
            0 <= i <= n,
            forall|k: int| 0 <= k < i ==> a@[k] == b@[k],
        decreases n - i,
    {
        if a[i] != b[i] {
            return false;
        }
        i += 1;
    }
    proof {
        assert(a@ =~= b@);
    }
    true
}

/// Two ascending id lists are equal exactly when they hold the same ids.
proof fn lemma_sorted_eq_iff_same_multiset(a: Seq<u64>, b: Seq<u64>)
    requires
        sorted_by(a, ascending()),
        sorted_by(b, ascending()),
    ensures
        (a == b) == (a.to_multiset() == b.to_multiset()),
{
    assert(total_ordering(ascending()));
    if a.to_multiset() == b.to_multiset() {
        vstd::seq_lib::lemma_sorted_unique(a, b, ascending());
    }
}

/// The largest key of non-empty `groups`.
pub open spec fn max_key(groups: Seq<GroupValue>) -> usize
    decreases groups.len(),
{
    if groups.len() <= 1 {
        groups[0].0
    } else {
        let rest = max_key(groups.drop_last());
        if groups.last().0 > rest { groups.last().0 } else { rest }
    }
}

/// The key for a new group: one past the largest key, 0 when there is none.
pub open spec fn next_key(groups: Seq<GroupValue>) -> usize {
    if groups.len() == 0 { 0 } else { (max_key(groups) + 1) as usize }
}

proof fn lemma_max_key_bounds(groups: Seq<GroupValue>)
    requires
        groups.len() > 0,
    ensures
        forall|k: int| 0 <= k < groups.len() ==> #[trigger] groups[k].0 <= max_key(groups),
        exists|k: int| 0 <= k < groups.len() && #[trigger] groups[k].0 == max_key(groups),
    decreases groups.len(),
{
    if groups.len() > 1 {
        lemma_max_key_bounds(groups.drop_last());
        assert forall|k: int| 0 <= k < groups.len() implies #[trigger] groups[k].0 <= max_key(groups) by {
            if k < groups.len() - 1 {
                assert(groups[k] == groups.drop_last()[k]);
            }
        }
        let j = choose|k: int| 0 <= k < groups.drop_last().len() && #[trigger] groups.drop_last()[k].0 == max_key(groups.drop_last());
        if groups.last().0 > max_key(groups.drop_last()) {
            assert(groups[groups.len() - 1].0 == max_key(groups));
        } else {
            assert(groups[j] == groups.drop_last()[j]);
        }
    } else {
        assert(groups[0].0 == max_key(groups));
    }
}

/// `k` is the last group holding a tab of window `id`.
pub open spec fn is_last_group(groups: Seq<GroupValue>, id: u64, k: int) -> bool {
    &&& 0 <= k < groups.len()
    &&& has_tab(groups[k].1, id)
    &&& forall|j: int| k < j < groups.len() ==> !has_tab(#[trigger] groups[j].1, id)
}

/// A group with its first tab of window `id` removed.
pub open spec fn strip_group(g: GroupValue, id: u64) -> GroupValue {
    if has_tab(g.1, id) {
        (g.0, g.1.remove(first_tab(g.1, id)))
    } else {
        g
    }
}

/// The groups with the first tab of window `id` removed from each, and the
/// groups left empty dropped, in order.
pub open spec fn strip_groups(groups: Seq<GroupValue>, id: u64) -> Seq<GroupValue>
    decreases groups.len(),
{
    if groups.len() == 0 {
        Seq::empty()
    } else {
        let rest = strip_groups(groups.drop_last(), id);
        let g = strip_group(groups.last(), id);
        if g.1.len() > 0 { rest.push(g) } else { rest }
    }
}

/// Stripping keeps a subsequence of the keys, so distinct keys stay distinct
/// and every remaining key was a key before.
proof fn lemma_strip_groups_keys(groups: Seq<GroupValue>, id: u64)
    requires
        distinct_keys(groups),
    ensures
        distinct_keys(strip_groups(groups, id)),
        nonempty_groups(strip_groups(groups, id)),
        forall|a: int| 0 <= a < strip_groups(groups, id).len() ==> exists|b: int|
            0 <= b < groups.len() && #[trigger] strip_groups(groups, id)[a].0 == groups[b].0,
    decreases groups.len(),
{
    if groups.len() > 0 {
        let pre = groups.drop_last();
        assert(distinct_keys(pre)) by {
            assert forall|i: int, j: int|
                0 <= i < pre.len() && 0 <= j < pre.len() && #[trigger] pre[i].0 == #[trigger] pre[j].0 implies i == j by {
                assert(pre[i] == groups[i]);
                assert(pre[j] == groups[j]);
            }
        }
        lemma_strip_groups_keys(pre, id);
        let rest = strip_groups(pre, id);
        let g = strip_group(groups.last(), id);
        let out = strip_groups(groups, id);
        assert forall|k: int| 0 <= k < out.len() implies (#[trigger] out[k]).1.len() > 0 by {
            if k < rest.len() {
                assert(out[k] == rest[k]);
            }
        }
        assert forall|a: int| 0 <= a < out.len() implies exists|b: int|
            0 <= b < groups.len() && #[trigger] out[a].0 == groups[b].0 by {
            if a < rest.len() {
                assert(out[a] == rest[a]);
                let b = choose|b: int| 0 <= b < pre.len() && #[trigger] rest[a].0 == pre[b].0;
                assert(pre[b] == groups[b]);
            } else {
                assert(out[a].0 == groups[groups.len() - 1].0);
            }
        }
        if g.1.len() > 0 {
            assert forall|i: int, j: int|
                0 <= i < out.len() && 0 <= j < out.len() && #[trigger] out[i].0 == #[trigger] out[j].0 implies i == j by {
                if i < rest.len() && j == rest.len() {
                    let b = choose|b: int| 0 <= b < pre.len() && #[trigger] rest[i].0 == pre[b].0;
                    assert(pre[b] == groups[b]);
                    assert(groups[b].0 == groups[groups.len() - 1].0);
                }
                if j < rest.len() && i == rest.len() {
                    let b = choose|b: int| 0 <= b < pre.len() && #[trigger] rest[j].0 == pre[b].0;
                    assert(pre[b] == groups[b]);
                    assert(groups[b].0 == groups[groups.len() - 1].0);
                }
                if i < rest.len() && j < rest.len() {
                    assert(out[i] == rest[i]);
                    assert(out[j] == rest[j]);
                }
            }
        }
    }
}

/// Every key left after stripping is below `usize::MAX` when every key was.
proof fn lemma_strip_groups_keys_bounded(groups: Seq<GroupValue>, id: u64)
    requires
        distinct_keys(groups),
        forall|k: int| 0 <= k < groups.len() ==> #[trigger] groups[k].0 < usize::MAX,
    ensures
        forall|k: int| 0 <= k < strip_groups(groups, id).len() ==> #[trigger] strip_groups(groups, id)[k].0 < usize::MAX,
{
    lemma_strip_groups_keys(groups, id);
    assert forall|k: int| 0 <= k < strip_groups(groups, id).len() implies #[trigger] strip_groups(groups, id)[k].0 < usize::MAX by {
        let b = choose|b: int| 0 <= b < groups.len() && #[trigger] strip_groups(groups, id)[k].0 == groups[b].0;
    }
}

/// When no group holds window `id`, stripping only drops the empty groups;
/// in particular it changes nothing when no group is empty.
proof fn lemma_strip_groups_absent(groups: Seq<GroupValue>, id: u64)
    requires
        !in_some_group(groups, id),
        forall|k: int| 0 <= k < groups.len() ==> (#[trigger] groups[k]).1.len() > 0,
    ensures
        strip_groups(groups, id) == groups,
    decreases groups.len(),
{
    if groups.len() > 0 {
        let pre = groups.drop_last();
        assert forall|k: int| 0 <= k < pre.len() implies (#[trigger] pre[k]).1.len() > 0 by {
            assert(pre[k] == groups[k]);
        }
        if in_some_group(pre, id) {
            let k = choose|k: int| 0 <= k < pre.len() && has_tab(#[trigger] pre[k].1, id);
            assert(pre[k] == groups[k]);
        }
        lemma_strip_groups_absent(pre, id);
        assert(!has_tab(groups[groups.len() - 1].1, id));
        assert(groups[groups.len() - 1].1.len() > 0);
        assert(strip_groups(groups, id) =~= groups);
    }
}

/// The list with the element at `from` moved to `to`; unchanged when `to`
/// is out of range or equal to `from`.
pub open spec fn move_tab(tabs: Seq<TabValue>, from: int, to: int) -> Seq<TabValue> {
    if 0 <= to < tabs.len() && from != to {
        tabs.remove(from).insert(to, tabs[from])
    } else {
        tabs
    }
}

/// A tab marked as last active at `now` if it belongs to window `id`.
pub open spec fn touch_tab(t: TabValue, id: u64, now: u64) -> TabValue {
    if t.id == id {
        TabValue { last_active: now, ..t }
    } else {
        t
    }
}

/// A group with every tab of window `id` marked as last active at `now`.
pub open spec fn touch_group(g: GroupValue, id: u64, now: u64) -> GroupValue {
    (g.0, g.1.map_values(|t: TabValue| touch_tab(t, id, now)))
}

/// Groups with every tab of window `id` marked as last active at `now`.
pub open spec fn touch_groups(groups: Seq<GroupValue>, id: u64, now: u64) -> Seq<GroupValue> {
    groups.map_values(|g: GroupValue| touch_group(g, id, now))
}

// ---------------------------------------------------------------------------
// Laws
// ---------------------------------------------------------------------------

/// Moving a tab within its group keeps the same tabs: the result is a
/// reordering of the group.
pub proof fn law_move_tab_is_reordering(tabs: Seq<TabValue>, from: int, to: int)
    requires
        0 <= from < tabs.len(),
    ensures
        move_tab(tabs, from, to).len() == tabs.len(),
        move_tab(tabs, from, to).to_multiset() == tabs.to_multiset(),
        !(0 <= to < tabs.len()) ==> move_tab(tabs, from, to) == tabs,
{
    broadcast use vstd::seq_lib::group_to_multiset_ensures;
    if 0 <= to < tabs.len() && from != to {
        let removed = tabs.remove(from);
        vstd::seq_lib::to_multiset_remove(tabs, from);
        vstd::seq_lib::to_multiset_insert(removed, to, tabs[from]);
        assert(tabs.to_multiset().remove(tabs[from]).insert(tabs[from]) =~= tabs.to_multiset()) by {
            broadcast use vstd::multiset::group_multiset_axioms;
            assert(tabs.to_multiset().contains(tabs[from]));
        }
    }
}

/// Every tab of `tabs` is in `initial` or kept by [`keep_new`].
proof fn lemma_keep_new_covers(tabs: Seq<TabValue>, initial: Seq<TabValue>)
    ensures
        forall|j: int| 0 <= j < tabs.len() ==> initial.contains(#[trigger] tabs[j])
            || keep_new(tabs, initial).contains(tabs[j]),
    decreases tabs.len(),
{
    if tabs.len() > 0 {
        let pre = tabs.drop_last();
        lemma_keep_new_covers(pre, initial);
        let rest = keep_new(pre, initial);
        assert forall|j: int| 0 <= j < tabs.len() implies initial.contains(#[trigger] tabs[j])
            || keep_new(tabs, initial).contains(tabs[j]) by {
            if j < tabs.len() - 1 {
                assert(tabs[j] == pre[j]);
                if !initial.contains(tabs[j]) {
                    let m = choose|m: int| 0 <= m < rest.len() && rest[m] == pre[j];
                    if !initial.contains(tabs.last()) {
                        assert(keep_new(tabs, initial)[m] == rest[m]);
                    }
                }
            } else if !initial.contains(tabs[j]) {
                assert(keep_new(tabs, initial)[rest.len() as int] == tabs.last());
            }
        }
    }
}

/// Every tab of every group is in `initial` or kept by [`merge_rest`].
proof fn lemma_merge_rest_covers(groups: Seq<GroupValue>, initial: Seq<TabValue>)
    ensures
        forall|k: int, j: int| 0 <= k < groups.len() && 0 <= j < groups[k].1.len()
            ==> initial.contains(#[trigger] groups[k].1[j]) || merge_rest(groups, initial).contains(groups[k].1[j]),
    decreases groups.len(),
{
    if groups.len() > 0 {
        let pre = groups.drop_last();
        lemma_merge_rest_covers(pre, initial);
        let last = groups.last().1;
        lemma_keep_new_covers(last, initial);
        let a = merge_rest(pre, initial);
        let b = keep_new(last, initial);
        assert(merge_rest(groups, initial) == a + b);
        assert forall|k: int, j: int| 0 <= k < groups.len() && 0 <= j < groups[k].1.len()
            implies initial.contains(#[trigger] groups[k].1[j]) || merge_rest(groups, initial).contains(groups[k].1[j]) by {
            if !initial.contains(groups[k].1[j]) {
                if k < groups.len() - 1 {
                    assert(groups[k] == pre[k]);
                    let m = choose|m: int| 0 <= m < a.len() && a[m] == pre[k].1[j];
                    assert((a + b)[m] == a[m]);
                } else {
                    assert(last[j] == groups[k].1[j]);
                    let m = choose|m: int| 0 <= m < b.len() && b[m] == last[j];
                    assert((a + b)[a.len() + m] == b[m]);
                }
            }
        }
    }
}

/// Merging all windows loses no tab: every tab of every group is in the
/// merged group, which starts with window `id`'s group as it was.
pub proof fn law_merge_keeps_every_tab(groups: Seq<GroupValue>, id: u64)
    requires
        in_some_group(groups, id),
    ensures
        forall|k: int, j: int| 0 <= k < groups.len() && 0 <= j < groups[k].1.len() ==> ({
            let initial = groups[first_group(groups, id)].1;
            (initial + merge_rest(groups, initial)).contains(#[trigger] groups[k].1[j])
        }),
{
    let initial = groups[first_group(groups, id)].1;
    lemma_merge_rest_covers(groups, initial);
    let rest = merge_rest(groups, initial);
    assert forall|k: int, j: int| 0 <= k < groups.len() && 0 <= j < groups[k].1.len()
        implies (initial + rest).contains(#[trigger] groups[k].1[j]) by {
        if initial.contains(groups[k].1[j]) {
            let m = choose|m: int| 0 <= m < initial.len() && initial[m] == groups[k].1[j];
            assert((initial + rest)[m] == initial[m]);
        } else {
            let m = choose|m: int| 0 <= m < rest.len() && rest[m] == groups[k].1[j];
            assert((initial + rest)[initial.len() + m] == rest[m]);
        }
    }
}

/// No window has two tabs in one group.
pub open spec fn single_tab_per_group(groups: Seq<GroupValue>) -> bool {
    forall|k: int, i: int, j: int|
        0 <= k < groups.len() && 0 <= i < groups[k].1.len() && 0 <= j < groups[k].1.len()
            && #[trigger] groups[k].1[i].id == #[trigger] groups[k].1[j].id ==> i == j
}

/// Removing the first tab of a window that has one tab in a group leaves the
/// group without a tab of that window.
proof fn lemma_strip_group_clears(g: GroupValue, id: u64)
    requires
        forall|i: int, j: int| 0 <= i < g.1.len() && 0 <= j < g.1.len() && #[trigger] g.1[i].id == #[trigger] g.1[j].id ==> i == j,
    ensures
        !has_tab(strip_group(g, id).1, id),
{
    if has_tab(g.1, id) {
        let f = first_tab(g.1, id);
        let i0 = choose|i: int| 0 <= i < g.1.len() && #[trigger] g.1[i].id == id;
        assert(is_first_tab(g.1, id, f)) by {
            assert(exists|k: int| is_first_tab(g.1, id, k)) by {
                assert(is_first_tab(g.1, id, i0)) by {
                    assert forall|j: int| 0 <= j < i0 implies #[trigger] g.1[j].id != id by {
                        if g.1[j].id == id {
                            assert(g.1[j].id == g.1[i0].id);
                        }
                    }
                }
            }
        }
        let r = g.1.remove(f);
        assert forall|m: int| 0 <= m < r.len() implies #[trigger] r[m].id != id by {
            if m < f {
                assert(r[m] == g.1[m]);
                assert(g.1[m].id == g.1[f].id ==> m == f);
            } else {
                assert(r[m] == g.1[m + 1]);
                assert(g.1[m + 1].id == g.1[f].id ==> m + 1 == f);
            }
        }
    }
}

/// Removing a window's tab takes the window out of every group when it had
/// at most one tab per group.
pub proof fn law_remove_clears_window(groups: Seq<GroupValue>, id: u64)
    requires
        single_tab_per_group(groups),
    ensures
        !in_some_group(strip_groups(groups, id), id),
    decreases groups.len(),
{
    if groups.len() > 0 {
        let pre = groups.drop_last();
        assert(single_tab_per_group(pre)) by {
            assert forall|k: int, i: int, j: int|
                0 <= k < pre.len() && 0 <= i < pre[k].1.len() && 0 <= j < pre[k].1.len()
                    && #[trigger] pre[k].1[i].id == #[trigger] pre[k].1[j].id implies i == j by {
                assert(pre[k] == groups[k]);
            }
        }
        law_remove_clears_window(pre, id);
        let last = groups.last();
        assert(groups[groups.len() - 1] == last);
        lemma_strip_group_clears(last, id);
        let rest = strip_groups(pre, id);
        let out = strip_groups(groups, id);
        if in_some_group(out, id) {
            let k = choose|k: int| 0 <= k < out.len() && has_tab(#[trigger] out[k].1, id);
            if k < rest.len() {
                assert(out[k] == rest[k]);
            }
        }
    }
}

/// Each window has at most one tab across all groups.
pub open spec fn unique_windows(groups: Seq<GroupValue>) -> bool {
    forall|a: int, i: int, b: int, j: int|
        0 <= a < groups.len() && 0 <= i < groups[a].1.len() && 0 <= b < groups.len() && 0 <= j < groups[b].1.len()
            && #[trigger] groups[a].1[i].id == #[trigger] groups[b].1[j].id ==> a == b && i == j
}

/// Every tab's handle is the handle of its own window.
pub open spec fn handles_match(groups: Seq<GroupValue>) -> bool {
    forall|a: int, i: int| 0 <= a < groups.len() && 0 <= i < groups[a].1.len()
        ==> (#[trigger] groups[a].1[i]).handle == groups[a].1[i].id
}

/// When every window has one tab, the first tab of a window is its only tab.
proof fn lemma_unique_position(groups: Seq<GroupValue>, a: int, i: int)
    requires
        unique_windows(groups),
        0 <= a < groups.len(),
        0 <= i < groups[a].1.len(),
    ensures
        in_some_group(groups, groups[a].1[i].id),
        first_group(groups, groups[a].1[i].id) == a,
        first_tab(groups[a].1, groups[a].1[i].id) == i,
{
    let id = groups[a].1[i].id;
    let tabs = groups[a].1;
    assert(has_tab(tabs, id));
    assert(is_first_tab(tabs, id, i)) by {
        assert forall|j: int| 0 <= j < i implies #[trigger] tabs[j].id != id by {
            if tabs[j].id == id {
                assert(groups[a].1[j].id == groups[a].1[i].id);
            }
        }
    }
    lemma_first_tab_unique(tabs, id, i);
    assert(is_first_group(groups, id, a)) by {
        assert forall|b: int| 0 <= b < a implies !has_tab(#[trigger] groups[b].1, id) by {
            if has_tab(groups[b].1, id) {
                let j = choose|j: int| 0 <= j < groups[b].1.len() && #[trigger] groups[b].1[j].id == id;
                assert(groups[b].1[j].id == groups[a].1[i].id);
            }
        }
    }
    lemma_first_group_unique(groups, id, a);
}

/// Selecting the next tab and then the previous tab from there comes back
/// to the starting window, when every window has one tab and each tab's
/// handle is its window's.
pub proof fn law_next_then_previous_tab(groups: Seq<GroupValue>, id: u64)
    requires
        in_some_group(groups, id),
        unique_windows(groups),
        handles_match(groups),
    ensures
        ({
            let gi = first_group(groups, id);
            let tabs = groups[gi].1;
            let next = (first_tab(tabs, id) + 1) % (tabs.len() as int);
            let next_id = tabs[next].handle;
            &&& in_some_group(groups, next_id)
            &&& first_group(groups, next_id) == gi
            &&& ({
                let cur = first_tab(tabs, next_id);
                let prev = if cur == 0 { tabs.len() - 1 } else { cur - 1 };
                tabs[prev].handle == id
            })
        }),
{
    let k = choose|k: int| 0 <= k < groups.len() && has_tab(#[trigger] groups[k].1, id);
    let gi0 = first_group(groups, id);
    assert(is_first_group(groups, id, gi0)) by {
        let j = choose|j: int| 0 <= j < groups[k].1.len() && #[trigger] groups[k].1[j].id == id;
        lemma_unique_position(groups, k, j);
    }
    let tabs = groups[gi0].1;
    let t = choose|t: int| 0 <= t < tabs.len() && #[trigger] tabs[t].id == id;
    lemma_unique_position(groups, gi0, t);
    let next = (t + 1) % (tabs.len() as int);
    assert(0 <= next < tabs.len());
    lemma_unique_position(groups, gi0, next);
    assert(tabs[next].handle == tabs[next].id);
    assert(tabs[t].handle == tabs[t].id);
    if t + 1 < tabs.len() {
        vstd::arithmetic::div_mod::lemma_small_mod((t + 1) as nat, tabs.len());
        assert(next == t + 1);
    } else {
        vstd::arithmetic::div_mod::lemma_mod_self_0(tabs.len() as int);
        assert(next == 0);
    }
}

/// Adding a window's tab loses nothing and places the window: every group
/// keeps its key and its tabs, in order, as a prefix of its new tabs (only
/// one gains a tab) or is followed by one new group; the window is then in
/// some group, and in exactly one when it was in none before.
pub proof fn law_add_tab_places_window(groups: Seq<GroupValue>, tabs: Seq<TabValue>, id: u64)
    requires
        has_tab(tabs, id),
    ensures
        ({
            let out = added_groups(groups, tabs, id);
            &&& out.len() >= groups.len()
            &&& forall|k: int| 0 <= k < groups.len() ==> (#[trigger] out[k]).0 == groups[k].0
                && out[k].1.subrange(0, groups[k].1.len() as int) == groups[k].1
            &&& in_some_group(out, id)
            &&& !in_some_group(groups, id) ==> forall|a: int, b: int|
                0 <= a < out.len() && 0 <= b < out.len() && has_tab(#[trigger] out[a].1, id)
                    && has_tab(#[trigger] out[b].1, id) ==> a == b
        }),
{
    let f = first_tab(tabs, id);
    assert(is_first_tab(tabs, id, f)) by {
        let i = choose|i: int| 0 <= i < tabs.len() && #[trigger] tabs[i].id == id;
        lemma_first_tab_exists(tabs, id, i);
    }
    let tab = tabs[f];
    let expected = other_ids(tabs, id).to_multiset();
    let out = added_groups(groups, tabs, id);
    if exists|k: int| is_first_match(groups, expected, k) {
        let k = choose|k: int| is_first_match(groups, expected, k);
        let g = groups[k].1.push(tab);
        assert(out[k].1 == g);
        assert(g[g.len() - 1].id == id);
        assert(has_tab(out[k].1, id));
        assert forall|i: int| 0 <= i < groups.len() implies (#[trigger] out[i]).0 == groups[i].0
            && out[i].1.subrange(0, groups[i].1.len() as int) == groups[i].1 by {
            if i == k {
                assert(g.subrange(0, groups[k].1.len() as int) =~= groups[k].1);
            } else {
                assert(out[i] == groups[i]);
                assert(groups[i].1.subrange(0, groups[i].1.len() as int) =~= groups[i].1);
            }
        }
        if !in_some_group(groups, id) {
            assert forall|a: int, b: int|
                0 <= a < out.len() && 0 <= b < out.len() && has_tab(#[trigger] out[a].1, id)
                    && has_tab(#[trigger] out[b].1, id) implies a == b by {
                if a != k {
                    assert(out[a] == groups[a]);
                }
                if b != k {
                    assert(out[b] == groups[b]);
                }
            }
        }
    } else {
        let n = groups.len() as int;
        assert(out[n].1 == tabs);
        assert(has_tab(out[n].1, id));
        assert forall|i: int| 0 <= i < groups.len() implies (#[trigger] out[i]).0 == groups[i].0
            && out[i].1.subrange(0, groups[i].1.len() as int) == groups[i].1 by {
            assert(out[i] == groups[i]);
            assert(groups[i].1.subrange(0, groups[i].1.len() as int) =~= groups[i].1);
        }
        if !in_some_group(groups, id) {
            assert forall|a: int, b: int|
                0 <= a < out.len() && 0 <= b < out.len() && has_tab(#[trigger] out[a].1, id)
                    && has_tab(#[trigger] out[b].1, id) implies a == b by {
                if a < n {
                    assert(out[a] == groups[a]);
                }
                if b < n {
                    assert(out[b] == groups[b]);
                }
            }
        }
    }
}

/// Some first position exists for a window that has a tab.
proof fn lemma_first_tab_exists(tabs: Seq<TabValue>, id: u64, i: int)
    requires
        0 <= i < tabs.len(),
        tabs[i].id == id,
    ensures
        exists|k: int| is_first_tab(tabs, id, k),
    decreases i,
{
    if exists|j: int| 0 <= j < i && #[trigger] tabs[j].id == id {
        let j = choose|j: int| 0 <= j < i && #[trigger] tabs[j].id == id;
        lemma_first_tab_exists(tabs, id, j);
    } else {
        assert(is_first_tab(tabs, id, i));
    }
}

/// Moving a tab to an in-range position puts it exactly there and keeps
/// the other tabs in their order.
pub proof fn law_move_tab_lands_at_target(tabs: Seq<TabValue>, from: int, to: int)
    requires
        0 <= from < tabs.len(),
        0 <= to < tabs.len(),
    ensures
        move_tab(tabs, from, to).len() == tabs.len(),
        move_tab(tabs, from, to)[to] == tabs[from],
        move_tab(tabs, from, to).remove(to) == tabs.remove(from),
{
    if from != to {
        let removed = tabs.remove(from);
        let r = removed.insert(to, tabs[from]);
        assert(r.remove(to) =~= removed);
    }
}

/// Removing a window's tab from a group takes out exactly its first tab of
/// that window: putting that tab back where it was gives the group again,
/// and a group without a tab of the window is left as it was.
pub proof fn law_remove_takes_one_tab(g: GroupValue, id: u64)
    ensures
        !has_tab(g.1, id) ==> strip_group(g, id) == g,
        has_tab(g.1, id) ==> exists|k: int|
            is_first_tab(g.1, id, k) && strip_group(g, id).0 == g.0 && strip_group(g, id).1.len() + 1 == g.1.len()
                && #[trigger] strip_group(g, id).1.insert(k, g.1[k]) == g.1,
{
    if has_tab(g.1, id) {
        let i = choose|i: int| 0 <= i < g.1.len() && #[trigger] g.1[i].id == id;
        lemma_first_tab_exists(g.1, id, i);
        let k = first_tab(g.1, id);
        assert(is_first_tab(g.1, id, k));
        let r = strip_group(g, id).1;
        assert(r == g.1.remove(k));
        assert(r.insert(k, g.1[k]) =~= g.1);
    }
}

/// The tabs [`keep_new`] keeps are none of `initial`'s.
proof fn lemma_keep_new_avoids(tabs: Seq<TabValue>, initial: Seq<TabValue>)
    ensures
        forall|x: TabValue| #[trigger] keep_new(tabs, initial).contains(x) ==> !initial.contains(x),
    decreases tabs.len(),
{
    if tabs.len() > 0 {
        let pre = tabs.drop_last();
        lemma_keep_new_avoids(pre, initial);
        let rest = keep_new(pre, initial);
        assert forall|x: TabValue| #[trigger] keep_new(tabs, initial).contains(x) implies !initial.contains(x) by {
            let e = keep_new(tabs, initial);
            let m = choose|m: int| 0 <= m < e.len() && e[m] == x;
            if m < rest.len() {
                assert(e[m] == rest[m]);
                assert(rest.contains(x));
            }
        }
    }
}

/// The tabs [`merge_rest`] adds are none of `initial`'s.
proof fn lemma_merge_rest_avoids(groups: Seq<GroupValue>, initial: Seq<TabValue>)
    ensures
        forall|x: TabValue| #[trigger] merge_rest(groups, initial).contains(x) ==> !initial.contains(x),
    decreases groups.len(),
{
    if groups.len() > 0 {
        let pre = groups.drop_last();
        lemma_merge_rest_avoids(pre, initial);
        lemma_keep_new_avoids(groups.last().1, initial);
        let a = merge_rest(pre, initial);
        let b = keep_new(groups.last().1, initial);
        assert forall|x: TabValue| #[trigger] merge_rest(groups, initial).contains(x) implies !initial.contains(x) by {
            let e = a + b;
            let m = choose|m: int| 0 <= m < e.len() && e[m] == x;
            if m < a.len() {
                assert(e[m] == a[m]);
                assert(a.contains(x));
            } else {
                assert(e[m] == b[m - a.len()]);
                assert(b.contains(x));
            }
        }
    }
}

/// Merging all windows adds none of the initial group's tabs again: each of
/// them is in the merged group exactly as often as in the initial group.
pub proof fn law_merge_adds_initial_tabs_once(groups: Seq<GroupValue>, initial: Seq<TabValue>, t: TabValue)
    requires
        initial.contains(t),
    ensures
        !merge_rest(groups, initial).contains(t),
        (initial + merge_rest(groups, initial)).to_multiset().count(t) == initial.to_multiset().count(t),
{
    broadcast use vstd::seq_lib::group_to_multiset_ensures;
    lemma_merge_rest_avoids(groups, initial);
    let rest = merge_rest(groups, initial);
    vstd::seq_lib::lemma_multiset_commutative(initial, rest);
    assert(rest.to_multiset().count(t) == 0);
}

} // verus!
