use vstd::prelude::*;
use vstd::string::*;
use crate::model::{GroupView, ProxyGroup, ProxySnapshot, SnapshotView};
use crate::order::str_eq;

verus! {

/// One entry of the tray menu that can be clicked.
#[derive(Clone, Debug, PartialEq, Eq)]
pub struct TrayItem {
    pub id: String,
    pub title: String,
    pub selected: bool,
    pub enabled: bool,
}

/// A titled list of entries that opens from the tray menu.
#[derive(Clone, Debug, PartialEq, Eq)]
pub struct TraySubmenu {
    pub title: String,
    pub items: Vec<TrayItem>,
}

/// What the tray menu holds at one place.
#[derive(Clone, Debug, PartialEq, Eq)]
pub enum TrayEntry {
    Item(TrayItem),
    Submenu(TraySubmenu),
}

/// The tray menu: its entries from top to bottom.
#[derive(Clone, Debug, PartialEq, Eq)]
pub struct TrayMenu {
    pub entries: Vec<TrayEntry>,
}

/// Mathematical value of a [`TrayItem`].
pub ghost struct TrayItemView {
    pub id: Seq<char>,
    pub title: Seq<char>,
    pub selected: bool,
    pub enabled: bool,
}

/// Mathematical value of a [`TraySubmenu`].
pub ghost struct TraySubmenuView {
    pub title: Seq<char>,
    pub items: Seq<TrayItemView>,
}

/// Mathematical value of a [`TrayEntry`].
pub ghost enum TrayEntryView {
    Item(TrayItemView),
    Submenu(TraySubmenuView),
}

impl View for TrayItem {
    type V = TrayItemView;

    open spec fn view(&self) -> TrayItemView {
        TrayItemView { id: self.id@, title: self.title@, selected: self.selected, enabled: self.enabled }
    }
}

impl View for TraySubmenu {
    type V = TraySubmenuView;

    open spec fn view(&self) -> TraySubmenuView {
        TraySubmenuView { title: self.title@, items: Seq::new(self.items@.len(), |i: int| self.items@[i]@) }
    }
}

impl View for TrayEntry {
    type V = TrayEntryView;

    open spec fn view(&self) -> TrayEntryView {
        match self {
            TrayEntry::Item(item) => TrayEntryView::Item(item@),
            TrayEntry::Submenu(sub) => TrayEntryView::Submenu(sub@),
        }
    }
}

impl View for TrayMenu {
    type V = Seq<TrayEntryView>;

    open spec fn view(&self) -> Seq<TrayEntryView> {
        Seq::new(self.entries@.len(), |i: int| self.entries@[i]@)
    }
}

/// The identifier of the entry that selects a proxy of a group.
pub open spec fn select_id(group: Seq<char>, name: Seq<char>) -> Seq<char> {
    "select_proxy_"@ + group + "_"@ + name
}

/// The entry for the candidate at position `i` of a group: marked where the
/// candidate is the group's selection.
pub open spec fn selector_item(group: GroupView, i: int) -> TrayItemView {
    TrayItemView {
        id: select_id(group.name, group.all[i].name),
        title: group.all[i].name,
        selected: group.now == Some(group.all[i].name),
        enabled: true,
    }
}

/// The submenu of a group: its name as title, one entry for each candidate in
/// the group's order.
pub open spec fn selector_spec(group: GroupView) -> TraySubmenuView {
    TraySubmenuView { title: group.name, items: Seq::new(group.all.len(), |i: int| selector_item(group, i)) }
}

/// The modes in which proxies can be selected.
pub open spec fn is_proxy_mode(mode: Seq<char>) -> bool {
    mode == "rule"@ || mode == "script"@ || mode == "global"@
}

/// The entry shown where no proxy can be selected.
pub open spec fn no_proxy_item() -> TrayItemView {
    TrayItemView { id: "no_proxy"@, title: "NO PROXY COULD SELECTED"@, selected: false, enabled: false }
}

/// The submenus of a sequence of groups, in its order.
pub open spec fn selectors(groups: Seq<GroupView>) -> Seq<TrayEntryView> {
    Seq::new(groups.len(), |i: int| TrayEntryView::Submenu(selector_spec(groups[i])))
}

/// Whether the pseudo-group gets a submenu: in global mode, and where there
/// is no other group.
pub open spec fn shows_global(proxies: SnapshotView, mode: Seq<char>) -> bool {
    mode == "global"@ || proxies.groups.len() == 0
}

/// The menu with the proxy entries added below what it held.
pub open spec fn tray_spec(menu: Seq<TrayEntryView>, proxies: SnapshotView, mode: Seq<char>) -> Seq<
    TrayEntryView,
> {
    if is_proxy_mode(mode) {
        let head = if shows_global(proxies, mode) {
            seq![TrayEntryView::Submenu(selector_spec(proxies.global))]
        } else {
            Seq::empty()
        };
        menu + head + selectors(proxies.groups)
    } else {
        menu.push(TrayEntryView::Item(no_proxy_item()))
    }
}

/// Builds the submenu from which a group's proxy is selected.
pub fn generate_group_selector(group: &ProxyGroup) -> (r: TraySubmenu)
    ensures
        r@ == selector_spec(group@),
{
    let mut items: Vec<TrayItem> = Vec::new();
    let mut i: usize = 0;
    while i < group.all.len()
        invariant
            i <= group.all@.len(),
            items@.len() == i,
            forall|j: int| 0 <= j < i ==> (#[trigger] items@[j])@ == selector_item(group@, j),
        decreases group.all@.len() - i,
    {
        let item = &group.all[i];
        let mut id = String::from_str("select_proxy_");
        id.append(group.name.as_str());
        id.append("_");
        id.append(item.name.as_str());
        let selected = match &group.now {
            Some(now) => *now == item.name,
            None => false,
        };
        items.push(TrayItem { id, title: item.name.clone(), selected, enabled: true });
        i = i + 1;
    }
    let r = TraySubmenu { title: group.name.clone(), items };
    assert(r@.items =~= selector_spec(group@).items);
    r
}

fn copy_item(item: &TrayItem) -> (r: TrayItem)
    ensures
        r@ == item@,
{
    TrayItem { id: item.id.clone(), title: item.title.clone(), selected: item.selected, enabled: item.enabled }
}

fn copy_entry(entry: &TrayEntry) -> (r: TrayEntry)
    ensures
        r@ == entry@,
{
    match entry {
        TrayEntry::Item(item) => TrayEntry::Item(copy_item(item)),
        TrayEntry::Submenu(sub) => {
            let mut items: Vec<TrayItem> = Vec::new();
            let mut i: usize = 0;
            while i < sub.items.len()
                invariant
                    i <= sub.items@.len(),
                    items@.len() == i,
                    forall|j: int| 0 <= j < i ==> (#[trigger] items@[j])@ == sub.items@[j]@,
                decreases sub.items@.len() - i,
            {
                items.push(copy_item(&sub.items[i]));
                i = i + 1;
            }
            let r = TraySubmenu { title: sub.title.clone(), items };
            assert(r@.items =~= sub@.items);
            TrayEntry::Submenu(r)
        },
    }
}

/// Hands back a menu that holds what `menu` holds and below it the proxy
/// entries: in a mode with proxies a submenu for the pseudo-group (in global
/// mode, or where there is no other group) and one for each group in the
/// order of the names; in any other mode a single disabled entry.
/// `menu` itself is left as it was.
pub fn setup_tray(menu: &mut TrayMenu, proxies: &ProxySnapshot, mode: &str) -> (r: TrayMenu)
    ensures
        final(menu)@ == old(menu)@,
        r@ == tray_spec(old(menu)@, proxies@, mode@),
{
    let mut entries: Vec<TrayEntry> = Vec::new();
    let mut i: usize = 0;
    while i < menu.entries.len()
        invariant
            *menu == *old(menu),
            i <= menu.entries@.len(),
            entries@.len() == i,
            forall|j: int| 0 <= j < i ==> (#[trigger] entries@[j])@ == menu.entries@[j]@,
        decreases menu.entries@.len() - i,
    {
        entries.push(copy_entry(&menu.entries[i]));
        i = i + 1;
    }
    let ghost base = menu@;
    let is_global = str_eq(mode, "global");
    if str_eq(mode, "rule") || str_eq(mode, "script") || is_global {
        let ghost mut head = Seq::<TrayEntryView>::empty();
        if is_global || proxies.groups.len() == 0 {
            entries.push(TrayEntry::Submenu(generate_group_selector(&proxies.global)));
            proof {
                head = seq![TrayEntryView::Submenu(selector_spec(proxies@.global))];
            }
        }
        let mut k: usize = 0;
        let ghost start = entries@.len();
        while k < proxies.groups.len()
            invariant
                k <= proxies.groups@.len(),
                start == base.len() + head.len(),
                entries@.len() == start + k,
                forall|j: int| 0 <= j < start ==> (#[trigger] entries@[j])@ == (base + head)[j],
                forall|j: int| 0 <= j < k ==> (#[trigger] entries@[start + j])@ == selectors(proxies@.groups)[j],
            decreases proxies.groups@.len() - k,
        {
            entries.push(TrayEntry::Submenu(generate_group_selector(proxies.groups.group_at(k))));
            k = k + 1;
        }
        let r = TrayMenu { entries };
        proof {
            let whole = base + head + selectors(proxies@.groups);
            assert forall|j: int| 0 <= j < r@.len() implies r@[j] == whole[j] by {
                if j >= start {
                    let d = j - start;
                    assert(r.entries@[start + d]@ == selectors(proxies@.groups)[d]);
                } else {
                    assert(r.entries@[j]@ == (base + head)[j]);
                }
            }
            assert(r@ =~= whole);
        }
        r
    } else {
        entries.push(
            TrayEntry::Item(
                TrayItem {
                    id: String::from_str("no_proxy"),
                    title: String::from_str("NO PROXY COULD SELECTED"),
                    selected: false,
                    enabled: false,
                },
            ),
        );
        let r = TrayMenu { entries };
        assert(r@ =~= base.push(TrayEntryView::Item(no_proxy_item())));
        r
    }
}

/// Adds the proxy entries to a tray menu.
pub trait SystemTrayMenuProxiesExt: Sized {
    /// The menu with the proxy entries below what it held.
    fn setup_proxies(&mut self, proxies: &ProxySnapshot, mode: &str) -> Self;
}

impl SystemTrayMenuProxiesExt for TrayMenu {
    fn setup_proxies(&mut self, proxies: &ProxySnapshot, mode: &str) -> (r: Self)
        ensures
            final(self)@ == old(self)@,
            r@ == tray_spec(old(self)@, proxies@, mode@),
    {
        setup_tray(self, proxies, mode)
    }
}

} // verus!
