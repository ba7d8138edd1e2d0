use vstd::prelude::*;
use crate::model::{GroupView, ProxyRecords, lemma_sorted_names_distinct, strictly_sorted};
use crate::order::{lemma_lt_irreflexive, lemma_lt_transitive, seq_lt, str_eq};

verus! {

pub type GroupName = String;

pub type FromProxy = String;

pub type ToProxy = String;

/// Value of one selection change: the group, the selection it had and the
/// selection it has now.
pub type ChangeView = (Seq<char>, Seq<char>, Seq<char>);

/// How the dependent menu has to follow a change of the records.
#[derive(Clone, Debug, PartialEq, Eq)]
pub enum TrayUpdateType {
    NoChange,
    FullRebuild,
    PartialUpdate(Vec<(GroupName, FromProxy, ToProxy)>),
}

/// Mathematical value of a [`TrayUpdateType`].
pub ghost enum UpdateView {
    NoChange,
    FullRebuild,
    PartialUpdate(Seq<ChangeView>),
}

/// The values of a list of selection changes.
pub open spec fn changes_view(v: Seq<(GroupName, FromProxy, ToProxy)>) -> Seq<ChangeView> {
    Seq::new(v.len(), |i: int| (v[i].0@, v[i].1@, v[i].2@))
}

impl View for TrayUpdateType {
    type V = UpdateView;

    open spec fn view(&self) -> UpdateView {
        match self {
            TrayUpdateType::NoChange => UpdateView::NoChange,
            TrayUpdateType::FullRebuild => UpdateView::FullRebuild,
            TrayUpdateType::PartialUpdate(l) => UpdateView::PartialUpdate(changes_view(l@)),
        }
    }
}

/// Both sequences hold the same group names at the same positions.
pub open spec fn same_groups(old: Seq<GroupView>, new: Seq<GroupView>) -> bool {
    old.len() == new.len() && forall|i: int|
        0 <= i < new.len() ==> (#[trigger] old[i]).name == new[i].name
}

/// The number of positions below `n` at which both sequences hold the same name.
pub open spec fn matching_count(old: Seq<GroupView>, new: Seq<GroupView>, n: nat) -> nat
    decreases n,
{
    if n == 0 {
        0
    } else {
        let head = matching_count(old, new, (n - 1) as nat);
        if old[n - 1].name == new[n - 1].name {
            head + 1
        } else {
            head
        }
    }
}

/// A group's selection counts as changed only where it is defined on both
/// sides and differs.
pub open spec fn selection_changed(old: GroupView, new: GroupView) -> bool {
    old.now is Some && new.now is Some && old.now != new.now
}

/// The change that is recorded for a group whose selection changed.
pub open spec fn change_of(old: GroupView, new: GroupView) -> ChangeView {
    (new.name, old.now.unwrap(), new.now.unwrap())
}

/// The changes among the first `n` groups, the one found last in front.
pub open spec fn changes_upto(old: Seq<GroupView>, new: Seq<GroupView>, n: nat) -> Seq<ChangeView>
    decreases n,
{
    if n == 0 {
        Seq::empty()
    } else {
        let earlier = changes_upto(old, new, (n - 1) as nat);
        if selection_changed(old[n - 1], new[n - 1]) {
            seq![change_of(old[n - 1], new[n - 1])] + earlier
        } else {
            earlier
        }
    }
}

/// The classification of the step from `old` to `new`.
pub open spec fn diff_spec(old: Seq<GroupView>, new: Seq<GroupView>) -> UpdateView {
    if !same_groups(old, new) {
        UpdateView::FullRebuild
    } else {
        let changes = changes_upto(old, new, new.len());
        if changes.len() == 0 {
            UpdateView::NoChange
        } else {
            UpdateView::PartialUpdate(changes)
        }
    }
}

/// The count of matching positions reaches `n` exactly where all of them match.
pub proof fn lemma_matching_count(old: Seq<GroupView>, new: Seq<GroupView>, n: nat)
    requires
        n <= old.len(),
        n <= new.len(),
    ensures
        matching_count(old, new, n) <= n,
        matching_count(old, new, n) == n <==> forall|i: int|
            0 <= i < n ==> (#[trigger] old[i]).name == new[i].name,
    decreases n,
{
    if n > 0 {
        lemma_matching_count(old, new, (n - 1) as nat);
        if matching_count(old, new, n) == n {
            assert forall|i: int| 0 <= i < n implies (#[trigger] old[i]).name == new[i].name by {
                if i < n - 1 {
                } else {
                    assert(old[n - 1].name == new[n - 1].name);
                }
            }
        } else {
            if old[n - 1].name == new[n - 1].name {
                let i = choose|i: int| 0 <= i < n - 1 && !((#[trigger] old[i]).name == new[i].name);
                assert(old[i].name != new[i].name);
            }
        }
    }
}

/// Classifies the step from one state of the records to the next: nothing to
/// do, the whole menu to rebuild, or single selections to move.
pub fn diff_proxies(old_proxies: &ProxyRecords, new_proxies: &ProxyRecords) -> (r: TrayUpdateType)
    ensures
        r@ == diff_spec(old_proxies@, new_proxies@),
{
    proof {
        use_type_invariant(old_proxies);
    }
    let old_len: usize = old_proxies.len();
    let new_len: usize = new_proxies.len();
    let paired: usize = if new_len < old_len { new_len } else { old_len };
    let mut group_matching: usize = 0;
    let mut i: usize = 0;
    while i < paired
        invariant
            i <= paired,
            paired <= old_proxies@.len(),
            paired <= new_proxies@.len(),
            group_matching <= i,
            group_matching == matching_count(old_proxies@, new_proxies@, i as nat),
        decreases paired - i,
    {
        if str_eq(new_proxies.group_at(i).name.as_str(), old_proxies.group_at(i).name.as_str()) {
            group_matching = group_matching + 1;
        }
        i = i + 1;
    }
    proof {
        lemma_matching_count(old_proxies@, new_proxies@, paired as nat);
    }
    if group_matching == old_len && group_matching == new_len {
        let mut action_list: Vec<(GroupName, FromProxy, ToProxy)> = Vec::new();
        let mut k: usize = 0;
        assert(changes_view(action_list@) =~= changes_upto(old_proxies@, new_proxies@, 0));
        while k < new_len
            invariant
                k <= new_len,
                new_len == new_proxies@.len(),
                old_proxies.wf(),
                same_groups(old_proxies@, new_proxies@),
                changes_view(action_list@) == changes_upto(old_proxies@, new_proxies@, k as nat),
            decreases new_len - k,
        {
            let new_proxy = new_proxies.group_at(k);
            let ghost before = action_list@;
            match old_proxies.get(new_proxy.name.as_str()) {
                Some(old_proxy) => {
                    proof {
                        let j = old_proxies@.index_of(old_proxy@);
                        assert(old_proxies@[k as int].name == new_proxies@[k as int].name);
                        lemma_sorted_names_distinct(old_proxies@, j, k as int);
                    }
                    match (&old_proxy.now, &new_proxy.now) {
                        (Some(from), Some(to)) => {
                            if !(*from == *to) {
                                action_list.insert(0, (new_proxy.name.clone(), from.clone(), to.clone()));
                                assert(changes_view(action_list@) =~= seq![
                                    change_of(old_proxies@[k as int], new_proxies@[k as int]),
                                ] + changes_view(before));
                            }
                        },
                        _ => {},
                    }
                },
                None => {
                    proof {
                        assert(old_proxies@[k as int].name == new_proxies@[k as int].name);
                    }
                    return TrayUpdateType::FullRebuild;
                },
            }
            k = k + 1;
        }
        if action_list.len() > 0 {
            TrayUpdateType::PartialUpdate(action_list)
        } else {
            TrayUpdateType::NoChange
        }
    } else {
        TrayUpdateType::FullRebuild
    }
}

/// The set of group names that a sequence of groups holds.
pub open spec fn group_names(s: Seq<GroupView>) -> Set<Seq<char>> {
    Set::new(|k: Seq<char>| exists|i: int| 0 <= i < s.len() && #[trigger] s[i].name == k)
}

/// The changes among the first `n` groups in the order in which a scan along
/// the new records meets them.
pub open spec fn changes_in_scan_order(old: Seq<GroupView>, new: Seq<GroupView>, n: nat) -> Seq<
    ChangeView,
>
    decreases n,
{
    if n == 0 {
        Seq::empty()
    } else {
        let earlier = changes_in_scan_order(old, new, (n - 1) as nat);
        if selection_changed(old[n - 1], new[n - 1]) {
            earlier.push(change_of(old[n - 1], new[n - 1]))
        } else {
            earlier
        }
    }
}

/// Comparing a state of the records with itself finds nothing to do.
pub proof fn law_unchanged_is_no_change(s: Seq<GroupView>)
    ensures
        diff_spec(s, s) == UpdateView::NoChange,
{
    lemma_no_change_upto(s, s.len());
}

proof fn lemma_no_change_upto(s: Seq<GroupView>, n: nat)
    ensures
        changes_upto(s, s, n).len() == 0,
    decreases n,
{
    if n > 0 {
        lemma_no_change_upto(s, (n - 1) as nat);
    }
}

/// The whole menu is rebuilt exactly where the two sides differ in length or
/// hold different group names at some position.
pub proof fn law_rebuild_iff_positions_differ(old: Seq<GroupView>, new: Seq<GroupView>)
    ensures
        diff_spec(old, new) == UpdateView::FullRebuild <==> !same_groups(old, new),
{
}

/// Where the two sides do not hold the same set of group names, the whole
/// menu is rebuilt.
pub proof fn law_name_difference_rebuilds(old: Seq<GroupView>, new: Seq<GroupView>)
    requires
        group_names(old) != group_names(new),
    ensures
        diff_spec(old, new) == UpdateView::FullRebuild,
{
    if same_groups(old, new) {
        lemma_same_groups_same_names(old, new);
    }
}

/// Single selections are moved only between two sides that hold the same
/// group names, position by position and hence as sets.
pub proof fn law_partial_keeps_names(old: Seq<GroupView>, new: Seq<GroupView>)
    requires
        diff_spec(old, new) is PartialUpdate,
    ensures
        same_groups(old, new),
        group_names(old) == group_names(new),
{
    lemma_same_groups_same_names(old, new);
}

/// Between two sides that are each in the order of their names, the whole
/// menu is rebuilt exactly where the sets of group names differ.
pub proof fn law_rebuild_iff_names_differ(old: Seq<GroupView>, new: Seq<GroupView>)
    requires
        strictly_sorted(old),
        strictly_sorted(new),
    ensures
        diff_spec(old, new) == UpdateView::FullRebuild <==> group_names(old) != group_names(new),
{
    if same_groups(old, new) {
        lemma_same_groups_same_names(old, new);
    }
    if group_names(old) == group_names(new) {
        lemma_sorted_same_names(old, new);
    }
}

proof fn lemma_same_groups_same_names(old: Seq<GroupView>, new: Seq<GroupView>)
    requires
        same_groups(old, new),
    ensures
        group_names(old) == group_names(new),
{
    assert forall|k: Seq<char>| group_names(old).contains(k) <==> group_names(new).contains(k) by {
        if group_names(old).contains(k) {
            let i = choose|i: int| 0 <= i < old.len() && #[trigger] old[i].name == k;
            assert(new[i].name == k);
        }
        if group_names(new).contains(k) {
            let i = choose|i: int| 0 <= i < new.len() && #[trigger] new[i].name == k;
            assert(old[i].name == k);
        }
    }
    assert(group_names(old) =~= group_names(new));
}

proof fn lemma_first_is_least(a: Seq<GroupView>, b: Seq<GroupView>)
    requires
        strictly_sorted(a),
        strictly_sorted(b),
        group_names(a) == group_names(b),
        a.len() > 0,
    ensures
        b.len() > 0,
        a[0].name == b[0].name,
{
    assert(group_names(a).contains(a[0].name));
    let j = choose|j: int| 0 <= j < b.len() && #[trigger] b[j].name == a[0].name;
    assert(group_names(b).contains(b[0].name));
    let i = choose|i: int| 0 <= i < a.len() && #[trigger] a[i].name == b[0].name;
    if j > 0 {
        assert(seq_lt(b[0].name, b[j].name));
        if i > 0 {
            assert(seq_lt(a[0].name, a[i].name));
            lemma_lt_transitive(a[0].name, b[0].name, a[0].name);
        }
        lemma_lt_irreflexive(a[0].name);
    }
}

proof fn lemma_rest_same_names(a: Seq<GroupView>, b: Seq<GroupView>)
    requires
        strictly_sorted(a),
        strictly_sorted(b),
        group_names(a) == group_names(b),
        a.len() > 0,
        b.len() > 0,
        a[0].name == b[0].name,
    ensures
        forall|k: Seq<char>| group_names(a.drop_first()).contains(k) ==> group_names(b.drop_first()).contains(k),
{
    let ra = a.drop_first();
    let rb = b.drop_first();
    assert forall|k: Seq<char>| group_names(ra).contains(k) implies group_names(rb).contains(k) by {
        let i = choose|i: int| 0 <= i < ra.len() && #[trigger] ra[i].name == k;
        assert(ra[i] == a[i + 1]);
        assert(seq_lt(a[0].name, a[i + 1].name));
        assert(group_names(a).contains(a[i + 1].name));
        let j = choose|j: int| 0 <= j < b.len() && #[trigger] b[j].name == k;
        if j == 0 {
            lemma_lt_irreflexive(k);
        }
        assert(rb[j - 1] == b[j]);
        assert(rb[j - 1].name == k);
    }
}

proof fn lemma_sorted_same_names(a: Seq<GroupView>, b: Seq<GroupView>)
    requires
        strictly_sorted(a),
        strictly_sorted(b),
        group_names(a) == group_names(b),
    ensures
        same_groups(a, b),
    decreases a.len(),
{
    if a.len() == 0 {
        if b.len() > 0 {
            lemma_first_is_least(b, a);
        }
    } else {
        lemma_first_is_least(a, b);
        let ra = a.drop_first();
        let rb = b.drop_first();
        lemma_rest_same_names(a, b);
        lemma_rest_same_names(b, a);
        assert(group_names(ra) =~= group_names(rb));
        assert forall|i: int, j: int| 0 <= i < j < ra.len() implies seq_lt(
            #[trigger] ra[i].name,
            #[trigger] ra[j].name,
        ) by {
            assert(ra[i] == a[i + 1] && ra[j] == a[j + 1]);
        }
        assert forall|i: int, j: int| 0 <= i < j < rb.len() implies seq_lt(
            #[trigger] rb[i].name,
            #[trigger] rb[j].name,
        ) by {
            assert(rb[i] == b[i + 1] && rb[j] == b[j + 1]);
        }
        lemma_sorted_same_names(ra, rb);
        assert forall|i: int| 0 <= i < b.len() implies (#[trigger] a[i]).name == b[i].name by {
            if i > 0 {
                assert(ra[i - 1] == a[i] && rb[i - 1] == b[i]);
            }
        }
    }
}

/// `e` is the change of one of the first `n` groups, whose selection is
/// defined on both sides and differs.
pub open spec fn is_change_among(old: Seq<GroupView>, new: Seq<GroupView>, n: nat, e: ChangeView) -> bool {
    exists|i: int|
        0 <= i < n && selection_changed(old[i], #[trigger] new[i]) && change_of(old[i], new[i]) == e
}

proof fn lemma_entries_upto(old: Seq<GroupView>, new: Seq<GroupView>, n: nat)
    requires
        n <= old.len(),
        n <= new.len(),
    ensures
        forall|e: ChangeView| changes_upto(old, new, n).contains(e) <==> is_change_among(old, new, n, e),
    decreases n,
{
    let all = changes_upto(old, new, n);
    if n > 0 {
        let m = (n - 1) as nat;
        lemma_entries_upto(old, new, m);
        let earlier = changes_upto(old, new, m);
        let shift: int = if selection_changed(old[n - 1], new[n - 1]) { 1 } else { 0 };
        assert(forall|k: int| 0 <= k < earlier.len() ==> all[k + shift] == earlier[k]);
        assert forall|e: ChangeView| all.contains(e) <==> is_change_among(old, new, n, e) by {
            if all.contains(e) {
                let k = all.index_of(e);
                if shift == 1 && k == 0 {
                    assert(selection_changed(old[n - 1], new[n - 1]) && change_of(old[n - 1], new[n - 1]) == e);
                } else {
                    assert(earlier[k - shift] == e);
                    assert(is_change_among(old, new, m, e));
                    let i = choose|i: int|
                        0 <= i < m && selection_changed(old[i], #[trigger] new[i]) && change_of(old[i], new[i])
                            == e;
                    assert(0 <= i < n && selection_changed(old[i], new[i]) && change_of(old[i], new[i]) == e);
                }
            }
            if is_change_among(old, new, n, e) {
                let i = choose|i: int|
                    0 <= i < n && selection_changed(old[i], #[trigger] new[i]) && change_of(old[i], new[i]) == e;
                if i < n - 1 {
                    assert(is_change_among(old, new, m, e));
                    let k = earlier.index_of(e);
                    assert(all[k + shift] == e);
                } else {
                    assert(all[0] == e);
                }
            }
        }
    } else {
        assert(all.len() == 0);
    }
}

/// A list of single changes holds an entry exactly for each group whose
/// selection is defined on both sides and differs: the group's name with the
/// selection before and after.
pub proof fn law_entry_iff_selection_changed(old: Seq<GroupView>, new: Seq<GroupView>, list: Seq<ChangeView>)
    requires
        diff_spec(old, new) == UpdateView::PartialUpdate(list),
    ensures
        forall|e: ChangeView| list.contains(e) <==> is_change_among(old, new, new.len(), e),
{
    lemma_entries_upto(old, new, new.len());
}

/// Between sides in the order of their names, a group whose selection is
/// undefined on either side, or the same on both, has no entry in a list of
/// single changes.
pub proof fn law_no_entry_without_change(
    old: Seq<GroupView>,
    new: Seq<GroupView>,
    list: Seq<ChangeView>,
    i: int,
)
    requires
        strictly_sorted(new),
        diff_spec(old, new) == UpdateView::PartialUpdate(list),
        0 <= i < new.len(),
        !selection_changed(old[i], new[i]),
    ensures
        forall|k: int| 0 <= k < list.len() ==> (#[trigger] list[k]).0 != new[i].name,
{
    lemma_entries_upto(old, new, new.len());
    assert forall|k: int| 0 <= k < list.len() implies (#[trigger] list[k]).0 != new[i].name by {
        let e = list[k];
        assert(list.contains(e));
        assert(is_change_among(old, new, new.len(), e));
        let j = choose|j: int|
            0 <= j < new.len() && selection_changed(old[j], #[trigger] new[j]) && change_of(old[j], new[j]) == e;
        if e.0 == new[i].name {
            lemma_sorted_names_distinct(new, i, j);
        }
    }
}

/// A list of single changes stands in the reverse of the order in which a
/// scan along the new records meets the changed groups.
pub proof fn law_changes_reverse_scan_order(old: Seq<GroupView>, new: Seq<GroupView>, list: Seq<ChangeView>)
    requires
        diff_spec(old, new) == UpdateView::PartialUpdate(list),
    ensures
        list == changes_in_scan_order(old, new, new.len()).reverse(),
{
    lemma_reverse_scan_upto(old, new, new.len());
}

/// Between sides in the order of their names, the group names in a list of
/// single changes strictly decrease.
pub proof fn law_changes_names_decrease(old: Seq<GroupView>, new: Seq<GroupView>, list: Seq<ChangeView>)
    requires
        strictly_sorted(new),
        diff_spec(old, new) == UpdateView::PartialUpdate(list),
    ensures
        forall|p: int, q: int| 0 <= p < q < list.len() ==> seq_lt(#[trigger] list[q].0, #[trigger] list[p].0),
{
    lemma_names_decrease_upto(old, new, new.len());
}

proof fn lemma_names_decrease_upto(old: Seq<GroupView>, new: Seq<GroupView>, n: nat)
    requires
        strictly_sorted(new),
        n <= old.len(),
        n <= new.len(),
    ensures
        forall|p: int, q: int|
            0 <= p < q < changes_upto(old, new, n).len() ==> seq_lt(
                #[trigger] changes_upto(old, new, n)[q].0,
                #[trigger] changes_upto(old, new, n)[p].0,
            ),
    decreases n,
{
    let all = changes_upto(old, new, n);
    if n > 0 {
        let m = (n - 1) as nat;
        lemma_names_decrease_upto(old, new, m);
        lemma_entries_upto(old, new, m);
        let earlier = changes_upto(old, new, m);
        if selection_changed(old[n - 1], new[n - 1]) {
            assert forall|p: int, q: int| 0 <= p < q < all.len() implies seq_lt(
                #[trigger] all[q].0,
                #[trigger] all[p].0,
            ) by {
                assert(all[q] == earlier[q - 1]);
                if p == 0 {
                    let e = earlier[q - 1];
                    assert(earlier.contains(e));
                    assert(is_change_among(old, new, m, e));
                    let j = choose|j: int|
                        0 <= j < m && selection_changed(old[j], #[trigger] new[j]) && change_of(old[j], new[j])
                            == e;
                    assert(seq_lt(new[j].name, new[n - 1].name));
                } else {
                    assert(all[p] == earlier[p - 1]);
                }
            }
        }
    } else {
        assert(all.len() == 0);
    }
}

proof fn lemma_reverse_scan_upto(old: Seq<GroupView>, new: Seq<GroupView>, n: nat)
    ensures
        changes_upto(old, new, n) == changes_in_scan_order(old, new, n).reverse(),
    decreases n,
{
    if n > 0 {
        lemma_reverse_scan_upto(old, new, (n - 1) as nat);
        let earlier = changes_in_scan_order(old, new, (n - 1) as nat);
        if selection_changed(old[n - 1], new[n - 1]) {
            let c = change_of(old[n - 1], new[n - 1]);
            assert(earlier.push(c).reverse() =~= seq![c] + earlier.reverse());
        }
    }
    assert(changes_upto(old, new, n) =~= changes_in_scan_order(old, new, n).reverse());
}

} // verus!
