use vstd::prelude::*;
use crate::order::{seq_lt, str_eq, str_lt, lemma_lt_irreflexive, lemma_lt_transitive, lemma_lt_total};

verus! {

/// One candidate proxy: its name within the group and a payload that is
/// carried through unchanged.
#[derive(Clone, Debug, PartialEq, Eq)]
pub struct ProxyItem {
    pub name: String,
    pub kind: String,
}

/// A named group of candidates with the candidate that is selected, if any.
#[derive(Clone, Debug, PartialEq, Eq)]
pub struct ProxyGroup {
    pub name: String,
    pub all: Vec<ProxyItem>,
    pub now: Option<String>,
}

/// Mathematical value of a [`ProxyItem`].
pub ghost struct ItemView {
    pub name: Seq<char>,
    pub kind: Seq<char>,
}

/// Mathematical value of a [`ProxyGroup`].
pub ghost struct GroupView {
    pub name: Seq<char>,
    pub all: Seq<ItemView>,
    pub now: Option<Seq<char>>,
}

impl View for ProxyItem {
    type V = ItemView;

    open spec fn view(&self) -> ItemView {
        ItemView { name: self.name@, kind: self.kind@ }
    }
}

/// The value of an optional string.
pub open spec fn opt_view(o: Option<String>) -> Option<Seq<char>> {
    match o {
        Some(s) => Some(s@),
        None => None,
    }
}

impl View for ProxyGroup {
    type V = GroupView;

    open spec fn view(&self) -> GroupView {
        GroupView {
            name: self.name@,
            all: Seq::new(self.all@.len(), |i: int| self.all@[i]@),
            now: opt_view(self.now),
        }
    }
}

impl GroupView {
    /// The selection, where there is one, names one of the candidates.
    pub open spec fn selection_is_candidate(self) -> bool {
        match self.now {
            Some(n) => exists|i: int| 0 <= i < self.all.len() && #[trigger] self.all[i].name == n,
            None => true,
        }
    }
}

impl ProxyItem {
    /// A copy of the item.
    pub fn duplicate(&self) -> (r: ProxyItem)
        ensures
            r@ == self@,
    {
        ProxyItem { name: self.name.clone(), kind: self.kind.clone() }
    }
}

impl ProxyGroup {
    /// A copy of the group.
    pub fn duplicate(&self) -> (r: ProxyGroup)
        ensures
            r@ == self@,
    {
        let mut all: Vec<ProxyItem> = Vec::new();
        let mut i: usize = 0;
        while i < self.all.len()
            invariant
                i <= self.all@.len(),
                all@.len() == i,
                forall|j: int| 0 <= j < i ==> (#[trigger] all@[j])@ == self.all@[j]@,
            decreases self.all@.len() - i,
        {
            all.push(self.all[i].duplicate());
            i = i + 1;
        }
        let now = match &self.now {
            Some(n) => Some(n.clone()),
            None => None,
        };
        let r = ProxyGroup { name: self.name.clone(), all, now };
        assert(r@.all =~= self@.all);
        r
    }

    /// Decides whether the selection, where there is one, names one of the
    /// candidates.
    pub fn selection_is_candidate(&self) -> (r: bool)
        ensures
            r == self@.selection_is_candidate(),
    {
        match &self.now {
            None => true,
            Some(n) => {
                let mut i: usize = 0;
                while i < self.all.len()
                    invariant
                        i <= self.all@.len(),
                        self.now == Some(*n),
                        forall|j: int| 0 <= j < i ==> (#[trigger] self@.all[j]).name != n@,
                    decreases self.all@.len() - i,
                {
                    if self.all[i].name == *n {
                        assert(self@.all[i as int].name == n@);
                        return true;
                    }
                    i = i + 1;
                }
                false
            },
        }
    }
}

/// Group names strictly increase along the sequence.
pub open spec fn strictly_sorted(s: Seq<GroupView>) -> bool {
    forall|i: int, j: int| 0 <= i < j < s.len() ==> seq_lt(#[trigger] s[i].name, #[trigger] s[j].name)
}

/// In a strictly sorted sequence a name occurs at one position only.
pub proof fn lemma_sorted_names_distinct(s: Seq<GroupView>, i: int, j: int)
    requires
        strictly_sorted(s),
        0 <= i < s.len(),
        0 <= j < s.len(),
        s[i].name == s[j].name,
    ensures
        i == j,
{
    lemma_lt_irreflexive(s[i].name);
}

/// The values of a sequence of groups.
pub open spec fn groups_view(groups: Seq<ProxyGroup>) -> Seq<GroupView> {
    Seq::new(groups.len(), |i: int| groups[i]@)
}

/// The groups of a snapshot, keyed by name and kept in the order of their names.
#[derive(Debug, PartialEq, Eq)]
pub struct ProxyRecords {
    entries: Vec<ProxyGroup>,
}

impl Clone for ProxyRecords {
    fn clone(&self) -> (r: ProxyRecords)
        ensures
            r@ == self@,
    {
        self.duplicate()
    }
}

impl View for ProxyRecords {
    type V = Seq<GroupView>;

    closed spec fn view(&self) -> Seq<GroupView> {
        groups_view(self.entries@)
    }
}

impl ProxyRecords {
    /// Holds of all records: names strictly increase, so each name occurs once.
    #[verifier::type_invariant]
    pub open spec fn wf(&self) -> bool {
        strictly_sorted(self@)
    }

    /// Whether a group of the given name is held.
    pub open spec fn has(&self, key: Seq<char>) -> bool {
        exists|i: int| 0 <= i < self@.len() && #[trigger] self@[i].name == key
    }

    /// Records without any group.
    pub fn new() -> (r: ProxyRecords)
        ensures
            r@ == Seq::<GroupView>::empty(),
    {
        let entries: Vec<ProxyGroup> = Vec::new();
        assert(groups_view(entries@) =~= Seq::<GroupView>::empty());
        ProxyRecords { entries }
    }

    /// A copy of the records.
    pub fn duplicate(&self) -> (r: ProxyRecords)
        ensures
            r@ == self@,
    {
        let mut entries: Vec<ProxyGroup> = Vec::new();
        let mut i: usize = 0;
        while i < self.entries.len()
            invariant
                i <= self.entries@.len(),
                entries@.len() == i,
                forall|j: int| 0 <= j < i ==> (#[trigger] entries@[j])@ == self.entries@[j]@,
            decreases self.entries@.len() - i,
        {
            entries.push(self.entries[i].duplicate());
            i = i + 1;
        }
        proof {
            use_type_invariant(self);
            assert(groups_view(entries@) =~= self@);
        }
        ProxyRecords { entries }
    }

    /// The number of groups.
    pub fn len(&self) -> (n: usize)
        ensures
            n == self@.len(),
    {
        self.entries.len()
    }

    /// The group at a position of the name order.
    pub fn group_at(&self, i: usize) -> (g: &ProxyGroup)
        requires
            i < self@.len(),
        ensures
            g@ == self@[i as int],
    {
        &self.entries[i]
    }

    /// Looks a group up by its name.
    pub fn get(&self, key: &str) -> (r: Option<&ProxyGroup>)
        ensures
            r is Some <==> self.has(key@),
            r is Some ==> r.unwrap()@.name == key@ && self@.contains(r.unwrap()@),
    {
        let mut i: usize = 0;
        while i < self.entries.len()
            invariant
                i <= self.entries@.len(),
                forall|j: int| 0 <= j < i ==> (#[trigger] self@[j]).name != key@,
            decreases self.entries@.len() - i,
        {
            if str_eq(self.entries[i].name.as_str(), key) {
                assert(self@[i as int] == self.entries@[i as int]@);
                assert(self@[i as int].name == key@);
                return Some(&self.entries[i]);
            }
            i = i + 1;
        }
        None
    }

    /// Puts a group in at the place of its name. A group of the same name that
    /// was held before is replaced and handed back.
    pub fn insert(&mut self, group: ProxyGroup) -> (prev: Option<ProxyGroup>)
        ensures
            final(self).has(group@.name),
            final(self)@.contains(group@),
            prev is Some <==> old(self).has(group@.name),
            prev is Some ==> prev.unwrap()@.name == group@.name && old(self)@.contains(prev.unwrap()@)
                && final(self)@.len() == old(self)@.len(),
            prev is None ==> final(self)@.len() == old(self)@.len() + 1,
            forall|g: GroupView| g.name != group@.name ==> (final(self)@.contains(g) <==> old(self)@.contains(g)),
    {
        proof {
            use_type_invariant(&*self);
        }
        let ghost before = self@;
        let ghost gv = group@;
        let mut taken = ProxyRecords::new();
        core::mem::swap(self, &mut taken);
        let mut entries = taken.entries;
        assert(before =~= groups_view(entries@));
        let mut i: usize = 0;
        while i < entries.len() && str_lt(entries[i].name.as_str(), group.name.as_str())
            invariant
                i <= entries@.len(),
                forall|j: int| 0 <= j < i ==> seq_lt((#[trigger] entries@[j])@.name, group@.name),
            decreases entries@.len() - i,
        {
            i = i + 1;
        }
        proof {
            assert forall|j: int| 0 <= j < i implies (#[trigger] before[j]).name != gv.name by {
                assert(before[j] == entries@[j]@);
                lemma_lt_irreflexive(gv.name);
            }
        }
        if i < entries.len() && entries[i].name == group.name {
            proof {
                assert(before[i as int].name == gv.name);
            }
            entries.push(group);
            let prev = entries.swap_remove(i);
            proof {
                let after = groups_view(entries@);
                assert(after =~= before.update(i as int, gv));
                assert(after[i as int] == gv);
                assert(before[i as int] == prev@);
                assert forall|g: GroupView| g.name != gv.name implies (after.contains(g) <==> before.contains(g)) by {
                    if after.contains(g) {
                        let k = choose|k: int| 0 <= k < after.len() && after[k] == g;
                        assert(before[k] == g);
                    }
                    if before.contains(g) {
                        let k = choose|k: int| 0 <= k < before.len() && before[k] == g;
                        assert(after[k] == g);
                    }
                }
                assert forall|a: int, b: int| 0 <= a < b < after.len() implies seq_lt(
                    #[trigger] after[a].name,
                    #[trigger] after[b].name,
                ) by {
                    assert(after[a].name == before[a].name);
                    assert(after[b].name == before[b].name);
                }
            }
            *self = ProxyRecords { entries };
            Some(prev)
        } else {
            proof {
                if i < before.len() {
                    assert(before[i as int] == entries@[i as int]@);
                    lemma_lt_total(before[i as int].name, gv.name);
                    assert forall|j: int| i <= j < before.len() implies seq_lt(gv.name, (#[trigger] before[j]).name) by {
                        if j > i {
                            lemma_lt_transitive(gv.name, before[i as int].name, before[j].name);
                        }
                    }
                }
                assert forall|j: int| 0 <= j < before.len() implies (#[trigger] before[j]).name != gv.name by {
                    lemma_lt_irreflexive(gv.name);
                }
            }
            entries.insert(i, group);
            proof {
                let after = groups_view(entries@);
                assert(after =~= before.insert(i as int, gv));
                assert(after[i as int] == gv);
                assert forall|g: GroupView| g.name != gv.name implies (after.contains(g) <==> before.contains(g)) by {
                    if after.contains(g) {
                        let k = choose|k: int| 0 <= k < after.len() && after[k] == g;
                        if k < i {
                            assert(before[k] == g);
                        } else {
                            assert(before[k - 1] == g);
                        }
                    }
                    if before.contains(g) {
                        let k = choose|k: int| 0 <= k < before.len() && before[k] == g;
                        if k < i {
                            assert(after[k] == g);
                        } else {
                            assert(after[k + 1] == g);
                        }
                    }
                }
                assert forall|a: int, b: int| 0 <= a < b < after.len() implies seq_lt(
                    #[trigger] after[a].name,
                    #[trigger] after[b].name,
                ) by {
                    if a < i && b > i {
                        assert(after[a] == before[a] && after[b] == before[b - 1]);
                    } else if a < i && b < i {
                        assert(after[a] == before[a] && after[b] == before[b]);
                    } else if a > i {
                        assert(after[a] == before[a - 1] && after[b] == before[b - 1]);
                    } else if a == i {
                        assert(after[b] == before[b - 1]);
                    } else {
                        assert(after[a] == before[a]);
                    }
                }
            }
            *self = ProxyRecords { entries };
            None
        }
    }
}

/// The full view of the proxy state at one moment: the pseudo-group that is
/// always present, the groups by name, and the generation of the refresh that
/// brought it (zero before the first successful refresh).
#[derive(Clone, Debug, PartialEq, Eq)]
pub struct ProxySnapshot {
    pub global: ProxyGroup,
    pub groups: ProxyRecords,
    pub updated_at: u64,
}

/// Mathematical value of a [`ProxySnapshot`].
pub ghost struct SnapshotView {
    pub global: GroupView,
    pub groups: Seq<GroupView>,
    pub updated_at: nat,
}

impl View for ProxySnapshot {
    type V = SnapshotView;

    open spec fn view(&self) -> SnapshotView {
        SnapshotView { global: self.global@, groups: self.groups@, updated_at: self.updated_at as nat }
    }
}

} // verus!
